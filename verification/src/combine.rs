//! Correlating the four record streams into one merged timeline.
//!
//! Homework and absence records lack a stable cross-record identifier, so
//! they are indexed under a surrogate key derived from their defining
//! instant's Budapest-local calendar date and their subject uid; exams are
//! indexed under their own stable uid.  Lessons then claim matching entries
//! in fetch order, each entry at most once: a match takes the entry out of
//! its index, and whatever is left over afterwards is the remainder.

use vstd::prelude::*;

use crate::client::absences::AbsenceRaw;
use crate::client::exam::ExamRaw;
use crate::client::homework::HomeworkRaw;
use crate::client::timetable::LessonRaw;
use crate::index::{
    assoc_contains, assoc_get, assoc_insert, assoc_insert_all, assoc_remove, assoc_unique,
    uassoc_contains, uassoc_get, uassoc_insert, uassoc_insert_all, uassoc_remove, uassoc_unique,
    KeyIndex, UidIndex,
};
use crate::stamp::{stamp_parse, ParseError, Timestamp};
use crate::surrogate::surrogate_key;

verus! {

/// The three secondary streams indexed and the lesson stream as fetched:
/// what the matching pass consumes.
pub type Preprocessed = (
    Vec<LessonRaw>,
    KeyIndex<HomeworkRaw>,
    UidIndex<ExamRaw>,
    KeyIndex<AbsenceRaw>,
);

/// A lesson plus at most one matched record of each secondary stream.  Owns
/// the matched records: once claimed, a secondary record has left its index.
#[derive(Debug)]
pub struct CombinedLesson {
    pub lesson_raw: LessonRaw,
    pub exam: Option<ExamRaw>,
    pub homework: Option<HomeworkRaw>,
    pub absence: Option<AbsenceRaw>,
}

pub type CombinedTimetable = Vec<CombinedLesson>;

// --- surrogate keys of the records -----------------------------------------

/// Whether a homework record's deadline reads as an in-window instant.
pub open spec fn homework_parse_ok(h: HomeworkRaw) -> bool {
    stamp_parse(h.date_deadline@) is Some
}

/// The surrogate key a homework record is indexed under; meaningful only
/// when its deadline parses.
pub open spec fn homework_key(h: HomeworkRaw) -> u64 {
    surrogate_key(stamp_parse(h.date_deadline@)->0, h.subject.uid@)
}

/// Whether an absence record's lesson start reads as an in-window instant.
pub open spec fn absence_parse_ok(a: AbsenceRaw) -> bool {
    stamp_parse(a.lesson.start_time@) is Some
}

/// The surrogate key an absence record is indexed under; meaningful only
/// when its lesson start parses.
pub open spec fn absence_key(a: AbsenceRaw) -> u64 {
    surrogate_key(stamp_parse(a.lesson.start_time@)->0, a.subject.uid@)
}

/// Whether a lesson needs no key, or its start reads as an in-window
/// instant.  A lesson without a subject matches nothing and is never keyed.
pub open spec fn lesson_parse_ok(l: LessonRaw) -> bool {
    l.subject is Some ==> stamp_parse(l.start_time@) is Some
}

/// The surrogate key a lesson claims homework and absences under;
/// meaningful only when it has a subject and its start parses.
pub open spec fn lesson_key(l: LessonRaw) -> u64 {
    surrogate_key(stamp_parse(l.start_time@)->0, l.subject->0.uid@)
}

// --- building the indices ---------------------------------------------------

/// The homework index after feeding the first `n` records of `inc` into
/// `buf`, newest entry winning on a key collision.
pub open spec fn homework_indexed(
    buf: Seq<(u64, HomeworkRaw)>,
    inc: Seq<HomeworkRaw>,
    n: int,
) -> Seq<(u64, HomeworkRaw)>
    decreases n,
{
    if n <= 0 {
        buf
    } else {
        assoc_insert(homework_indexed(buf, inc, n - 1), homework_key(inc[n - 1]), inc[n - 1])
    }
}

/// The absence index after feeding the first `n` records of `inc` into
/// `buf`.
pub open spec fn absence_indexed(
    buf: Seq<(u64, AbsenceRaw)>,
    inc: Seq<AbsenceRaw>,
    n: int,
) -> Seq<(u64, AbsenceRaw)>
    decreases n,
{
    if n <= 0 {
        buf
    } else {
        assoc_insert(absence_indexed(buf, inc, n - 1), absence_key(inc[n - 1]), inc[n - 1])
    }
}

/// The exam index after feeding the first `n` records of `inc` into `buf`,
/// keyed by the exams' own uids.
pub open spec fn exams_indexed(
    buf: Seq<(String, ExamRaw)>,
    inc: Seq<ExamRaw>,
    n: int,
) -> Seq<(String, ExamRaw)>
    decreases n,
{
    if n <= 0 {
        buf
    } else {
        uassoc_insert(exams_indexed(buf, inc, n - 1), inc[n - 1].uid, inc[n - 1])
    }
}

/// Appends a fetched chunk of lessons to the timetable buffer, order kept.
pub fn process_timetable(buf: &mut Vec<LessonRaw>, incoming: Vec<LessonRaw>)
    ensures
        final(buf)@ == old(buf)@ + incoming@,
{
    let mut incoming = incoming;
    buf.append(&mut incoming);
}

/// Computes each homework record's surrogate key, keeping fetch order; the
/// first record whose deadline cannot be read fails the whole pass.
#[verifier::loop_isolation(false)]
fn key_homework(incoming: Vec<HomeworkRaw>) -> (r: Result<Vec<(u64, HomeworkRaw)>, ParseError>)
    ensures
        r is Ok <==> (forall|i: int| 0 <= i < incoming@.len() ==> homework_parse_ok(incoming@[i])),
        r matches Ok(ks) ==> ks@.len() == incoming@.len() && forall|p: int|
            0 <= p < incoming@.len() ==> ks@[p] == (
                homework_key(#[trigger] incoming@[p]),
                incoming@[p],
            ),
        r matches Err(e) ==> exists|i: int|
            0 <= i < incoming@.len() && !homework_parse_ok(incoming@[i]) && e.value
                == #[trigger] incoming@[i].date_deadline && e.record_uid == incoming@[i].uid,
{
    let ghost inc0 = incoming@;
    let mut incoming = incoming;
    let mut keyed: Vec<(u64, HomeworkRaw)> = Vec::new();
    let n = incoming.len();
    let mut i: usize = 0;
    while i < n
        invariant
            i <= n,
            incoming@ == inc0.subrange(i as int, n as int),
            keyed@.len() == i,
            forall|j: int|
                0 <= j < i ==> homework_parse_ok(#[trigger] inc0[j]) && keyed@[j] == (
                homework_key(inc0[j]),
                inc0[j],
            ),
        decreases n - i,
    {
        let hw = incoming.remove(0);
        proof {
            assert(hw == inc0[i as int]);
        }
        let t = match Timestamp::parse(hw.date_deadline.as_str()) {
            Some(t) => t,
            None => {
                proof {
                    assert(!homework_parse_ok(inc0[i as int]));
                }
                return Err(ParseError { record_uid: hw.uid.clone(), value: hw.date_deadline });
            },
        };
        let k = crate::surrogate::compute_surrogate_key(t, hw.subject.uid.as_str());
        proof {
            assert(k == homework_key(inc0[i as int]));
        }
        keyed.push((k, hw));
        i += 1;
        proof {
            assert(incoming@ =~= inc0.subrange(i as int, n as int));
        }
    }
    Ok(keyed)
}

/// Feeding keyed entries one by one is the same as indexing the records
/// they were keyed from.
proof fn lemma_homework_indexed_is_insert_all(
    buf: Seq<(u64, HomeworkRaw)>,
    inc: Seq<HomeworkRaw>,
    ks: Seq<(u64, HomeworkRaw)>,
    n: int,
)
    requires
        n <= inc.len(),
        forall|p: int| 0 <= p < n ==> ks[p] == (homework_key(#[trigger] inc[p]), inc[p]),
    ensures
        assoc_insert_all(buf, ks, n) == homework_indexed(buf, inc, n),
    decreases n,
{
    if n > 0 {
        lemma_homework_indexed_is_insert_all(buf, inc, ks, n - 1);
    }
}

/// Indexes a fetched chunk of homework by surrogate key: deadline date in
/// the reference timezone and subject uid.  A record whose deadline cannot
/// be read fails the whole call and leaves the buffer untouched; a key
/// collision silently overwrites (last write wins), a documented limitation.
pub fn process_homework(buf: &mut KeyIndex<HomeworkRaw>, incoming: Vec<HomeworkRaw>) -> (r: Result<
    (),
    ParseError,
>)
    requires
        old(buf).wf(),
        old(buf)@.len() + incoming@.len() < usize::MAX,
    ensures
        final(buf).wf(),
        r is Ok <==> (forall|i: int| 0 <= i < incoming@.len() ==> homework_parse_ok(incoming@[i])),
        r is Ok ==> final(buf)@ == homework_indexed(old(buf)@, incoming@, incoming@.len() as int),
        r matches Err(e) ==> final(buf)@ == old(buf)@ && exists|i: int|
            0 <= i < incoming@.len() && !homework_parse_ok(incoming@[i]) && e.value
                == #[trigger] incoming@[i].date_deadline && e.record_uid == incoming@[i].uid,
{
    let ghost inc0 = incoming@;
    let keyed = match key_homework(incoming) {
        Ok(ks) => ks,
        Err(e) => {
            return Err(e);
        },
    };
    let ghost ks = keyed@;
    buf.insert_all(keyed);
    proof {
        lemma_homework_indexed_is_insert_all(old(buf)@, inc0, ks, inc0.len() as int);
    }
    Ok(())
}

/// Computes each absence record's surrogate key, keeping fetch order; the
/// first record whose lesson start cannot be read fails the whole pass.
#[verifier::loop_isolation(false)]
fn key_absences(incoming: Vec<AbsenceRaw>) -> (r: Result<Vec<(u64, AbsenceRaw)>, ParseError>)
    ensures
        r is Ok <==> (forall|i: int| 0 <= i < incoming@.len() ==> absence_parse_ok(incoming@[i])),
        r matches Ok(ks) ==> ks@.len() == incoming@.len() && forall|p: int|
            0 <= p < incoming@.len() ==> ks@[p] == (
                absence_key(#[trigger] incoming@[p]),
                incoming@[p],
            ),
        r matches Err(e) ==> exists|i: int|
            0 <= i < incoming@.len() && !absence_parse_ok(incoming@[i]) && e.value
                == #[trigger] incoming@[i].lesson.start_time && e.record_uid == incoming@[i].uid,
{
    let ghost inc0 = incoming@;
    let mut incoming = incoming;
    let mut keyed: Vec<(u64, AbsenceRaw)> = Vec::new();
    let n = incoming.len();
    let mut i: usize = 0;
    while i < n
        invariant
            i <= n,
            incoming@ == inc0.subrange(i as int, n as int),
            keyed@.len() == i,
            forall|j: int|
                0 <= j < i ==> absence_parse_ok(#[trigger] inc0[j]) && keyed@[j] == (
                absence_key(inc0[j]),
                inc0[j],
            ),
        decreases n - i,
    {
        let ab = incoming.remove(0);
        proof {
            assert(ab == inc0[i as int]);
        }
        let t = match Timestamp::parse(ab.lesson.start_time.as_str()) {
            Some(t) => t,
            None => {
                proof {
                    assert(!absence_parse_ok(inc0[i as int]));
                }
                return Err(
                    ParseError { record_uid: ab.uid.clone(), value: ab.lesson.start_time },
                );
            },
        };
        let k = crate::surrogate::compute_surrogate_key(t, ab.subject.uid.as_str());
        proof {
            assert(k == absence_key(inc0[i as int]));
        }
        keyed.push((k, ab));
        i += 1;
        proof {
            assert(incoming@ =~= inc0.subrange(i as int, n as int));
        }
    }
    Ok(keyed)
}

/// Feeding keyed entries one by one is the same as indexing the records
/// they were keyed from.
proof fn lemma_absence_indexed_is_insert_all(
    buf: Seq<(u64, AbsenceRaw)>,
    inc: Seq<AbsenceRaw>,
    ks: Seq<(u64, AbsenceRaw)>,
    n: int,
)
    requires
        n <= inc.len(),
        forall|p: int| 0 <= p < n ==> ks[p] == (absence_key(#[trigger] inc[p]), inc[p]),
    ensures
        assoc_insert_all(buf, ks, n) == absence_indexed(buf, inc, n),
    decreases n,
{
    if n > 0 {
        lemma_absence_indexed_is_insert_all(buf, inc, ks, n - 1);
    }
}

/// Indexes a fetched chunk of absences by the same surrogate key, built
/// from the missed lesson's start instant and the subject uid.
pub fn process_absences(buf: &mut KeyIndex<AbsenceRaw>, incoming: Vec<AbsenceRaw>) -> (r: Result<
    (),
    ParseError,
>)
    requires
        old(buf).wf(),
        old(buf)@.len() + incoming@.len() < usize::MAX,
    ensures
        final(buf).wf(),
        r is Ok <==> (forall|i: int| 0 <= i < incoming@.len() ==> absence_parse_ok(incoming@[i])),
        r is Ok ==> final(buf)@ == absence_indexed(old(buf)@, incoming@, incoming@.len() as int),
        r matches Err(e) ==> final(buf)@ == old(buf)@ && exists|i: int|
            0 <= i < incoming@.len() && !absence_parse_ok(incoming@[i]) && e.value
                == #[trigger] incoming@[i].lesson.start_time && e.record_uid == incoming@[i].uid,
{
    let ghost inc0 = incoming@;
    let keyed = match key_absences(incoming) {
        Ok(ks) => ks,
        Err(e) => {
            return Err(e);
        },
    };
    let ghost ks = keyed@;
    buf.insert_all(keyed);
    proof {
        lemma_absence_indexed_is_insert_all(old(buf)@, inc0, ks, inc0.len() as int);
    }
    Ok(())
}

/// Pairs each exam with its own stable uid as the key, keeping fetch order.
#[verifier::loop_isolation(false)]
fn key_exams(incoming: Vec<ExamRaw>) -> (r: Vec<(String, ExamRaw)>)
    ensures
        r@.len() == incoming@.len(),
        forall|p: int|
            0 <= p < incoming@.len() ==> r@[p] == ((#[trigger] incoming@[p]).uid, incoming@[p]),
{
    let ghost inc0 = incoming@;
    let mut incoming = incoming;
    let mut keyed: Vec<(String, ExamRaw)> = Vec::new();
    let n = incoming.len();
    let mut i: usize = 0;
    while i < n
        invariant
            i <= n,
            incoming@ == inc0.subrange(i as int, n as int),
            keyed@.len() == i,
            forall|j: int| 0 <= j < i ==> keyed@[j] == ((#[trigger] inc0[j]).uid, inc0[j]),
        decreases n - i,
    {
        let exam = incoming.remove(0);
        proof {
            assert(exam == inc0[i as int]);
        }
        let k = exam.uid.clone();
        keyed.push((k, exam));
        i += 1;
        proof {
            assert(incoming@ =~= inc0.subrange(i as int, n as int));
        }
    }
    keyed
}

/// Feeding keyed entries one by one is the same as indexing the records
/// they were keyed from.
proof fn lemma_exams_indexed_is_insert_all(
    buf: Seq<(String, ExamRaw)>,
    inc: Seq<ExamRaw>,
    ks: Seq<(String, ExamRaw)>,
    n: int,
)
    requires
        n <= inc.len(),
        forall|p: int| 0 <= p < n ==> ks[p] == ((#[trigger] inc[p]).uid, inc[p]),
    ensures
        uassoc_insert_all(buf, ks, n) == exams_indexed(buf, inc, n),
    decreases n,
{
    if n > 0 {
        lemma_exams_indexed_is_insert_all(buf, inc, ks, n - 1);
    }
}

/// Indexes a fetched chunk of exams directly by their stable uids; no
/// surrogate key is involved.
pub fn process_exams(buf: &mut UidIndex<ExamRaw>, incoming: Vec<ExamRaw>)
    requires
        old(buf).wf(),
        old(buf)@.len() + incoming@.len() < usize::MAX,
    ensures
        final(buf).wf(),
        final(buf)@ == exams_indexed(old(buf)@, incoming@, incoming@.len() as int),
{
    let ghost inc0 = incoming@;
    let keyed = key_exams(incoming);
    let ghost ks = keyed@;
    buf.insert_all(keyed);
    proof {
        lemma_exams_indexed_is_insert_all(old(buf)@, inc0, ks, inc0.len() as int);
    }
}

// --- the matching pass ------------------------------------------------------

/// Every lesson that needs a key (has a subject) has a readable start
/// instant.
pub open spec fn lessons_parse_ok(ls: Seq<LessonRaw>) -> bool {
    forall|i: int| 0 <= i < ls.len() ==> lesson_parse_ok(#[trigger] ls[i])
}

/// The merge state after the first `n` lessons have claimed their matches:
/// the merged timeline so far and what is left of each index.  Lessons are
/// taken in fetch order; a lesson with a subject claims (and thereby
/// removes) the homework and absence entries under its surrogate key, and a
/// lesson with an announced exam uid claims the exam entry under that uid.
pub open spec fn joined(
    lessons: Seq<LessonRaw>,
    hw0: Seq<(u64, HomeworkRaw)>,
    ex0: Seq<(String, ExamRaw)>,
    ab0: Seq<(u64, AbsenceRaw)>,
    n: int,
) -> (Seq<CombinedLesson>, Seq<(u64, HomeworkRaw)>, Seq<(String, ExamRaw)>, Seq<(u64, AbsenceRaw)>)
    decreases n,
{
    if n <= 0 {
        (Seq::empty(), hw0, ex0, ab0)
    } else {
        let prev = joined(lessons, hw0, ex0, ab0, n - 1);
        let c = prev.0;
        let hw = prev.1;
        let ex = prev.2;
        let ab = prev.3;
        let l = lessons[n - 1];
        let k = lesson_key(l);
        let hwm = if l.subject is Some {
            assoc_get(hw, k)
        } else {
            None
        };
        let hw2 = if l.subject is Some {
            assoc_remove(hw, k)
        } else {
            hw
        };
        let abm = if l.subject is Some {
            assoc_get(ab, k)
        } else {
            None
        };
        let ab2 = if l.subject is Some {
            assoc_remove(ab, k)
        } else {
            ab
        };
        let exm = match l.announced_exam_uid {
            Some(u) => uassoc_get(ex, u@),
            None => None,
        };
        let ex2 = match l.announced_exam_uid {
            Some(u) => uassoc_remove(ex, u@),
            None => ex,
        };
        (
            c.push(CombinedLesson { lesson_raw: l, exam: exm, homework: hwm, absence: abm }),
            hw2,
            ex2,
            ab2,
        )
    }
}

/// Iterates the lessons in fetch order; each lesson with a subject claims
/// the homework and absence entries under its surrogate key, each lesson
/// with an announced exam claims that exam, and a claim takes the entry out
/// of its index, so at most one lesson claims any entry.  A lesson whose
/// start instant cannot be read fails the whole merge: a single bad key
/// could silently corrupt the join for unrelated records.
#[verifier::loop_isolation(false)]
#[verifier::rlimit(60)]
fn match_preprocessed_internal(preprocessed: Preprocessed) -> (r: Result<
    (CombinedTimetable, KeyIndex<HomeworkRaw>, UidIndex<ExamRaw>, KeyIndex<AbsenceRaw>),
    ParseError,
>)
    requires
        preprocessed.1.wf(),
        preprocessed.2.wf(),
        preprocessed.3.wf(),
    ensures
        r is Ok <==> lessons_parse_ok(preprocessed.0@),
        r matches Ok(o) ==> ({
            let j = joined(
                preprocessed.0@,
                preprocessed.1@,
                preprocessed.2@,
                preprocessed.3@,
                preprocessed.0@.len() as int,
            );
            o.0@ == j.0 && o.1@ == j.1 && o.2@ == j.2 && o.3@ == j.3 && o.1.wf() && o.2.wf()
                && o.3.wf()
        }),
        r matches Err(e) ==> exists|i: int|
            0 <= i < preprocessed.0@.len() && !lesson_parse_ok(#[trigger] preprocessed.0@[i])
                && e.value == preprocessed.0@[i].start_time && e.record_uid
                == preprocessed.0@[i].uid,
{
    let (timetable, homework, exams, absences) = preprocessed;
    let mut timetable = timetable;
    let mut homework = homework;
    let mut exams = exams;
    let mut absences = absences;
    let ghost tt0 = timetable@;
    let ghost hw0 = homework@;
    let ghost ex0 = exams@;
    let ghost ab0 = absences@;
    let mut combined: CombinedTimetable = Vec::new();
    let n = timetable.len();
    let mut i: usize = 0;
    while i < n
        invariant
            i <= n,
            timetable@ == tt0.subrange(i as int, n as int),
            homework.wf(),
            exams.wf(),
            absences.wf(),
            forall|j: int| 0 <= j < i ==> lesson_parse_ok(#[trigger] tt0[j]),
            combined@ == joined(tt0, hw0, ex0, ab0, i as int).0,
            homework@ == joined(tt0, hw0, ex0, ab0, i as int).1,
            exams@ == joined(tt0, hw0, ex0, ab0, i as int).2,
            absences@ == joined(tt0, hw0, ex0, ab0, i as int).3,
        decreases n - i,
    {
        let lesson = timetable.remove(0);
        proof {
            assert(lesson == tt0[i as int]);
        }
        let key_opt: Option<u64> = match &lesson.subject {
            Some(subject) => {
                match Timestamp::parse(lesson.start_time.as_str()) {
                    Some(t) => {
                        let k = crate::surrogate::compute_surrogate_key(t, subject.uid.as_str());
                        proof {
                            assert(k == lesson_key(tt0[i as int]));
                        }
                        Some(k)
                    },
                    None => {
                        proof {
                            assert(!lesson_parse_ok(tt0[i as int]));
                        }
                        return Err(
                            ParseError {
                                record_uid: lesson.uid.clone(),
                                value: lesson.start_time.clone(),
                            },
                        );
                    },
                }
            },
            None => None,
        };
        let hw_m = match key_opt {
            Some(k) => homework.remove(k),
            None => None,
        };
        let ab_m = match key_opt {
            Some(k) => absences.remove(k),
            None => None,
        };
        let ex_m = match &lesson.announced_exam_uid {
            Some(u) => exams.remove(u),
            None => None,
        };
        combined.push(CombinedLesson { lesson_raw: lesson, exam: ex_m, homework: hw_m, absence: ab_m });
        i += 1;
        proof {
            assert(timetable@ =~= tt0.subrange(i as int, n as int));
            let j = joined(tt0, hw0, ex0, ab0, i as int);
            assert(combined@ =~= j.0);
            assert(homework@ =~= j.1);
            assert(exams@ =~= j.2);
            assert(absences@ =~= j.3);
        }
    }
    proof {
        assert(tt0.subrange(0, n as int) =~= tt0);
    }
    Ok((combined, homework, exams, absences))
}

/// Merges the preprocessed streams into the combined timeline, discarding
/// whatever stayed unmatched in the indices.
pub fn match_preprocessed(preprocessed: Preprocessed) -> (r: Result<CombinedTimetable, ParseError>)
    requires
        preprocessed.1.wf(),
        preprocessed.2.wf(),
        preprocessed.3.wf(),
    ensures
        r is Ok <==> lessons_parse_ok(preprocessed.0@),
        r matches Ok(c) ==> c@ == joined(
            preprocessed.0@,
            preprocessed.1@,
            preprocessed.2@,
            preprocessed.3@,
            preprocessed.0@.len() as int,
        ).0,
        r matches Ok(c) ==> c@.len() == preprocessed.0@.len() && (forall|i: int|
            0 <= i < preprocessed.0@.len() ==> (#[trigger] c@[i]).lesson_raw
                == preprocessed.0@[i]),
        r matches Err(e) ==> exists|i: int|
            0 <= i < preprocessed.0@.len() && !lesson_parse_ok(#[trigger] preprocessed.0@[i])
                && e.value == preprocessed.0@[i].start_time && e.record_uid
                == preprocessed.0@[i].uid,
{
    let ghost p0 = preprocessed.0@;
    let ghost p1 = preprocessed.1@;
    let ghost p2 = preprocessed.2@;
    let ghost p3 = preprocessed.3@;
    match match_preprocessed_internal(preprocessed) {
        Ok((timetable, _, _, _)) => {
            proof {
                lemma_join_completeness(p0, p1, p2, p3, p0.len() as int);
            }
            Ok(timetable)
        },
        Err(e) => Err(e),
    }
}

/// Merges the preprocessed streams into the combined timeline and also
/// surfaces the remainders: whatever homework, exams and absences no lesson
/// claimed, in insertion order.
pub fn match_preprocessed_with_remainder(preprocessed: Preprocessed) -> (r: Result<
    (CombinedTimetable, KeyIndex<HomeworkRaw>, UidIndex<ExamRaw>, KeyIndex<AbsenceRaw>),
    ParseError,
>)
    requires
        preprocessed.1.wf(),
        preprocessed.2.wf(),
        preprocessed.3.wf(),
    ensures
        r is Ok <==> lessons_parse_ok(preprocessed.0@),
        r matches Ok(o) ==> ({
            let j = joined(
                preprocessed.0@,
                preprocessed.1@,
                preprocessed.2@,
                preprocessed.3@,
                preprocessed.0@.len() as int,
            );
            o.0@ == j.0 && o.1@ == j.1 && o.2@ == j.2 && o.3@ == j.3 && o.1.wf() && o.2.wf()
                && o.3.wf()
        }),
        r matches Ok(o) ==> o.0@.len() == preprocessed.0@.len() && matched_homework_count(o.0@)
            + o.1@.len() == preprocessed.1@.len() && matched_exam_count(o.0@) + o.2@.len()
            == preprocessed.2@.len() && matched_absence_count(o.0@) + o.3@.len()
            == preprocessed.3@.len(),
        r matches Err(e) ==> exists|i: int|
            0 <= i < preprocessed.0@.len() && !lesson_parse_ok(#[trigger] preprocessed.0@[i])
                && e.value == preprocessed.0@[i].start_time && e.record_uid
                == preprocessed.0@[i].uid,
{
    let ghost p0 = preprocessed.0@;
    let ghost p1 = preprocessed.1@;
    let ghost p2 = preprocessed.2@;
    let ghost p3 = preprocessed.3@;
    let r = match_preprocessed_internal(preprocessed);
    proof {
        if r is Ok {
            lemma_join_completeness(p0, p1, p2, p3, p0.len() as int);
        }
    }
    r
}

// --- laws of the join --------------------------------------------------------

/// How many merged lessons carry a claimed homework record.
pub open spec fn matched_homework_count(c: Seq<CombinedLesson>) -> int
    decreases c.len(),
{
    if c.len() == 0 {
        0
    } else {
        matched_homework_count(c.drop_last()) + if c.last().homework is Some {
            1int
        } else {
            0int
        }
    }
}

/// How many merged lessons carry a claimed exam record.
pub open spec fn matched_exam_count(c: Seq<CombinedLesson>) -> int
    decreases c.len(),
{
    if c.len() == 0 {
        0
    } else {
        matched_exam_count(c.drop_last()) + if c.last().exam is Some {
            1int
        } else {
            0int
        }
    }
}

/// How many merged lessons carry a claimed absence record.
pub open spec fn matched_absence_count(c: Seq<CombinedLesson>) -> int
    decreases c.len(),
{
    if c.len() == 0 {
        0
    } else {
        matched_absence_count(c.drop_last()) + if c.last().absence is Some {
            1int
        } else {
            0int
        }
    }
}

/// Join completeness: every lesson appears in the merged timeline exactly
/// once and in fetch order, and each index's entries are partitioned between
/// claims and remainder, so that claimed plus remaining equals what the
/// index held.
pub proof fn lemma_join_completeness(
    lessons: Seq<LessonRaw>,
    hw0: Seq<(u64, HomeworkRaw)>,
    ex0: Seq<(String, ExamRaw)>,
    ab0: Seq<(u64, AbsenceRaw)>,
    n: int,
)
    requires
        0 <= n <= lessons.len(),
        assoc_unique(hw0),
        uassoc_unique(ex0),
        assoc_unique(ab0),
    ensures
        ({
            let j = joined(lessons, hw0, ex0, ab0, n);
            &&& j.0.len() == n
            &&& forall|i: int| 0 <= i < n ==> (#[trigger] j.0[i]).lesson_raw == lessons[i]
            &&& assoc_unique(j.1)
            &&& uassoc_unique(j.2)
            &&& assoc_unique(j.3)
            &&& matched_homework_count(j.0) + j.1.len() == hw0.len()
            &&& matched_exam_count(j.0) + j.2.len() == ex0.len()
            &&& matched_absence_count(j.0) + j.3.len() == ab0.len()
        }),
    decreases n,
{
    if n > 0 {
        lemma_join_completeness(lessons, hw0, ex0, ab0, n - 1);
        let prev = joined(lessons, hw0, ex0, ab0, n - 1);
        let j = joined(lessons, hw0, ex0, ab0, n);
        let l = lessons[n - 1];
        let k = lesson_key(l);
        assert(j.0.drop_last() =~= prev.0);
        if l.subject is Some {
            crate::index::lemma_assoc_remove_props(prev.1, k);
            crate::index::lemma_assoc_remove_props(prev.3, k);
        }
        if l.announced_exam_uid is Some {
            crate::index::lemma_uassoc_remove_props(prev.2, l.announced_exam_uid->0@);
        }
    }
}

/// Join at-most-one-claim: a claim takes the entry out of its index, so no
/// two merged lessons can reference the same homework, exam or absence
/// entry: two lessons that both claimed homework (or absences) did so under
/// different surrogate keys, and two that both claimed exams named
/// different exam uids.
pub proof fn lemma_join_at_most_one_claim(
    lessons: Seq<LessonRaw>,
    hw0: Seq<(u64, HomeworkRaw)>,
    ex0: Seq<(String, ExamRaw)>,
    ab0: Seq<(u64, AbsenceRaw)>,
    n: int,
)
    requires
        0 <= n <= lessons.len(),
        assoc_unique(hw0),
        uassoc_unique(ex0),
        assoc_unique(ab0),
    ensures
        ({
            let j = joined(lessons, hw0, ex0, ab0, n);
            &&& forall|i: int|
                0 <= i < n && (#[trigger] j.0[i]).homework is Some ==> lessons[i].subject is Some
                    && !assoc_contains(j.1, lesson_key(lessons[i]))
            &&& forall|i: int|
                0 <= i < n && (#[trigger] j.0[i]).absence is Some ==> lessons[i].subject is Some
                    && !assoc_contains(j.3, lesson_key(lessons[i]))
            &&& forall|i: int|
                0 <= i < n && (#[trigger] j.0[i]).exam is Some ==> lessons[i].announced_exam_uid
                    is Some && !uassoc_contains(j.2, lessons[i].announced_exam_uid->0@)
            &&& forall|i1: int, i2: int|
                0 <= i1 < i2 < n && (#[trigger] j.0[i1]).homework is Some && (
                #[trigger] j.0[i2]).homework is Some ==> lesson_key(lessons[i1]) != lesson_key(
                    lessons[i2],
                )
            &&& forall|i1: int, i2: int|
                0 <= i1 < i2 < n && (#[trigger] j.0[i1]).absence is Some && (
                #[trigger] j.0[i2]).absence is Some ==> lesson_key(lessons[i1]) != lesson_key(
                    lessons[i2],
                )
            &&& forall|i1: int, i2: int|
                0 <= i1 < i2 < n && (#[trigger] j.0[i1]).exam is Some && (#[trigger] j.0[i2]).exam
                    is Some ==> lessons[i1].announced_exam_uid->0@
                    != lessons[i2].announced_exam_uid->0@
        }),
    decreases n,
{
    if n > 0 {
        lemma_join_completeness(lessons, hw0, ex0, ab0, n - 1);
        lemma_join_at_most_one_claim(lessons, hw0, ex0, ab0, n - 1);
        let prev = joined(lessons, hw0, ex0, ab0, n - 1);
        let j = joined(lessons, hw0, ex0, ab0, n);
        let l = lessons[n - 1];
        let k = lesson_key(l);
        assert(j.0.drop_last() =~= prev.0);
        assert(forall|i: int| 0 <= i < n - 1 ==> j.0[i] == prev.0[i]);
        assert(j.0[n - 1].homework is Some ==> l.subject is Some && assoc_contains(prev.1, k));
        if l.subject is Some {
            crate::index::lemma_assoc_remove_gone(prev.1, k);
            crate::index::lemma_assoc_remove_gone(prev.3, k);
            assert forall|i: int|
                0 <= i < n - 1 && (#[trigger] j.0[i]).homework is Some implies !assoc_contains(
                j.1,
                lesson_key(lessons[i]),
            ) by {
                if lesson_key(lessons[i]) != k {
                    crate::index::lemma_assoc_remove_other(prev.1, k, lesson_key(lessons[i]));
                }
            }
            assert forall|i: int|
                0 <= i < n - 1 && (#[trigger] j.0[i]).absence is Some implies !assoc_contains(
                j.3,
                lesson_key(lessons[i]),
            ) by {
                if lesson_key(lessons[i]) != k {
                    crate::index::lemma_assoc_remove_other(prev.3, k, lesson_key(lessons[i]));
                }
            }
        }
        if l.announced_exam_uid is Some {
            let u = l.announced_exam_uid->0@;
            crate::index::lemma_uassoc_remove_gone(prev.2, u);
            assert forall|i: int|
                0 <= i < n - 1 && (#[trigger] j.0[i]).exam is Some implies !uassoc_contains(
                j.2,
                lessons[i].announced_exam_uid->0@,
            ) by {
                if lessons[i].announced_exam_uid->0@ != u {
                    crate::index::lemma_uassoc_remove_other(
                        prev.2,
                        u,
                        lessons[i].announced_exam_uid->0@,
                    );
                }
            }
        }
    }
}

} // verus!
