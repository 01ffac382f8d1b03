use kreta_core::client::absences;
use kreta_core::client::exam::ExamRaw;
use kreta_core::client::homework::{ClassGroupRaw as HwClassGroupRaw, HomeworkRaw};
use kreta_core::client::timetable::{ClassGroupRaw, LessonRaw, SubjectRaw, UidNameAndDescRaw};
use kreta_core::combine::{
    match_preprocessed, match_preprocessed_with_remainder, process_absences, process_exams,
    process_homework, process_timetable,
};
use kreta_core::index::{KeyIndex, UidIndex};
use kreta_core::surrogate::compute_surrogate_key;
use kreta_core::Timestamp;

fn named(uid: &str) -> UidNameAndDescRaw {
    UidNameAndDescRaw {
        uid: uid.to_string(),
        name: uid.to_string(),
        desc: uid.to_string(),
    }
}

fn subject(uid: &str) -> SubjectRaw {
    SubjectRaw {
        uid: uid.to_string(),
        name: uid.to_lowercase(),
    }
}

fn lesson(uid: &str, start: &str, subj: Option<&str>, exam_uid: Option<&str>) -> LessonRaw {
    LessonRaw {
        uid: uid.to_string(),
        date: start.to_string(),
        start_time: start.to_string(),
        end_time: start.to_string(),
        name: "lesson".to_string(),
        oraszam: 1,
        class_group: ClassGroupRaw {
            uid: "cg".to_string(),
            name: "cg".to_string(),
        },
        teachers_name: Some("teacher".to_string()),
        subject: subj.map(subject),
        topic: None,
        room_name: Some("101".to_string()),
        student_presence: None,
        status: named("status"),
        substitute_teacher_name: None,
        homework_uid: None,
        announced_exam_uid: exam_uid.map(|u| u.to_string()),
    }
}

fn homework(uid: &str, deadline: &str, subj: &str) -> HomeworkRaw {
    HomeworkRaw {
        uid: uid.to_string(),
        subject: subject(subj),
        subject_name: subj.to_lowercase(),
        teachers_name: "teacher".to_string(),
        text: "do things".to_string(),
        date_assigned: deadline.to_string(),
        date_deadline: deadline.to_string(),
        date_registered: deadline.to_string(),
        is_registered_by_teacher: true,
        is_student_homework_enabled: false,
        is_solved: false,
        is_submittable: false,
        is_attachment_enabled: false,
        class_group: HwClassGroupRaw {
            uid: "cg".to_string(),
        },
    }
}

fn exam(uid: &str, date: &str, subj: &str) -> ExamRaw {
    ExamRaw {
        uid: uid.to_string(),
        date: date.to_string(),
        date_announced: date.to_string(),
        teachers_name: "teacher".to_string(),
        lesson_index_in_timetable: 1,
        subject: subject(subj),
        subject_name: subj.to_lowercase(),
        topic: "topic".to_string(),
        method: named("written"),
        class_group: ClassGroupRaw {
            uid: "cg".to_string(),
            name: "cg".to_string(),
        },
    }
}

fn absence(uid: &str, start: &str, subj: &str) -> absences::AbsenceRaw {
    absences::AbsenceRaw {
        date_of_creation: start.to_string(),
        date: start.to_string(),
        late_by_minutes: None,
        class_group: ClassGroupRaw {
            uid: "cg".to_string(),
            name: "cg".to_string(),
        },
        excuse_status: "Igazolatlan".to_string(),
        excuse_type: None,
        lesson: absences::LessonRaw {
            start_time: start.to_string(),
            end_time: start.to_string(),
            oraszam: 1,
        },
        mode: named("mode"),
        subject: subject(subj),
        teachers_name: "teacher".to_string(),
        typ: named("type"),
        uid: uid.to_string(),
    }
}

fn preprocess(
    lessons: Vec<LessonRaw>,
    hw: Vec<HomeworkRaw>,
    ex: Vec<ExamRaw>,
    ab: Vec<absences::AbsenceRaw>,
) -> (
    Vec<LessonRaw>,
    KeyIndex<HomeworkRaw>,
    UidIndex<ExamRaw>,
    KeyIndex<absences::AbsenceRaw>,
) {
    let mut timetable = Vec::new();
    process_timetable(&mut timetable, lessons);
    let mut hw_index = KeyIndex::new();
    process_homework(&mut hw_index, hw).unwrap();
    let mut ex_index = UidIndex::new();
    process_exams(&mut ex_index, ex);
    let mut ab_index = KeyIndex::new();
    process_absences(&mut ab_index, ab).unwrap();
    (timetable, hw_index, ex_index, ab_index)
}

#[test]
fn merge_attaches_matching_homework() {
    // A lesson and a homework on the same date and subject pair up, leaving
    // no remainder.
    let pre = preprocess(
        vec![lesson("l1", "2025-09-10T08:00:00Z", Some("MATH"), None)],
        vec![homework("h1", "2025-09-10T10:00:00Z", "MATH")],
        vec![],
        vec![],
    );
    let (combined, hw_rem, ex_rem, ab_rem) = match_preprocessed_with_remainder(pre).unwrap();
    assert_eq!(combined.len(), 1);
    let matched = combined[0].homework.as_ref().expect("homework should attach");
    assert_eq!(matched.uid, "h1");
    assert!(combined[0].exam.is_none());
    assert!(combined[0].absence.is_none());
    assert_eq!(hw_rem.len(), 0);
    assert_eq!(ex_rem.len(), 0);
    assert_eq!(ab_rem.len(), 0);
}

#[test]
fn unmatched_homework_stays_in_remainder() {
    // Homework for a subject with no lesson that day is surfaced whole in
    // the remainder; the merged list is unaffected.
    let pre = preprocess(
        vec![lesson("l1", "2025-09-10T08:00:00Z", Some("MATH"), None)],
        vec![homework("h1", "2025-09-10T10:00:00Z", "PHYS")],
        vec![],
        vec![],
    );
    let (combined, hw_rem, _, _) = match_preprocessed_with_remainder(pre).unwrap();
    assert_eq!(combined.len(), 1);
    assert!(combined[0].homework.is_none());
    assert_eq!(hw_rem.len(), 1);
    assert_eq!(hw_rem.entries()[0].1.uid, "h1");
}

#[test]
fn exam_matches_by_uid() {
    let pre = preprocess(
        vec![lesson("l1", "2025-09-10T08:00:00Z", Some("MATH"), Some("E1"))],
        vec![],
        vec![exam("E1", "2025-09-10T08:00:00Z", "MATH"), exam("E2", "2025-09-11T08:00:00Z", "MATH")],
        vec![],
    );
    let (combined, _, ex_rem, _) = match_preprocessed_with_remainder(pre).unwrap();
    assert_eq!(combined[0].exam.as_ref().unwrap().uid, "E1");
    assert_eq!(ex_rem.len(), 1);
    assert_eq!(ex_rem.entries()[0].1.uid, "E2");
}

#[test]
fn absence_matches_by_date_and_subject() {
    let pre = preprocess(
        vec![lesson("l1", "2025-09-10T08:00:00Z", Some("MATH"), None)],
        vec![],
        vec![],
        vec![absence("a1", "2025-09-10T08:00:00Z", "MATH")],
    );
    let (combined, _, _, ab_rem) = match_preprocessed_with_remainder(pre).unwrap();
    assert_eq!(combined[0].absence.as_ref().unwrap().uid, "a1");
    assert_eq!(ab_rem.len(), 0);
}

#[test]
fn each_entry_claimed_at_most_once() {
    // Two lessons with the same date and subject: only the first claims the
    // single homework entry.
    let pre = preprocess(
        vec![
            lesson("l1", "2025-09-10T08:00:00Z", Some("MATH"), None),
            lesson("l2", "2025-09-10T09:00:00Z", Some("MATH"), None),
        ],
        vec![homework("h1", "2025-09-10T10:00:00Z", "MATH")],
        vec![],
        vec![],
    );
    let (combined, hw_rem, _, _) = match_preprocessed_with_remainder(pre).unwrap();
    assert_eq!(combined.len(), 2);
    assert!(combined[0].homework.is_some());
    assert!(combined[1].homework.is_none());
    assert_eq!(hw_rem.len(), 0);
}

#[test]
fn merge_keeps_every_lesson_in_order() {
    let pre = preprocess(
        vec![
            lesson("l1", "2025-09-10T08:00:00Z", Some("MATH"), None),
            lesson("l2", "2025-09-10T09:00:00Z", None, None),
            lesson("l3", "2025-09-11T08:00:00Z", Some("PHYS"), None),
        ],
        vec![],
        vec![],
        vec![],
    );
    let combined = match_preprocessed(pre).unwrap();
    assert_eq!(combined.len(), 3);
    assert_eq!(combined[0].lesson_raw.uid, "l1");
    assert_eq!(combined[1].lesson_raw.uid, "l2");
    assert_eq!(combined[2].lesson_raw.uid, "l3");
}

#[test]
fn lesson_without_subject_matches_nothing() {
    let pre = preprocess(
        vec![lesson("l1", "2025-09-10T08:00:00Z", None, None)],
        vec![homework("h1", "2025-09-10T10:00:00Z", "MATH")],
        vec![],
        vec![],
    );
    let (combined, hw_rem, _, _) = match_preprocessed_with_remainder(pre).unwrap();
    assert!(combined[0].homework.is_none());
    assert_eq!(hw_rem.len(), 1);
}

#[test]
fn key_uses_local_calendar_date() {
    // 23:30 UTC is already the next day in the reference timezone, so the
    // homework's key differs from the morning lesson's and no match occurs.
    let pre = preprocess(
        vec![lesson("l1", "2025-09-10T08:00:00Z", Some("MATH"), None)],
        vec![homework("h1", "2025-09-10T23:30:00Z", "MATH")],
        vec![],
        vec![],
    );
    let (combined, hw_rem, _, _) = match_preprocessed_with_remainder(pre).unwrap();
    assert!(combined[0].homework.is_none());
    assert_eq!(hw_rem.len(), 1);
}

#[test]
fn colliding_keys_overwrite_last_write_wins() {
    // Two homework records with the same deadline date and subject collide
    // on the surrogate key; the later one silently replaces the earlier.
    let mut hw_index = KeyIndex::new();
    process_homework(
        &mut hw_index,
        vec![
            homework("h1", "2025-09-10T10:00:00Z", "MATH"),
            homework("h2", "2025-09-10T12:00:00Z", "MATH"),
        ],
    )
    .unwrap();
    assert_eq!(hw_index.len(), 1);
    assert_eq!(hw_index.entries()[0].1.uid, "h2");
}

#[test]
fn bad_lesson_start_fails_the_merge() {
    let pre = preprocess(
        vec![lesson("l1", "not a date", Some("MATH"), None)],
        vec![],
        vec![],
        vec![],
    );
    let err = match_preprocessed(pre).unwrap_err();
    assert_eq!(err.record_uid, "l1");
    assert_eq!(err.value, "not a date");
}

#[test]
fn bad_homework_deadline_fails_indexing() {
    let mut hw_index = KeyIndex::new();
    let err =
        process_homework(&mut hw_index, vec![homework("h1", "sometime", "MATH")]).unwrap_err();
    assert_eq!(err.record_uid, "h1");
    assert_eq!(err.value, "sometime");
    assert_eq!(hw_index.len(), 0);
}

#[test]
fn bad_absence_start_fails_indexing() {
    let mut ab_index = KeyIndex::new();
    let err =
        process_absences(&mut ab_index, vec![absence("a1", "sometime", "MATH")]).unwrap_err();
    assert_eq!(err.record_uid, "a1");
    assert_eq!(err.value, "sometime");
    assert_eq!(ab_index.len(), 0);
}

#[test]
fn surrogate_key_is_stable() {
    let t = Timestamp::parse("2025-09-10T08:00:00Z").unwrap();
    let again = Timestamp::parse("2025-09-10T11:00:00Z").unwrap();
    // Same local calendar date and subject: same key, whatever the time of
    // day; a different subject changes the key.
    assert_eq!(compute_surrogate_key(t, "MATH"), compute_surrogate_key(again, "MATH"));
    assert_ne!(compute_surrogate_key(t, "MATH"), compute_surrogate_key(t, "PHYS"));
}

#[test]
fn key_crosses_utc_midnight_in_summer() {
    // 22:30 UTC in July is already 00:30 the next day in the reference
    // timezone (summer offset), so a homework late that evening matches a
    // lesson held the next UTC day.
    let pre = preprocess(
        vec![lesson("l1", "2025-07-11T08:00:00Z", Some("MATH"), None)],
        vec![homework("h1", "2025-07-10T22:30:00Z", "MATH")],
        vec![],
        vec![],
    );
    let (combined, hw_rem, _, _) = match_preprocessed_with_remainder(pre).unwrap();
    assert_eq!(combined[0].homework.as_ref().unwrap().uid, "h1");
    assert_eq!(hw_rem.len(), 0);
}
