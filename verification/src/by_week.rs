//! Week numbering relative to the start of the school year.

use vstd::arithmetic::div_mod::{
    lemma_div_denominator, lemma_div_is_ordered, lemma_fundamental_div_mod,
    lemma_fundamental_div_mod_converse,
};
use vstd::prelude::*;

use crate::client::absences::AbsenceRaw;
use crate::combine::absence_parse_ok;
use crate::excuse::{
    classify_kind, record_q45, tally_bounded, tally_bump, tally_unique, AbsencesByExcuse,
    ExcuseKind, ExcuseType,
};
use crate::stamp::{
    anchor_in_window, shifted_day, stamp_parse, week_of, ParseError, Timestamp, DAY_SHIFT_SECS,
};

verus! {

/// Index of a school week: how many Monday-to-Sunday spans lie between the
/// week of the anchor (the most recent September 1st) and the week of a date.
/// Week 0 is the span containing the anchor itself.
pub open spec fn week_index(d: int, a: int) -> int {
    if week_of(d) >= week_of(a) {
        week_of(d) - week_of(a)
    } else {
        0
    }
}

/// First second (Monday 00:00:00) of the week with index `i` relative to the
/// anchor `a`.
pub open spec fn week_start(i: int, a: int) -> int {
    (week_of(a) + i) * 604800 - 10540800
}

/// Denotes which week a date is in, counted from the week that holds
/// September 1st; week 0 is the Monday-to-Sunday span containing the anchor.
#[derive(Copy, Clone, Debug, PartialEq, Eq, Structural)]
pub struct WeekNum(pub u32);

impl WeekNum {
    /// Week index of `date` relative to the anchor `sept_1`.
    ///
    /// A date that falls before the anchor's week cannot be given a
    /// meaningful index; such inputs degrade to week 0 rather than failing.
    pub fn from_date(date: Timestamp, sept_1: Timestamp) -> (r: WeekNum)
        requires
            anchor_in_window(date.secs as int),
            anchor_in_window(sept_1.secs as int),
        ensures
            r.0 == week_index(date.secs as int, sept_1.secs as int),
    {
        let wd = date.shifted_day_num() / 7;
        let wa = sept_1.shifted_day_num() / 7;
        if wd >= wa {
            WeekNum((wd - wa) as u32)
        } else {
            WeekNum(0)
        }
    }

    /// The Monday-to-Sunday span covered by this week index relative to the
    /// anchor `sept_1`: first second of the Monday and last second of the
    /// Sunday.
    pub fn into_range_expl(self, sept_1: Timestamp) -> (r: (Timestamp, Timestamp))
        requires
            anchor_in_window(sept_1.secs as int),
        ensures
            r.0.secs == week_start(self.0 as int, sept_1.secs as int),
            r.1.secs == week_start(self.0 as int, sept_1.secs as int) + 604799,
    {
        let wa = sept_1.shifted_day_num() / 7;
        let start: i64 = ((wa + self.0 as u64) * 604800) as i64 - DAY_SHIFT_SECS;
        (Timestamp { secs: start }, Timestamp { secs: start + 604799 })
    }

    pub fn take(self) -> (r: u32)
        ensures
            r == self.0,
    {
        self.0
    }
}

/// Shifted week numbers divide the shifted second count by one week.
proof fn lemma_week_of_as_div(s: int)
    requires
        -10540800 <= s,
    ensures
        week_of(s) == (s + 10540800) / 604800,
{
    lemma_div_denominator(s + 10540800, 86400, 7);
}

/// Round trip between `week_index` and the week's span: a date that is not
/// in degraded range (its week is at or after the anchor's week) has index
/// `i` exactly when it lies inside the span `week_start(i, a)` to
/// `week_start(i, a) + 604799`, the last second of that Sunday.
pub proof fn lemma_week_round_trip(d: int, a: int, i: int)
    requires
        anchor_in_window(d),
        anchor_in_window(a),
        week_of(d) >= week_of(a),
        0 <= i,
    ensures
        week_index(d, a) == i <==> (week_start(i, a) <= d <= week_start(i, a) + 604799),
{
    lemma_week_of_as_div(d);
    lemma_week_of_as_div(a);
    let x = d + 10540800;
    let q = week_of(a) + i;
    if week_index(d, a) == i {
        lemma_fundamental_div_mod(x, 604800);
        assert(x == 604800 * q + x % 604800);
    }
    if week_start(i, a) <= d <= week_start(i, a) + 604799 {
        lemma_fundamental_div_mod_converse(x, 604800, q, x - 604800 * q);
    }
}

// --- bucketing by week --------------------------------------------------------

/// The week index an absence record falls in relative to the anchor;
/// meaningful only when its lesson start parses.
pub open spec fn record_week(a: AbsenceRaw, anchor: int) -> int {
    week_index(stamp_parse(a.lesson.start_time@)->0, anchor)
}

/// A record appended to its week's bucket, keeping input order inside the
/// bucket; a week's bucket is created the first time a record falls in it.
pub open spec fn bucket_add(
    s: Seq<(int, Seq<AbsenceRaw>)>,
    w: int,
    a: AbsenceRaw,
) -> Seq<(int, Seq<AbsenceRaw>)>
    decreases s.len(),
{
    if s.len() == 0 {
        seq![(w, seq![a])]
    } else if s[0].0 == w {
        seq![(w, s[0].1.push(a))] + s.drop_first()
    } else {
        seq![s[0]] + bucket_add(s.drop_first(), w, a)
    }
}

/// The buckets after the first `n` records, weeks in first-appearance order.
pub open spec fn split_spec(s: Seq<AbsenceRaw>, anchor: int, n: int) -> Seq<
    (int, Seq<AbsenceRaw>),
>
    decreases n,
{
    if n <= 0 {
        Seq::empty()
    } else {
        bucket_add(split_spec(s, anchor, n - 1), record_week(s[n - 1], anchor), s[n - 1])
    }
}

/// The mathematical value of a bucket list: week indices with the record
/// sequences under them.
pub open spec fn buckets_view(v: Seq<(WeekNum, Vec<AbsenceRaw>)>) -> Seq<(int, Seq<AbsenceRaw>)> {
    v.map_values(|p: (WeekNum, Vec<AbsenceRaw>)| (p.0.0 as int, p.1@))
}

proof fn lemma_bucket_add_found(s: Seq<(int, Seq<AbsenceRaw>)>, w: int, a: AbsenceRaw, i: int)
    requires
        0 <= i < s.len(),
        s[i].0 == w,
        forall|j: int| 0 <= j < i ==> s[j].0 != w,
    ensures
        bucket_add(s, w, a) =~= s.update(i, (w, s[i].1.push(a))),
    decreases i,
{
    if i == 0 {
        assert(seq![(w, s[0].1.push(a))] + s.drop_first() =~= s.update(0, (w, s[0].1.push(a))));
    } else {
        lemma_bucket_add_found(s.drop_first(), w, a, i - 1);
        assert(seq![s[0]] + s.drop_first().update(i - 1, (w, s[i].1.push(a))) =~= s.update(
            i,
            (w, s[i].1.push(a)),
        ));
    }
}

proof fn lemma_bucket_add_absent(s: Seq<(int, Seq<AbsenceRaw>)>, w: int, a: AbsenceRaw)
    requires
        forall|j: int| 0 <= j < s.len() ==> s[j].0 != w,
    ensures
        bucket_add(s, w, a) =~= s.push((w, seq![a])),
    decreases s.len(),
{
    if s.len() > 0 {
        lemma_bucket_add_absent(s.drop_first(), w, a);
        assert(seq![s[0]] + s.drop_first().push((w, seq![a])) =~= s.push((w, seq![a])));
    }
}

/// No two buckets cover the same week.
pub open spec fn buckets_unique(s: Seq<(int, Seq<AbsenceRaw>)>) -> bool {
    forall|i: int, j: int| 0 <= i < j < s.len() ==> s[i].0 != s[j].0
}

/// Groups records into per-week buckets relative to the anchor `sept_1`,
/// preserving input order inside each bucket and creating buckets lazily: a
/// week with no record has no entry.  A record whose lesson start cannot be
/// read fails the whole call, with the offending record named.
#[verifier::loop_isolation(false)]
pub fn split_by_week(records: Vec<AbsenceRaw>, sept_1: Timestamp) -> (r: Result<
    Vec<(WeekNum, Vec<AbsenceRaw>)>,
    ParseError,
>)
    requires
        anchor_in_window(sept_1.secs as int),
    ensures
        r is Ok <==> (forall|i: int|
            0 <= i < records@.len() ==> absence_parse_ok(#[trigger] records@[i])),
        r matches Ok(b) ==> buckets_view(b@) == split_spec(
            records@,
            sept_1.secs as int,
            records@.len() as int,
        ) && buckets_unique(buckets_view(b@)),
        r matches Err(e) ==> exists|i: int|
            0 <= i < records@.len() && !absence_parse_ok(#[trigger] records@[i]) && e.value
                == records@[i].lesson.start_time && e.record_uid == records@[i].uid,
{
    let ghost rec0 = records@;
    let mut records = records;
    let mut buckets: Vec<(WeekNum, Vec<AbsenceRaw>)> = Vec::new();
    let n = records.len();
    let mut i: usize = 0;
    while i < n
        invariant
            i <= n,
            records@ == rec0.subrange(i as int, n as int),
            forall|j: int| 0 <= j < i ==> absence_parse_ok(#[trigger] rec0[j]),
            buckets_view(buckets@) == split_spec(rec0, sept_1.secs as int, i as int),
            buckets_unique(buckets_view(buckets@)),
            buckets@.len() <= i,
        decreases n - i,
    {
        let a = records.remove(0);
        proof {
            assert(a == rec0[i as int]);
        }
        let t = match Timestamp::parse(a.lesson.start_time.as_str()) {
            Some(t) => t,
            None => {
                proof {
                    assert(!absence_parse_ok(rec0[i as int]));
                }
                return Err(ParseError { record_uid: a.uid.clone(), value: a.lesson.start_time });
            },
        };
        let w = WeekNum::from_date(t, sept_1);
        let ghost before = buckets_view(buckets@);
        let ghost wv = record_week(rec0[i as int], sept_1.secs as int);
        proof {
            assert(w.0 as int == wv);
        }
        let m = buckets.len();
        let mut k: usize = 0;
        let mut idx: usize = m;
        while k < m
            invariant
                k <= m,
                m == buckets@.len(),
                idx == m || (idx < m && before[idx as int].0 == wv),
                idx == m ==> forall|j: int| 0 <= j < k ==> before[j].0 != wv,
                idx < m ==> forall|j: int| 0 <= j < idx ==> before[j].0 != wv,
            decreases m - k,
        {
            if idx == m && buckets[k].0.take() == w.take() {
                proof {
                    assert(before[k as int].0 == wv);
                }
                idx = k;
            }
            k += 1;
        }
        if idx < m {
            proof {
                lemma_bucket_add_found(before, wv, rec0[i as int], idx as int);
            }
            let entry = &mut buckets[idx];
            entry.1.push(a);
            proof {
                assert(buckets_view(buckets@) =~= bucket_add(before, wv, rec0[i as int]));
            }
        } else {
            proof {
                assert(forall|j: int| 0 <= j < before.len() ==> before[j].0 != wv);
                lemma_bucket_add_absent(before, wv, rec0[i as int]);
            }
            let mut fresh: Vec<AbsenceRaw> = Vec::new();
            fresh.push(a);
            buckets.push((w, fresh));
            proof {
                assert(buckets_view(buckets@) =~= bucket_add(before, wv, rec0[i as int]));
            }
        }
        proof {
            let after = bucket_add(before, wv, rec0[i as int]);
            assert forall|x: int, y: int| 0 <= x < y < after.len() implies after[x].0
                != after[y].0 by {
                lemma_bucket_add_keys(before, wv, rec0[i as int], x);
                lemma_bucket_add_keys(before, wv, rec0[i as int], y);
            }
        }
        i += 1;
        proof {
            assert(records@ =~= rec0.subrange(i as int, n as int));
        }
    }
    proof {
        assert(rec0.subrange(0, n as int) =~= rec0);
    }
    Ok(buckets)
}

/// A bucket list after an addition holds the same weeks, except that the
/// added week may be new.
proof fn lemma_bucket_add_keys(s: Seq<(int, Seq<AbsenceRaw>)>, w: int, a: AbsenceRaw, i: int)
    requires
        0 <= i < bucket_add(s, w, a).len(),
        buckets_unique(s),
    ensures
        bucket_add(s, w, a).len() >= s.len(),
        i < s.len() ==> bucket_add(s, w, a)[i].0 == s[i].0,
        i >= s.len() ==> bucket_add(s, w, a)[i].0 == w && (forall|j: int|
            0 <= j < s.len() ==> s[j].0 != w),
    decreases s.len(),
{
    if s.len() == 0 {
    } else if s[0].0 == w {
    } else {
        assert(buckets_unique(s.drop_first()));
        let r = bucket_add(s, w, a);
        let rest = bucket_add(s.drop_first(), w, a);
        assert(r =~= seq![s[0]] + rest);
        lemma_bucket_add_keys(s.drop_first(), w, a, 0);
        if i > 0 {
            lemma_bucket_add_keys(s.drop_first(), w, a, i - 1);
            assert(r[i].0 == rest[i - 1].0);
            if i >= s.len() {
                assert forall|j: int| 0 <= j < s.len() implies s[j].0 != w by {
                    if j > 0 {
                        assert(s.drop_first()[j - 1].0 != w);
                    }
                }
            }
        }
    }
}

// --- bucketing by week and excuse category -------------------------------------

/// Per-week buckets whose values are per-category aggregates.
pub type AbsencesByWeekAndExcuse = Vec<(WeekNum, AbsencesByExcuse)>;

/// A classified record accumulated into its week's category tally; a week's
/// entry is created the first time a classified record falls in it.
pub open spec fn wsplit_add(
    s: Seq<(int, Seq<(ExcuseKind, (int, int))>)>,
    w: int,
    k: ExcuseKind,
    m: int,
) -> Seq<(int, Seq<(ExcuseKind, (int, int))>)>
    decreases s.len(),
{
    if s.len() == 0 {
        seq![(w, tally_bump(Seq::empty(), k, m))]
    } else if s[0].0 == w {
        seq![(w, tally_bump(s[0].1, k, m))] + s.drop_first()
    } else {
        seq![s[0]] + wsplit_add(s.drop_first(), w, k, m)
    }
}

/// The two-level grouping after the first `n` records: first by week, then
/// by category, accumulated in one pass.  A record that fails classification
/// is excluded, as in the flat aggregation, and creates no bucket.
pub open spec fn wsplit_spec(s: Seq<AbsenceRaw>, anchor: int, n: int) -> Seq<
    (int, Seq<(ExcuseKind, (int, int))>),
>
    decreases n,
{
    if n <= 0 {
        Seq::empty()
    } else {
        match classify_kind(s[n - 1]) {
            Some(k) => wsplit_add(
                wsplit_spec(s, anchor, n - 1),
                record_week(s[n - 1], anchor),
                k,
                record_q45(s[n - 1]),
            ),
            None => wsplit_spec(s, anchor, n - 1),
        }
    }
}

/// The mathematical value of a week-and-category bucket list.
pub open spec fn wbuckets_view(v: Seq<(WeekNum, AbsencesByExcuse)>) -> Seq<
    (int, Seq<(ExcuseKind, (int, int))>),
> {
    v.map_values(|p: (WeekNum, AbsencesByExcuse)| (p.0.0 as int, p.1@))
}

/// No two buckets cover the same week.
pub open spec fn wbuckets_unique(s: Seq<(int, Seq<(ExcuseKind, (int, int))>)>) -> bool {
    forall|i: int, j: int| 0 <= i < j < s.len() ==> s[i].0 != s[j].0
}

proof fn lemma_wsplit_add_found(
    s: Seq<(int, Seq<(ExcuseKind, (int, int))>)>,
    w: int,
    k: ExcuseKind,
    m: int,
    i: int,
)
    requires
        0 <= i < s.len(),
        s[i].0 == w,
        forall|j: int| 0 <= j < i ==> s[j].0 != w,
    ensures
        wsplit_add(s, w, k, m) =~= s.update(i, (w, tally_bump(s[i].1, k, m))),
    decreases i,
{
    if i == 0 {
        assert(seq![(w, tally_bump(s[0].1, k, m))] + s.drop_first() =~= s.update(
            0,
            (w, tally_bump(s[0].1, k, m)),
        ));
    } else {
        lemma_wsplit_add_found(s.drop_first(), w, k, m, i - 1);
        assert(seq![s[0]] + s.drop_first().update(i - 1, (w, tally_bump(s[i].1, k, m)))
            =~= s.update(i, (w, tally_bump(s[i].1, k, m))));
    }
}

proof fn lemma_wsplit_add_absent(
    s: Seq<(int, Seq<(ExcuseKind, (int, int))>)>,
    w: int,
    k: ExcuseKind,
    m: int,
)
    requires
        forall|j: int| 0 <= j < s.len() ==> s[j].0 != w,
    ensures
        wsplit_add(s, w, k, m) =~= s.push((w, tally_bump(Seq::empty(), k, m))),
    decreases s.len(),
{
    if s.len() > 0 {
        lemma_wsplit_add_absent(s.drop_first(), w, k, m);
        assert(seq![s[0]] + s.drop_first().push((w, tally_bump(Seq::empty(), k, m))) =~= s.push(
            (w, tally_bump(Seq::empty(), k, m)),
        ));
    }
}

/// Groups records first by week, then by excuse category, accumulating
/// counts and durations in one pass.  A record whose lesson start cannot be
/// read fails the whole call; a record that fails classification is merely
/// excluded, as in the flat aggregation.
#[verifier::loop_isolation(false)]
#[verifier::rlimit(60)]
pub fn split_by_week_and_excuse(records: Vec<AbsenceRaw>, sept_1: Timestamp) -> (r: Result<
    AbsencesByWeekAndExcuse,
    ParseError,
>)
    requires
        anchor_in_window(sept_1.secs as int),
        records@.len() <= 0x4000_0000,
    ensures
        r is Ok <==> (forall|i: int|
            0 <= i < records@.len() ==> absence_parse_ok(#[trigger] records@[i])),
        r matches Ok(b) ==> wbuckets_view(b@) == wsplit_spec(
            records@,
            sept_1.secs as int,
            records@.len() as int,
        ) && wbuckets_unique(wbuckets_view(b@)),
        r matches Err(e) ==> exists|i: int|
            0 <= i < records@.len() && !absence_parse_ok(#[trigger] records@[i]) && e.value
                == records@[i].lesson.start_time && e.record_uid == records@[i].uid,
{
    let ghost rec0 = records@;
    let mut records = records;
    let mut buckets: AbsencesByWeekAndExcuse = Vec::new();
    let n = records.len();
    let mut i: usize = 0;
    while i < n
        invariant
            i <= n,
            records@ == rec0.subrange(i as int, n as int),
            forall|j: int| 0 <= j < i ==> absence_parse_ok(#[trigger] rec0[j]),
            wbuckets_view(buckets@) == wsplit_spec(rec0, sept_1.secs as int, i as int),
            wbuckets_unique(wbuckets_view(buckets@)),
            buckets@.len() <= i,
            forall|j: int|
                0 <= j < buckets@.len() ==> tally_unique(#[trigger] wbuckets_view(buckets@)[j].1)
                    && tally_bounded(wbuckets_view(buckets@)[j].1, i as int) && wbuckets_view(
                    buckets@,
                )[j].1.len() <= i,
        decreases n - i,
    {
        let a = records.remove(0);
        proof {
            assert(a == rec0[i as int]);
        }
        let t = match Timestamp::parse(a.lesson.start_time.as_str()) {
            Some(t) => t,
            None => {
                proof {
                    assert(!absence_parse_ok(rec0[i as int]));
                }
                return Err(ParseError { record_uid: a.uid.clone(), value: a.lesson.start_time });
            },
        };
        let w = WeekNum::from_date(t, sept_1);
        let ghost before = wbuckets_view(buckets@);
        let ghost wv = record_week(rec0[i as int], sept_1.secs as int);
        proof {
            assert(w.0 as int == wv);
        }
        match ExcuseType::derive_from(&a) {
            Ok(key) => {
                let ghost kv = key@;
                let m: u64 = match a.late_by_minutes {
                    Some(m) => m as u64,
                    None => 45,
                };
                proof {
                    assert(Some(kv) == classify_kind(rec0[i as int]));
                    assert(m as int == record_q45(rec0[i as int]));
                }
                let nb = buckets.len();
                let mut sc: usize = 0;
                let mut idx: usize = nb;
                while sc < nb
                    invariant
                        sc <= nb,
                        nb == buckets@.len(),
                        idx == nb || (idx < nb && before[idx as int].0 == wv),
                        idx == nb ==> forall|j: int| 0 <= j < sc ==> before[j].0 != wv,
                        idx < nb ==> forall|j: int| 0 <= j < idx ==> before[j].0 != wv,
                    decreases nb - sc,
                {
                    if idx == nb && buckets[sc].0.take() == w.take() {
                        proof {
                            assert(before[sc as int].0 == wv);
                        }
                        idx = sc;
                    }
                    sc += 1;
                }
                if idx < nb {
                    proof {
                        lemma_wsplit_add_found(before, wv, kv, m as int, idx as int);
                        crate::excuse::lemma_tally_bump_props(
                            before[idx as int].1,
                            kv,
                            m as int,
                            i as int,
                        );
                        crate::excuse::lemma_tally_bump_len(before[idx as int].1, kv, m as int);
                        assert(before[idx as int].1.len() < usize::MAX);
                    }
                    let entry = &mut buckets[idx];
                    entry.1.bump(key, m);
                    proof {
                        assert(wbuckets_view(buckets@) =~= wsplit_add(before, wv, kv, m as int));
                    }
                } else {
                    proof {
                        assert(forall|j: int| 0 <= j < before.len() ==> before[j].0 != wv);
                        lemma_wsplit_add_absent(before, wv, kv, m as int);
                        crate::excuse::lemma_tally_bump_props(
                            Seq::<(ExcuseKind, (int, int))>::empty(),
                            kv,
                            m as int,
                            i as int,
                        );
                        crate::excuse::lemma_tally_bump_len(
                            Seq::<(ExcuseKind, (int, int))>::empty(),
                            kv,
                            m as int,
                        );
                    }
                    let mut fresh = AbsencesByExcuse::new();
                    fresh.bump(key, m);
                    buckets.push((w, fresh));
                    proof {
                        assert(wbuckets_view(buckets@) =~= wsplit_add(before, wv, kv, m as int));
                    }
                }
                proof {
                    let after = wsplit_add(before, wv, kv, m as int);
                    assert forall|x: int, y: int| 0 <= x < y < after.len() implies after[x].0
                        != after[y].0 by {
                        lemma_wsplit_add_keys(before, wv, kv, m as int, x);
                        lemma_wsplit_add_keys(before, wv, kv, m as int, y);
                    }
                    assert forall|j: int|
                        0 <= j < after.len() implies tally_unique(#[trigger] after[j].1)
                        && tally_bounded(after[j].1, i as int + 1) && after[j].1.len() <= i
                        + 1 by {
                        lemma_wsplit_add_keys(before, wv, kv, m as int, j);
                        if j < before.len() && after[j].1 != tally_bump(
                            before[j].1,
                            kv,
                            m as int,
                        ) {
                            lemma_tally_bounded_grow_week(before[j].1, i as int);
                        }
                        if j < before.len() && before[j].0 != wv {
                            lemma_tally_bounded_grow_week(before[j].1, i as int);
                        }
                    }
                }
            },
            Err(_) => {
                proof {
                    assert(classify_kind(rec0[i as int]) is None);
                    assert forall|j: int|
                        0 <= j < buckets@.len() implies tally_unique(
                        #[trigger] wbuckets_view(buckets@)[j].1,
                    ) && tally_bounded(wbuckets_view(buckets@)[j].1, i as int + 1) && wbuckets_view(
                        buckets@,
                    )[j].1.len() <= i + 1 by {
                        lemma_tally_bounded_grow_week(wbuckets_view(buckets@)[j].1, i as int);
                    }
                }
            },
        }
        i += 1;
        proof {
            assert(records@ =~= rec0.subrange(i as int, n as int));
        }
    }
    proof {
        assert(rec0.subrange(0, n as int) =~= rec0);
    }
    Ok(buckets)
}

/// A tally within the bounds for `n` records is within them for `n + 1`.
proof fn lemma_tally_bounded_grow_week(s: Seq<(ExcuseKind, (int, int))>, n: int)
    requires
        0 <= n,
        tally_bounded(s, n),
    ensures
        tally_bounded(s, n + 1),
{
    assert forall|i: int| 0 <= i < s.len() implies 0 <= (#[trigger] s[i]).1.0 <= n + 1 && 0
        <= s[i].1.1 <= (n + 1) * 4294967340 by {
        assert(s[i].1.1 <= n * 4294967340);
        assert(n * 4294967340 <= (n + 1) * 4294967340) by (nonlinear_arith)
            requires 0 <= n;
    }
}

/// A week bucket list after an accumulation holds the same weeks, except
/// that the accumulated week may be new, and only that week's tally changed.
proof fn lemma_wsplit_add_keys(
    s: Seq<(int, Seq<(ExcuseKind, (int, int))>)>,
    w: int,
    k: ExcuseKind,
    m: int,
    i: int,
)
    requires
        0 <= i < wsplit_add(s, w, k, m).len(),
        wbuckets_unique(s),
    ensures
        wsplit_add(s, w, k, m).len() >= s.len(),
        i < s.len() ==> wsplit_add(s, w, k, m)[i].0 == s[i].0 && (wsplit_add(s, w, k, m)[i].1
            == s[i].1 || wsplit_add(s, w, k, m)[i].1 == tally_bump(s[i].1, k, m)),
        i >= s.len() ==> wsplit_add(s, w, k, m)[i].0 == w && wsplit_add(s, w, k, m)[i].1
            == tally_bump(Seq::empty(), k, m) && (forall|j: int|
            0 <= j < s.len() ==> s[j].0 != w),
    decreases s.len(),
{
    if s.len() == 0 {
    } else if s[0].0 == w {
    } else {
        assert(wbuckets_unique(s.drop_first()));
        let r = wsplit_add(s, w, k, m);
        let rest = wsplit_add(s.drop_first(), w, k, m);
        assert(r =~= seq![s[0]] + rest);
        lemma_wsplit_add_keys(s.drop_first(), w, k, m, 0);
        if i > 0 {
            lemma_wsplit_add_keys(s.drop_first(), w, k, m, i - 1);
            assert(r[i] == rest[i - 1]);
            if i >= s.len() {
                assert forall|j: int| 0 <= j < s.len() implies s[j].0 != w by {
                    if j > 0 {
                        assert(s.drop_first()[j - 1].0 != w);
                    }
                }
            }
        }
    }
}

/// The week index never decreases as the date grows: later instants fall in
/// the same or a later week.
pub proof fn lemma_week_index_monotone(d1: int, d2: int, a: int)
    requires
        anchor_in_window(d1),
        anchor_in_window(d2),
        d1 <= d2,
    ensures
        week_index(d1, a) <= week_index(d2, a),
{
    lemma_div_is_ordered(d1 + 10540800, d2 + 10540800, 86400);
    lemma_div_is_ordered(shifted_day(d1), shifted_day(d2), 7);
}

/// Bucketing idempotence: the buckets are a function of the records and the
/// anchor alone, so splitting the same record list twice yields identical
/// bucket contents and identical per-bucket ordering.
pub proof fn lemma_bucketing_idempotent(
    r1: Seq<(int, Seq<AbsenceRaw>)>,
    r2: Seq<(int, Seq<AbsenceRaw>)>,
    records: Seq<AbsenceRaw>,
    anchor: int,
)
    requires
        r1 == split_spec(records, anchor, records.len() as int),
        r2 == split_spec(records, anchor, records.len() as int),
    ensures
        r1 == r2,
{
}

} // verus!
