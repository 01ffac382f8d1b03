use chrono::{Datelike, TimeZone, Utc};
use kreta_core::by_week::{split_by_week, split_by_week_and_excuse};
use kreta_core::excuse::ExcuseType;
use kreta_core::client::absences::{AbsenceRaw, LessonRaw};
use kreta_core::client::timetable::{ClassGroupRaw, SubjectRaw, UidNameAndDescRaw};
use kreta_core::{last_september_first_expl, Timestamp, WeekNum};

fn ts(s: &str) -> Timestamp {
    let parsed: chrono::DateTime<Utc> = s.parse().unwrap();
    Timestamp::new(parsed.timestamp())
}

fn named(uid: &str) -> UidNameAndDescRaw {
    UidNameAndDescRaw {
        uid: uid.to_string(),
        name: uid.to_string(),
        desc: uid.to_string(),
    }
}

fn absence(uid: &str, start: &str) -> AbsenceRaw {
    AbsenceRaw {
        date_of_creation: start.to_string(),
        date: start.to_string(),
        late_by_minutes: None,
        class_group: ClassGroupRaw {
            uid: "cg".to_string(),
            name: "cg".to_string(),
        },
        excuse_status: "Igazolatlan".to_string(),
        excuse_type: None,
        lesson: LessonRaw {
            start_time: start.to_string(),
            end_time: start.to_string(),
            oraszam: 1,
        },
        mode: named("mode"),
        subject: SubjectRaw {
            uid: "MATH".to_string(),
            name: "math".to_string(),
        },
        teachers_name: "t".to_string(),
        typ: named("type"),
        uid: uid.to_string(),
    }
}

#[test]
fn test_weeknum() {
    let base: chrono::DateTime<Utc> = "2025-10-03T12:00:00Z".parse().unwrap();
    let sept_1 = last_september_first_expl(Timestamp::new(base.timestamp()));

    let iter = 0..500;
    let iter = iter.map(|n| base + chrono::Duration::days(n));

    for date in iter {
        let stamp = Timestamp::new(date.timestamp());
        let weeknum = WeekNum::from_date(stamp, sept_1);
        let (from, to) = weeknum.into_range_expl(sept_1);

        println!(
            "{} < {} < {}    <- this should be true",
            from.secs, stamp.secs, to.secs
        );
        assert!(!(stamp.secs < from.secs || stamp.secs > to.secs));
    }
}

#[test]
fn anchor_after_september_first() {
    let now = ts("2025-10-03T12:00:00Z");
    let anchor = last_september_first_expl(now);
    let expected = Utc.with_ymd_and_hms(2025, 9, 1, 0, 0, 0).unwrap().timestamp();
    assert_eq!(anchor.secs, expected);
}

#[test]
fn anchor_before_september_first() {
    let now = ts("2025-08-31T23:59:59Z");
    let anchor = last_september_first_expl(now);
    let expected = Utc.with_ymd_and_hms(2024, 9, 1, 0, 0, 0).unwrap().timestamp();
    assert_eq!(anchor.secs, expected);
}

#[test]
fn anchor_on_september_first() {
    let now = ts("2025-09-01T00:00:00Z");
    let anchor = last_september_first_expl(now);
    assert_eq!(anchor.secs, now.secs);
}

#[test]
fn week_zero_holds_the_anchor() {
    let anchor = ts("2025-09-01T00:00:00Z");
    let w = WeekNum::from_date(anchor, anchor);
    assert_eq!(w.take(), 0);
    // 2025-09-01 is a Monday, so week 0 starts exactly at the anchor.
    let (from, to) = w.into_range_expl(anchor);
    assert_eq!(from.secs, anchor.secs);
    assert_eq!(to.secs, anchor.secs + 7 * 86400 - 1);
}

#[test]
fn week_index_grows_weekly() {
    let anchor = ts("2025-09-01T00:00:00Z");
    assert_eq!(WeekNum::from_date(ts("2025-09-07T23:00:00Z"), anchor).take(), 0);
    assert_eq!(WeekNum::from_date(ts("2025-09-08T00:00:00Z"), anchor).take(), 1);
    assert_eq!(WeekNum::from_date(ts("2025-10-03T12:00:00Z"), anchor).take(), 4);
}

#[test]
fn week_index_clamps_before_anchor() {
    let anchor = ts("2025-09-01T00:00:00Z");
    // A date well before the anchor's week degrades to week 0.
    assert_eq!(WeekNum::from_date(ts("2025-07-01T00:00:00Z"), anchor).take(), 0);
}

#[test]
fn timestamp_parse_matches_chrono() {
    let parsed = Timestamp::parse("2025-10-03T12:00:00Z").unwrap();
    let reference: chrono::DateTime<Utc> = "2025-10-03T12:00:00Z".parse().unwrap();
    assert_eq!(parsed.secs, reference.timestamp());
    assert!(Timestamp::parse("not a date").is_none());
    assert!(Timestamp::parse("1950-01-01T00:00:00Z").is_none());
}

#[test]
fn split_by_week_groups_and_keeps_order() {
    let anchor = ts("2025-09-01T00:00:00Z");
    let records = vec![
        absence("a1", "2025-09-02T08:00:00Z"),
        absence("a2", "2025-09-10T08:00:00Z"),
        absence("a3", "2025-09-03T10:00:00Z"),
    ];
    let buckets = split_by_week(records, anchor).unwrap();
    assert_eq!(buckets.len(), 2);
    assert_eq!(buckets[0].0.take(), 0);
    assert_eq!(buckets[0].1.len(), 2);
    assert_eq!(buckets[0].1[0].uid, "a1");
    assert_eq!(buckets[0].1[1].uid, "a3");
    assert_eq!(buckets[1].0.take(), 1);
    assert_eq!(buckets[1].1.len(), 1);
    assert_eq!(buckets[1].1[0].uid, "a2");
}

#[test]
fn split_by_week_is_idempotent() {
    let anchor = ts("2025-09-01T00:00:00Z");
    let records = vec![
        absence("a1", "2025-09-02T08:00:00Z"),
        absence("a2", "2025-09-10T08:00:00Z"),
        absence("a3", "2025-09-03T10:00:00Z"),
    ];
    let first = split_by_week(records.clone(), anchor).unwrap();
    let second = split_by_week(records, anchor).unwrap();
    assert_eq!(first, second);
}

#[test]
fn split_by_week_reports_bad_timestamp() {
    let anchor = ts("2025-09-01T00:00:00Z");
    let records = vec![absence("good", "2025-09-02T08:00:00Z"), absence("bad", "whenever")];
    let err = split_by_week(records, anchor).unwrap_err();
    assert_eq!(err.record_uid, "bad");
    assert_eq!(err.value, "whenever");
}

#[test]
fn weekday_of_epoch_matches_calendar() {
    // Cross-check the library's weekday arithmetic against chrono over a
    // year of days.
    for n in 0..366 {
        let date = Utc.with_ymd_and_hms(2025, 1, 1, 0, 0, 0).unwrap() + chrono::Duration::days(n);
        let stamp = Timestamp::new(date.timestamp());
        assert_eq!(
            stamp.weekday_from_monday(),
            date.weekday().num_days_from_monday()
        );
    }
}

#[test]
fn split_by_week_and_excuse_groups_twice() {
    let anchor = ts("2025-09-01T00:00:00Z");
    let mut first_week_late = absence("a1", "2025-09-02T08:00:00Z");
    first_week_late.late_by_minutes = Some(15);
    let mut unknown = absence("a4", "2025-09-02T09:00:00Z");
    unknown.excuse_status = "Nonsense".to_string();
    let records = vec![
        first_week_late,
        absence("a2", "2025-09-10T08:00:00Z"),
        absence("a3", "2025-09-03T10:00:00Z"),
        unknown,
    ];
    let buckets = split_by_week_and_excuse(records, anchor).unwrap();
    // The unclassifiable record is dropped; two weeks remain.
    assert_eq!(buckets.len(), 2);
    assert_eq!(buckets[0].0.take(), 0);
    let week0 = buckets[0].1.get(&ExcuseType::Unexcused).unwrap();
    assert_eq!(week0.occurrances, 2);
    assert_eq!(week0.hours_q45, 15 + 45);
    assert_eq!(buckets[1].0.take(), 1);
    let week1 = buckets[1].1.get(&ExcuseType::Unexcused).unwrap();
    assert_eq!(week1.occurrances, 1);
}
