use kreta_core::client::absences::{AbsenceRaw, LessonRaw};
use kreta_core::client::timetable::{ClassGroupRaw, SubjectRaw, UidNameAndDescRaw};
use kreta_core::excuse::absences_by_excuse_type;
use kreta_core::forecast::{
    extract_unexcused_forecast, forecast_value, months_since_september_first, ForecastError,
};
use kreta_core::Timestamp;

fn absence(uid: &str, status: &str, excuse_desc: Option<&str>, late: Option<u32>) -> AbsenceRaw {
    AbsenceRaw {
        date_of_creation: "2025-09-10T08:00:00Z".to_string(),
        date: "2025-09-10T08:00:00Z".to_string(),
        late_by_minutes: late,
        class_group: ClassGroupRaw {
            uid: "cg".to_string(),
            name: "cg".to_string(),
        },
        excuse_status: status.to_string(),
        excuse_type: excuse_desc.map(|d| UidNameAndDescRaw {
            uid: "ex".to_string(),
            name: "ex".to_string(),
            desc: d.to_string(),
        }),
        lesson: LessonRaw {
            start_time: "2025-09-10T08:00:00Z".to_string(),
            end_time: "2025-09-10T08:45:00Z".to_string(),
            oraszam: 1,
        },
        mode: UidNameAndDescRaw {
            uid: "m".to_string(),
            name: "m".to_string(),
            desc: "m".to_string(),
        },
        subject: SubjectRaw {
            uid: "MATH".to_string(),
            name: "math".to_string(),
        },
        teachers_name: "teacher".to_string(),
        typ: UidNameAndDescRaw {
            uid: "t".to_string(),
            name: "t".to_string(),
            desc: "t".to_string(),
        },
        uid: uid.to_string(),
    }
}

#[test]
fn months_elapsed_exact_value() {
    // 30 whole days after the anchor: 30 / 30.436875 months = 0.985...,
    // i.e. 985 thousandths after truncation.
    let now = Timestamp::parse("2025-10-01T00:00:00Z").unwrap();
    assert_eq!(months_since_september_first(now), 985);
}

#[test]
fn forecast_value_exact_value() {
    // One nominal lesson-hour (45 units) observed over 30 days projects to
    // 45 * 102809 / (16 * 30) = 9638 thousandths of an hour.
    let now = Timestamp::parse("2025-10-01T00:00:00Z").unwrap();
    assert_eq!(forecast_value(45, now), Ok(9638));
}

#[test]
fn forecast_on_anchor_day_is_division_by_zero() {
    let now = Timestamp::parse("2025-09-01T12:00:00Z").unwrap();
    assert_eq!(forecast_value(45, now), Err(ForecastError::DivisionByZero));
}

#[test]
fn forecast_none_without_unexcused() {
    let now = Timestamp::parse("2025-10-01T00:00:00Z").unwrap();
    let records = vec![absence("a", "Igazolt", Some("orvosi"), None)];
    let agg = absences_by_excuse_type(&records);
    assert!(extract_unexcused_forecast(&agg, now).is_none());
}

#[test]
fn forecast_including_pending_is_at_least_excluding() {
    // With a positive to-be-excused duration the projection including it is
    // strictly above the one excluding it.
    let now = Timestamp::parse("2025-10-01T00:00:00Z").unwrap();
    let records = vec![
        absence("a", "Igazolatlan", None, None),
        absence("b", "Igazolando", None, None),
    ];
    let agg = absences_by_excuse_type(&records);
    let f = extract_unexcused_forecast(&agg, now).unwrap();
    assert!(f.with_to_be_excused >= f.only_unexcused);
    assert!(f.with_to_be_excused > f.only_unexcused);
    // Both projections are exact: 45 and 90 units over 30 days.
    assert_eq!(f.only_unexcused, 45 * 102809 / (16 * 30));
    assert_eq!(f.with_to_be_excused, 90 * 102809 / (16 * 30));
}

#[test]
fn forecast_without_pending_uses_unexcused_alone() {
    let now = Timestamp::parse("2025-10-01T00:00:00Z").unwrap();
    let records = vec![absence("a", "Igazolatlan", None, None)];
    let agg = absences_by_excuse_type(&records);
    let f = extract_unexcused_forecast(&agg, now).unwrap();
    assert_eq!(f.only_unexcused, f.with_to_be_excused);
}
