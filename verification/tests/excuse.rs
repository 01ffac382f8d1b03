use kreta_core::client::absences::{AbsenceRaw, LessonRaw};
use kreta_core::client::timetable::{ClassGroupRaw, SubjectRaw, UidNameAndDescRaw};
use kreta_core::excuse::{
    absences_by_excuse_type, absences_by_excuse_type_opt, AbsenceDetails, ClassificationError,
    ExcuseType,
};

fn named(uid: &str) -> UidNameAndDescRaw {
    UidNameAndDescRaw {
        uid: uid.to_string(),
        name: uid.to_string(),
        desc: uid.to_string(),
    }
}

fn absence(uid: &str, status: &str, excuse_desc: Option<&str>, late: Option<u32>) -> AbsenceRaw {
    AbsenceRaw {
        date_of_creation: "2025-09-10T08:00:00Z".to_string(),
        date: "2025-09-10T08:00:00Z".to_string(),
        late_by_minutes: late,
        class_group: ClassGroupRaw {
            uid: "cg".to_string(),
            name: "cg".to_string(),
        },
        excuse_status: status.to_string(),
        excuse_type: excuse_desc.map(|d| UidNameAndDescRaw {
            uid: "ex".to_string(),
            name: "ex".to_string(),
            desc: d.to_string(),
        }),
        lesson: LessonRaw {
            start_time: "2025-09-10T08:00:00Z".to_string(),
            end_time: "2025-09-10T08:45:00Z".to_string(),
            oraszam: 1,
        },
        mode: named("mode"),
        subject: SubjectRaw {
            uid: "MATH".to_string(),
            name: "math".to_string(),
        },
        teachers_name: "teacher".to_string(),
        typ: named("type"),
        uid: uid.to_string(),
    }
}

#[test]
fn classify_fixed_codes() {
    let a = absence("a", "Igazolando", None, None);
    assert_eq!(ExcuseType::derive_from(&a), Ok(ExcuseType::ToBeExcused));
    let b = absence("b", "Igazolatlan", None, None);
    assert_eq!(ExcuseType::derive_from(&b), Ok(ExcuseType::Unexcused));
    let c = absence("c", "Igazolt", Some("orvosi"), None);
    assert_eq!(
        ExcuseType::derive_from(&c),
        Ok(ExcuseType::Excused("orvosi".to_string()))
    );
}

#[test]
fn classify_missing_description_fails() {
    // "Igazolt" needs the descriptive excuse type to be present.
    let a = absence("a", "Igazolt", None, None);
    assert_eq!(
        ExcuseType::derive_from(&a),
        Err(ClassificationError::MissingDescription)
    );
}

#[test]
fn classify_unknown_status_fails() {
    let a = absence("a", "Whatever", None, None);
    assert_eq!(
        ExcuseType::derive_from(&a),
        Err(ClassificationError::UnknownStatus("Whatever".to_string()))
    );
}

#[test]
fn aggregate_excludes_unclassifiable_without_failing() {
    // A record that fails classification is left out of the totals, and the
    // call still succeeds for the rest.
    let records = vec![
        absence("a", "Igazolt", None, None),
        absence("b", "Igazolatlan", None, None),
        absence("c", "Igazolatlan", None, None),
    ];
    let agg = absences_by_excuse_type(&records);
    let entries = agg.entries();
    assert_eq!(entries.len(), 1);
    assert_eq!(entries[0].0, ExcuseType::Unexcused);
    assert_eq!(entries[0].1.occurrances, 2);
}

#[test]
fn aggregate_totals_count_classified_records() {
    let records = vec![
        absence("a", "Igazolando", None, None),
        absence("b", "Igazolatlan", None, None),
        absence("c", "Igazolt", Some("orvosi"), None),
        absence("d", "Nonsense", None, None),
    ];
    let agg = absences_by_excuse_type(&records);
    let total: u64 = agg.entries().iter().map(|e| e.1.occurrances).sum();
    assert_eq!(total, 3);
}

#[test]
fn aggregate_duration_rule() {
    // An explicit lateness contributes its minutes; a record without one
    // contributes one nominal 45-minute lesson.
    let records = vec![
        absence("a", "Igazolatlan", None, Some(30)),
        absence("b", "Igazolatlan", None, None),
    ];
    let agg = absences_by_excuse_type(&records);
    let details = agg.get(&ExcuseType::Unexcused).unwrap();
    assert_eq!(details.occurrances, 2);
    assert_eq!(details.hours_q45, 30 + 45);
}

#[test]
fn aggregate_separates_excuse_descriptions() {
    // Two excused records map to the same category only when their
    // descriptions agree.
    let records = vec![
        absence("a", "Igazolt", Some("orvosi"), None),
        absence("b", "Igazolt", Some("orvosi"), None),
        absence("c", "Igazolt", Some("szuloi"), None),
    ];
    let agg = absences_by_excuse_type(&records);
    assert_eq!(agg.entries().len(), 2);
    let orvosi = agg.get(&ExcuseType::Excused("orvosi".to_string())).unwrap();
    assert_eq!(orvosi.occurrances, 2);
    let szuloi = agg.get(&ExcuseType::Excused("szuloi".to_string())).unwrap();
    assert_eq!(szuloi.occurrances, 1);
}

#[test]
fn aggregate_opt_keeps_failures_visible() {
    let records = vec![
        absence("a", "Igazolt", None, Some(10)),
        absence("b", "Igazolatlan", None, None),
    ];
    let agg = absences_by_excuse_type_opt(&records);
    assert_eq!(agg.entries().len(), 2);
    let unclassified = agg.get(&None).unwrap();
    assert_eq!(
        unclassified,
        AbsenceDetails {
            occurrances: 1,
            hours_q45: 10,
        }
    );
    let unexcused = agg.get(&Some(ExcuseType::Unexcused)).unwrap();
    assert_eq!(unexcused.occurrances, 1);
    // Every record lands somewhere in the visible-failures aggregate.
    let total: u64 = agg.entries().iter().map(|e| e.1.occurrances).sum();
    assert_eq!(total, 2);
}

#[test]
fn category_key_equality() {
    assert!(ExcuseType::Unexcused.key_eq(&ExcuseType::Unexcused));
    assert!(!ExcuseType::Unexcused.key_eq(&ExcuseType::ToBeExcused));
    assert!(
        ExcuseType::Excused("a".to_string()).key_eq(&ExcuseType::Excused("a".to_string()))
    );
    assert!(
        !ExcuseType::Excused("a".to_string()).key_eq(&ExcuseType::Excused("b".to_string()))
    );
}
