//! The absence records of the omissions stream.

use vstd::prelude::*;

use crate::client::timetable::{ClassGroupRaw, SubjectRaw, UidNameAndDescRaw};

verus! {

/// The lesson summary embedded in an absence record.
#[derive(Clone, Debug, PartialEq)]
pub struct LessonRaw {
    /// Start instant of the missed lesson, as a datetime string; the
    /// defining timestamp for week bucketing and for the surrogate join key.
    pub start_time: String,
    pub end_time: String,
    pub oraszam: i32,
}

#[derive(Clone, Debug, PartialEq)]
pub struct TypeRaw {
    pub name: String,
    pub category: UidNameAndDescRaw,
    pub uid: String,
}

/// One absence record.
#[derive(Clone, Debug, PartialEq)]
pub struct AbsenceRaw {
    pub date_of_creation: String,
    pub date: String,
    /// Minutes the student was late by; absent for a full-lesson absence.
    pub late_by_minutes: Option<u32>,
    pub class_group: ClassGroupRaw,
    /// Raw status code the classification rule reads.
    pub excuse_status: String,
    /// The excuse, where one was recorded; its description names the excuse
    /// category.
    pub excuse_type: Option<UidNameAndDescRaw>,
    pub lesson: LessonRaw,
    pub mode: UidNameAndDescRaw,
    pub subject: SubjectRaw,
    pub teachers_name: String,
    pub typ: UidNameAndDescRaw,
    pub uid: String,
}

} // verus!
