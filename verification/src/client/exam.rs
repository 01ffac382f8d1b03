//! The announced-exam records of the exam stream.

use vstd::prelude::*;

use crate::client::timetable::{ClassGroupRaw, SubjectRaw, UidNameAndDescRaw};

verus! {

/// One announced exam.  Its uid is stable and is used directly as the join
/// key; no surrogate key is needed.
#[derive(Clone, Debug, PartialEq)]
pub struct ExamRaw {
    pub uid: String,
    pub date: String,
    pub date_announced: String,
    pub teachers_name: String,
    /// Index of the lesson within its day.
    pub lesson_index_in_timetable: i32,
    pub subject: SubjectRaw,
    pub subject_name: String,
    pub topic: String,
    pub method: UidNameAndDescRaw,
    pub class_group: ClassGroupRaw,
}

} // verus!
