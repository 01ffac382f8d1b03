//! The homework records of the homework stream.

use vstd::prelude::*;

use crate::client::timetable::SubjectRaw;

verus! {

/// The class-group shape of the homework endpoint, which only carries a uid.
#[derive(Clone, Debug, PartialEq)]
pub struct ClassGroupRaw {
    pub uid: String,
}

/// One homework record.  Homework has no stable cross-record identifier
/// usable as a join key; the joiner derives a surrogate key from the
/// deadline date and the subject uid.
#[derive(Clone, Debug, PartialEq)]
pub struct HomeworkRaw {
    pub uid: String,
    pub subject: SubjectRaw,
    pub subject_name: String,
    pub teachers_name: String,
    pub text: String,
    pub date_assigned: String,
    /// Deadline instant, as a datetime string; the defining timestamp for
    /// the surrogate join key.
    pub date_deadline: String,
    pub date_registered: String,
    pub is_registered_by_teacher: bool,
    pub is_student_homework_enabled: bool,
    pub is_solved: bool,
    pub is_submittable: bool,
    pub is_attachment_enabled: bool,
    pub class_group: ClassGroupRaw,
}

} // verus!
