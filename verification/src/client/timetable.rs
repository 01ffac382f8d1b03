//! The lesson records of the timetable stream, and the small shared shapes
//! the other record streams reuse.

use vstd::prelude::*;

verus! {

/// A subject, identified by its stable uid.
#[derive(Clone, Debug, PartialEq)]
pub struct SubjectRaw {
    pub uid: String,
    pub name: String,
}

/// A reused shape: something with a uid, a display name and a description.
#[derive(Clone, Debug, PartialEq)]
pub struct UidNameAndDescRaw {
    pub uid: String,
    pub name: String,
    pub desc: String,
}

#[derive(Clone, Debug, PartialEq)]
pub struct ClassGroupRaw {
    pub uid: String,
    pub name: String,
}

#[derive(Clone, Debug, PartialEq)]
pub struct ClassRaw {
    pub uid: String,
    pub name: String,
    pub category: UidNameAndDescRaw,
    pub sort_index: i32,
}

/// One lesson of the timetable: the primary timeline entity.  Produced fresh
/// per fetch window, immutable afterwards, consumed once by the joiner.
#[derive(Clone, Debug, PartialEq)]
pub struct LessonRaw {
    pub uid: String,
    pub date: String,
    /// Start instant of the lesson, as a datetime string.
    pub start_time: String,
    pub end_time: String,
    pub name: String,
    pub oraszam: i32,
    pub class_group: ClassGroupRaw,
    pub teachers_name: Option<String>,
    /// The lesson's subject; a lesson without one matches nothing.
    pub subject: Option<SubjectRaw>,
    pub topic: Option<String>,
    pub room_name: Option<String>,
    pub student_presence: Option<UidNameAndDescRaw>,
    pub status: UidNameAndDescRaw,
    pub substitute_teacher_name: Option<String>,
    pub homework_uid: Option<String>,
    /// Stable identifier of an exam announced for this lesson, usable
    /// directly as a join key.
    pub announced_exam_uid: Option<String>,
}

} // verus!
