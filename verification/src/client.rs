//! The typed records the portal hands back, one module per record stream.
//! Fetching itself is an external concern; the library only holds the record
//! shapes its logic reads.

pub mod absences;
pub mod exam;
pub mod homework;
pub mod timetable;
