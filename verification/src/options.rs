//! The one immutable configuration value of the calendar rendering layer,
//! the extra per-lesson data handed to it, and the escaping rule for
//! calendar description text.

use vstd::prelude::*;
use vstd::string::{StrSliceExecFns, StringExecFns};

use crate::client::exam::ExamRaw;
use crate::client::homework::HomeworkRaw;

verus! {

/// Rendering options, passed explicitly to every formatting call; no hidden
/// global default.
#[derive(Clone, Debug)]
pub struct Options {
    pub lowercase_subject_names: bool,
    pub lesson_topic_in_name: bool,
    pub teacher_name_in_location: bool,
    /// Prefix marking a substituted lesson.
    pub substitution_prefix: String,
    /// Prefix marking a cancelled lesson.
    pub cancelled_lesson_preifx: String,
    /// Prefix marking an announced exam.
    pub announced_exam_prefix: String,
    /// Prefix marking given homework; shown on the day the homework is
    /// attached to, not on its deadline lesson.
    pub homework_given_prefix: String,
    /// Prefix marking an absence.
    pub absence_prefix: String,
    /// Prefix marking a late arrival.
    pub student_late_prefix: String,
    /// Include a pretty print of the whole lesson record as notes.
    pub pretty_print_as_desc: bool,
}

impl Default for Options {
    /// The documented defaults: lowercase names, topics in names, teachers
    /// in locations, no pretty print, and one marker glyph per event kind.
    fn default() -> (r: Options)
        ensures
            r.lowercase_subject_names,
            r.lesson_topic_in_name,
            r.teacher_name_in_location,
            !r.pretty_print_as_desc,
            r.substitution_prefix@ == "\u{1f504}"@,
            r.cancelled_lesson_preifx@ == "\u{274c}"@,
            r.announced_exam_prefix@ == "\u{1f4dd}"@,
            r.homework_given_prefix@ == "\u{1f3e0}"@,
            r.absence_prefix@ == "\u{1f6ab}"@,
            r.student_late_prefix@ == "\u{23f0}"@,
    {
        Options {
            lowercase_subject_names: true,
            lesson_topic_in_name: true,
            teacher_name_in_location: true,
            pretty_print_as_desc: false,
            substitution_prefix: String::from_str("\u{1f504}"),
            cancelled_lesson_preifx: String::from_str("\u{274c}"),
            announced_exam_prefix: String::from_str("\u{1f4dd}"),
            homework_given_prefix: String::from_str("\u{1f3e0}"),
            absence_prefix: String::from_str("\u{1f6ab}"),
            student_late_prefix: String::from_str("\u{23f0}"),
        }
    }
}

/// Extra data rendered into one lesson's event: the homework and exam the
/// joiner matched to it.
#[derive(Copy, Clone, Debug)]
pub struct ExtraData<'a> {
    /// `false` shows the homework marker on the lesson the homework was
    /// given at; `true` shows it where the homework is due, i.e. when it is
    /// attached here.
    pub is_homework_included: bool,
    pub homework: Option<&'a HomeworkRaw>,
    pub exam: Option<&'a ExamRaw>,
}

impl<'a> Default for ExtraData<'a> {
    fn default() -> (r: ExtraData<'a>)
        ensures
            !r.is_homework_included,
            r.homework is None,
            r.exam is None,
    {
        ExtraData { is_homework_included: false, homework: None, exam: None }
    }
}

/// The query parameters a rendering endpoint receives: optionally a
/// base64-url-encoded options blob.
#[derive(Clone, Debug)]
pub struct OptsParams {
    pub opts: Option<String>,
}

/// How one character reads inside calendar description text: backslashes,
/// semicolons, commas and line breaks carry a backslash escape.
pub open spec fn escape_char(c: char) -> Seq<char> {
    if c == '\\' {
        seq!['\\', '\\']
    } else if c == ';' {
        seq!['\\', ';']
    } else if c == ',' {
        seq!['\\', ',']
    } else if c == '\n' {
        seq!['\\', 'n']
    } else {
        seq![c]
    }
}

/// The escaped reading of a whole text.
pub open spec fn escape_text(s: Seq<char>) -> Seq<char>
    decreases s.len(),
{
    if s.len() == 0 {
        Seq::empty()
    } else {
        escape_text(s.drop_last()) + escape_char(s.last())
    }
}

/// Escapes description text for a calendar file.
#[verifier::loop_isolation(false)]
pub fn escape_desc_text(input: &str) -> (r: String)
    ensures
        r@ == escape_text(input@),
{
    let n = input.unicode_len();
    let mut out = String::new();
    let mut i: usize = 0;
    while i < n
        invariant
            i <= n,
            n == input@.len(),
            out@ == escape_text(input@.subrange(0, i as int)),
        decreases n - i,
    {
        let c = input.get_char(i);
        if c == '\\' {
            out.append("\\\\");
            proof {
                reveal_strlit("\\\\");
            }
        } else if c == ';' {
            out.append("\\;");
            proof {
                reveal_strlit("\\;");
            }
        } else if c == ',' {
            out.append("\\,");
            proof {
                reveal_strlit("\\,");
            }
        } else if c == '\n' {
            out.append("\\n");
            proof {
                reveal_strlit("\\n");
            }
        } else {
            let piece = input.substring_char(i, i + 1);
            out.append(piece);
        }
        i += 1;
        proof {
            let p = input@.subrange(0, i as int);
            assert(p.drop_last() =~= input@.subrange(0, i as int - 1));
            assert(p.last() == input@[i as int - 1]);
            assert(out@ =~= escape_text(p));
        }
    }
    proof {
        assert(input@.subrange(0, n as int) =~= input@);
    }
    out
}

} // verus!
