//! Best-effort reading of a lesson's raw presence status name.

use vstd::prelude::*;

use crate::text::str_eq;

verus! {

/// What a presence status name most likely means.
#[derive(Copy, Clone, Debug, PartialEq, Eq, Structural)]
pub enum Absence {
    Present,
    Late,
    Absent,
}

/// The reading rule: "Jelenlet" is presence; "Na" (not yet recorded, the
/// lesson has not happened) counts as presence; "Keses" is lateness; any
/// other name is read as an absence.
pub open spec fn absence_guess_spec(name: Seq<char>) -> Absence {
    if name == "Jelenlet"@ || name == "Na"@ {
        Absence::Present
    } else if name == "Keses"@ {
        Absence::Late
    } else {
        Absence::Absent
    }
}

/// Guesses what a presence status name means.
pub fn absence_guess(name: &str) -> (r: Absence)
    ensures
        r == absence_guess_spec(name@),
{
    if str_eq(name, "Jelenlet") {
        Absence::Present
    } else if str_eq(name, "Na") {
        Absence::Present
    } else if str_eq(name, "Keses") {
        Absence::Late
    } else {
        Absence::Absent
    }
}

} // verus!
