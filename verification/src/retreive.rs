//! Computing the school year anchor: the most recent September 1st at or
//! before a given instant.

use vstd::prelude::*;

use crate::clock::{sept1, september_first_secs, utc_year_month_day, utc_ymd};
use crate::stamp::{anchor_in_window, ts_in_window, Timestamp};

verus! {

/// The civil year whose September 1st is the most recent one at or before
/// the instant `t`: the instant's own UTC year if its month is September or
/// later, else the year before.
pub open spec fn anchor_year(t: int) -> int {
    if utc_ymd(t).1 >= 9 {
        utc_ymd(t).0
    } else {
        utc_ymd(t).0 - 1
    }
}

/// The instant of the most recent September 1st (00:00:00 UTC) at or before
/// `t`.
pub open spec fn anchor_of(t: int) -> int {
    sept1(anchor_year(t))
}

/// Local midnight of the most recent September 1st at or before `now`:
/// September 1st of `now`'s own year when `now` is on or after it, else
/// September 1st of the previous year.  Recomputed from the argument on
/// every call; never below `now`.
pub fn last_september_first_expl(now: Timestamp) -> (r: Timestamp)
    requires
        ts_in_window(now.secs as int),
    ensures
        r.secs == anchor_of(now.secs as int),
        anchor_in_window(r.secs as int),
        r.secs <= now.secs,
{
    let (year, month, _day) = utc_year_month_day(now.secs);
    let anchor_year: i32 = if month >= 9 {
        year
    } else {
        year - 1
    };
    Timestamp { secs: september_first_secs(anchor_year) }
}

} // verus!
