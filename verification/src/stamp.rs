//! Timestamps as seconds since the Unix epoch, and the day / week arithmetic
//! on them that week bucketing is built on.
//!
//! All bucketing is done on a shifted day number: days since 1969-09-01,
//! which is a Monday and lies 122 whole days (10540800 seconds) before the
//! epoch.  The shift keeps every quantity non-negative inside the supported
//! window and makes the day-of-week computation a plain remainder, since day
//! 0 of the shifted count is a Monday.

use vstd::prelude::*;

verus! {

/// Latest supported instant: 9999-12-31T23:59:59Z.
pub const TS_MAX_SECS: i64 = 253402300799;

/// Seconds between 1969-09-01T00:00:00Z and the epoch: 122 whole days.
pub const DAY_SHIFT_SECS: i64 = 10540800;

/// What an in-window datetime string denotes: the instant chrono accepts,
/// provided it falls inside the supported window, else nothing.
pub open spec fn stamp_parse(s: Seq<char>) -> Option<int> {
    match crate::clock::ts_parse(s) {
        Some(t) => if ts_in_window(t) {
            Some(t)
        } else {
            None
        },
        None => None,
    }
}

/// A timestamp string of a record could not be read as an in-window
/// instant; carries the offending text and the uid of the record it came
/// from, so that the failure is actionable without re-deriving the record.
#[derive(Clone, Debug, PartialEq)]
pub struct ParseError {
    pub record_uid: String,
    pub value: String,
}

/// An instant, as non-leap seconds since 1970-01-01T00:00:00Z.
///
/// All comparisons and week bucketing are done on this single scale,
/// independently of the timezone a record was fetched in.
#[derive(Copy, Clone, Debug, PartialEq, Eq, Structural)]
pub struct Timestamp {
    pub secs: i64,
}

/// The window of instants the library accepts from parsed records:
/// 1970-01-01T00:00:00Z through 9999-12-31T23:59:59Z.
pub open spec fn ts_in_window(s: int) -> bool {
    0 <= s <= 253402300799
}

/// The slightly wider window an anchor may lie in: a school year that began
/// in September 1969 is the earliest one that can cover an in-window instant.
pub open spec fn anchor_in_window(s: int) -> bool {
    -10540800 <= s <= 253402300799
}

/// Whole days since 1969-09-01T00:00:00Z (floor).
pub open spec fn shifted_day(s: int) -> int {
    (s + 10540800) / 86400
}

/// Day of week with Monday = 0 ... Sunday = 6; day 0 of the shifted count
/// (1969-09-01) is a Monday.
pub open spec fn day_of_week(s: int) -> int {
    shifted_day(s) % 7
}

/// Whole weeks since the week of 1969-09-01; constant across one
/// Monday-to-Sunday span.
pub open spec fn week_of(s: int) -> int {
    shifted_day(s) / 7
}

impl Timestamp {
    pub fn new(secs: i64) -> (r: Timestamp)
        ensures
            r.secs == secs,
    {
        Timestamp { secs }
    }

    pub open spec fn in_window(self) -> bool {
        ts_in_window(self.secs as int)
    }

    /// Whole days since 1969-09-01 of this instant.
    pub fn shifted_day_num(self) -> (d: u64)
        requires
            anchor_in_window(self.secs as int),
        ensures
            d == shifted_day(self.secs as int),
    {
        ((self.secs + DAY_SHIFT_SECS) as u64) / 86400
    }

    /// Parses a datetime string into an in-window instant.  Returns `None`
    /// both for text chrono rejects and for instants outside the supported
    /// window (before 1970 or after 9999).
    pub fn parse(s: &str) -> (r: Option<Timestamp>)
        ensures
            r is Some <==> stamp_parse(s@) is Some,
            r matches Some(t) ==> stamp_parse(s@) == Some(t.secs as int) && t.in_window(),
    {
        match crate::clock::parse_datetime_secs(s) {
            Some(v) => {
                if 0 <= v && v <= TS_MAX_SECS {
                    Some(Timestamp { secs: v })
                } else {
                    None
                }
            },
            None => None,
        }
    }

    /// Day of the week of this instant, Monday = 0 ... Sunday = 6.
    pub fn weekday_from_monday(self) -> (d: u32)
        requires
            anchor_in_window(self.secs as int),
        ensures
            d == day_of_week(self.secs as int),
    {
        (self.shifted_day_num() % 7) as u32
    }
}

} // verus!
