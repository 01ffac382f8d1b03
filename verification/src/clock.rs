//! The calendar facts the library takes from chrono and chrono-tz: parsing a
//! datetime string, reading the civil date of an instant, the instant of a
//! September 1st, and the Budapest-local civil date of an instant.
//!
//! Everything else (weekday, week arithmetic, anchor selection) is computed
//! and verified inside the library.

use chrono::Datelike;
use chrono::TimeZone;

use vstd::prelude::*;

verus! {

/// The instant a datetime string denotes, as seconds since the epoch, or
/// `None` where chrono does not accept the string.
pub uninterp spec fn ts_parse(s: Seq<char>) -> Option<int>;

/// The UTC civil date (year, month, day) an instant falls on.
pub uninterp spec fn utc_ymd(t: int) -> (int, int, int);

/// The instant of September 1st, 00:00:00 UTC, of the given year.
pub uninterp spec fn sept1(year: int) -> int;

/// The Budapest-local civil date (year, month, day) an instant falls on.
pub uninterp spec fn bud_ymd(t: int) -> (int, int, int);

/// Relies on chrono's `FromStr for DateTime<Utc>` (a relaxed form of
/// RFC 3339) and `DateTime::timestamp`: both are functions of the characters
/// alone, so the result only names the parse.
#[verifier::external_body]
pub(crate) fn parse_datetime_secs(s: &str) -> (r: Option<i64>)
    ensures
        r is Some <==> ts_parse(s@) is Some,
        r matches Some(v) ==> ts_parse(s@) == Some(v as int),
{
    match s.parse::<chrono::DateTime<chrono::Utc>>() {
        Ok(d) => Some(d.timestamp()),
        Err(_) => None,
    }
}

/// Relies on chrono's `DateTime::from_timestamp` and the `Datelike` year,
/// month and day accessors, read in UTC.  The range bounds follow from the
/// requested window (1970 through 9999); the September clauses hold because
/// chrono's timestamps grow with the civil date, so an instant on or after
/// its year's September 1st is at or above that September's timestamp, and
/// one before it lies between the previous September 1st and this one.
#[verifier::external_body]
pub(crate) fn utc_year_month_day(t: i64) -> (r: (i32, u32, u32))
    requires
        0 <= t <= 253402300799,
    ensures
        (r.0 as int, r.1 as int, r.2 as int) == utc_ymd(t as int),
        1970 <= r.0 <= 9999,
        1 <= r.1 <= 12,
        1 <= r.2 <= 31,
        r.1 >= 9 ==> sept1(r.0 as int) <= t,
        r.1 < 9 ==> t < sept1(r.0 as int) && sept1(r.0 as int - 1) <= t,
{
    let d = chrono::DateTime::<chrono::Utc>::from_timestamp(t, 0).unwrap();
    (d.year(), d.month(), d.day())
}

/// Relies on chrono's `TimeZone::with_ymd_and_hms` for `Utc` (which maps a
/// valid civil datetime to exactly one instant) and `DateTime::timestamp`.
/// The bounds are the timestamps of 1969-09-01T00:00:00Z and of the end of
/// the supported window, 9999-12-31T23:59:59Z.
#[verifier::external_body]
pub(crate) fn september_first_secs(year: i32) -> (r: i64)
    requires
        1969 <= year <= 9999,
    ensures
        r == sept1(year as int),
        -10540800 <= r <= 253402300799,
{
    chrono::Utc.with_ymd_and_hms(year, 9, 1, 0, 0, 0).unwrap().timestamp()
}

/// Relies on chrono-tz's Europe/Budapest timezone tables (compiled into the
/// crate, so the result depends on the instant alone) together with chrono's
/// `DateTime::from_timestamp`, `DateTime::with_timezone` and the `Datelike`
/// accessors.  The year bounds allow for the local offset carrying an
/// instant at either end of the window into the neighbouring year.
#[verifier::external_body]
pub(crate) fn budapest_year_month_day(t: i64) -> (r: (i32, u32, u32))
    requires
        0 <= t <= 253402300799,
    ensures
        (r.0 as int, r.1 as int, r.2 as int) == bud_ymd(t as int),
        1969 <= r.0 <= 10000,
        1 <= r.1 <= 12,
        1 <= r.2 <= 31,
{
    let d = chrono::DateTime::<chrono::Utc>::from_timestamp(t, 0).unwrap();
    let local = d.with_timezone(&chrono_tz::Europe::Budapest);
    (local.year(), local.month(), local.day())
}

} // verus!
