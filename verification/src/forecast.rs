//! Projecting a partial-year absence total to a full-school-year estimate by
//! the elapsed-time ratio.
//!
//! All quantities are integers: durations in 1/45ths of an hour (see the
//! aggregation module), elapsed months and projected hours in thousandths.
//! The projection is `observed / months_elapsed * 9.5`, with the mean month
//! of 30.436875 days; composed over a duration of `q` 1/45ths observed after
//! `d` whole days, the projected duration in thousandths of an hour is
//! exactly `q * 102809 / (16 * d)`.

use vstd::arithmetic::div_mod::lemma_div_is_ordered;
use vstd::prelude::*;

use crate::excuse::{tally_get, AbsencesByExcuse, ExcuseKind, ExcuseType};
use crate::retreive::{anchor_of, last_september_first_expl};
use crate::stamp::{ts_in_window, Timestamp};

verus! {

/// Degenerate arithmetic that cannot produce a meaningful forecast.
#[derive(Copy, Clone, Debug, PartialEq, Eq, Structural)]
pub enum ForecastError {
    /// No time has elapsed since the anchor, so there is no rate to project.
    DivisionByZero,
}

/// Whole days elapsed between the most recent September 1st and `now`.
pub open spec fn days_elapsed(now: int) -> int {
    (now - anchor_of(now)) / 86400
}

/// Months elapsed since the anchor, in thousandths of a mean calendar month
/// (365.2425 / 12 = 30.436875 days, i.e. 48699 / 1600).
pub open spec fn months_milli(now: int) -> int {
    days_elapsed(now) * 1600000 / 48699
}

/// The full-school-year projection of a duration of `q45` 1/45ths of an hour
/// observed over `days` days, in thousandths of an hour:
/// `(q45 / 45) / (days / 30.436875) * 9.5` hours, composed into one exact
/// integer division.
pub open spec fn forecast_milli(q45: int, days: int) -> int {
    q45 * 102809 / (16 * days)
}

/// The projection, clamped into the representable range rather than failing:
/// the explicit degraded-mode policy for out-of-range arithmetic.
pub open spec fn forecast_milli_sat(q45: int, days: int) -> int {
    if forecast_milli(q45, days) > u64::MAX {
        u64::MAX as int
    } else {
        forecast_milli(q45, days)
    }
}

/// Months elapsed since the most recent September 1st before `now`, in
/// thousandths of a month; 0 on September 1st itself.
pub fn months_since_september_first(now: Timestamp) -> (r: u64)
    requires
        ts_in_window(now.secs as int),
    ensures
        r == months_milli(now.secs as int),
{
    let anchor = last_september_first_expl(now);
    let days = ((now.secs - anchor.secs) as u64) / 86400;
    (days * 1600000) / 48699
}

/// The clamped projection, computed exactly.
fn forecast_milli_exec(q45: u128, days: u64) -> (v: u64)
    requires
        days > 0,
        q45 < 0x200000000000000000,
    ensures
        v == forecast_milli_sat(q45 as int, days as int),
{
    let num: u128 = q45 * 102809;
    let den: u128 = 16u128 * (days as u128);
    let q: u128 = num / den;
    if q > u64::MAX as u128 {
        u64::MAX
    } else {
        q as u64
    }
}

/// Projects an observed duration (in 1/45ths of an hour) to a full school
/// year of 9.5 months, from the time elapsed since the most recent
/// September 1st before `now`.  Zero elapsed days cannot be projected and
/// fail explicitly rather than handing back an unbounded value.
pub fn forecast_value(value_q45: u64, now: Timestamp) -> (r: Result<u64, ForecastError>)
    requires
        ts_in_window(now.secs as int),
    ensures
        r is Err <==> days_elapsed(now.secs as int) == 0,
        r == Err::<u64, ForecastError>(ForecastError::DivisionByZero) <==> days_elapsed(
            now.secs as int,
        ) == 0,
        r matches Ok(v) ==> v == forecast_milli_sat(
            value_q45 as int,
            days_elapsed(now.secs as int),
        ),
{
    let anchor = last_september_first_expl(now);
    let days = ((now.secs - anchor.secs) as u64) / 86400;
    if days == 0 {
        Err(ForecastError::DivisionByZero)
    } else {
        Ok(forecast_milli_exec(value_q45 as u128, days))
    }
}

/// A projection never shrinks when the observed duration grows.
pub proof fn lemma_forecast_monotone(q1: int, q2: int, days: int)
    requires
        0 <= q1 <= q2,
        days > 0,
    ensures
        forecast_milli_sat(q1, days) <= forecast_milli_sat(q2, days),
{
    assert(q1 * 102809 <= q2 * 102809) by (nonlinear_arith)
        requires 0 <= q1 <= q2;
    assert(16 * days > 0);
    lemma_div_is_ordered(q1 * 102809, q2 * 102809, 16 * days);
}

/// The projected end-of-year unexcused total: the projection of the
/// unexcused category alone, and the projection with the still-to-be-excused
/// category added on top.  The latter is never below the former.
#[derive(Copy, Clone, Debug, PartialEq, Eq, Structural)]
pub struct UnexcusedForecast {
    /// Projection of the unexcused duration alone, in thousandths of an hour.
    pub only_unexcused: u64,
    /// Projection including the to-be-excused duration, in thousandths of an
    /// hour.
    pub with_to_be_excused: u64,
}

/// Reads the unexcused category out of an aggregate and projects it to the
/// end of the school year.  Nothing is forecast (`None`) where no unexcused
/// category exists, or where no time has elapsed since the anchor.
pub fn extract_unexcused_forecast(data: &AbsencesByExcuse, now: Timestamp) -> (r: Option<
    UnexcusedForecast,
>)
    requires
        ts_in_window(now.secs as int),
        data.wf(),
    ensures
        r is Some <==> (tally_get(data@, ExcuseKind::Unexcused) is Some && days_elapsed(
            now.secs as int,
        ) != 0),
        r matches Some(f) ==> ({
            let u = tally_get(data@, ExcuseKind::Unexcused)->0;
            let days = days_elapsed(now.secs as int);
            &&& f.only_unexcused == forecast_milli_sat(u.1, days)
            &&& f.with_to_be_excused == (match tally_get(data@, ExcuseKind::ToBeExcused) {
                Some(t) => forecast_milli_sat(u.1 + t.1, days),
                None => forecast_milli_sat(u.1, days),
            })
            &&& f.only_unexcused <= f.with_to_be_excused
        }),
{
    let unexcused = match data.get(&ExcuseType::Unexcused) {
        Some(d) => d,
        None => {
            return None;
        },
    };
    let anchor = last_september_first_expl(now);
    let days = ((now.secs - anchor.secs) as u64) / 86400;
    if days == 0 {
        return None;
    }
    let only = forecast_milli_exec(unexcused.hours_q45 as u128, days);
    let with = match data.get(&ExcuseType::ToBeExcused) {
        Some(t) => forecast_milli_exec(
            unexcused.hours_q45 as u128 + t.hours_q45 as u128,
            days,
        ),
        None => only,
    };
    proof {
        let u = tally_get(data@, ExcuseKind::Unexcused)->0;
        match tally_get(data@, ExcuseKind::ToBeExcused) {
            Some(t) => {
                lemma_forecast_monotone(u.1, u.1 + t.1, days as int);
            },
            None => {},
        }
    }
    Some(UnexcusedForecast { only_unexcused: only, with_to_be_excused: with })
}

} // verus!
