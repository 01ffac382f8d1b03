//! Core record-correlation and time-partitioning engine for a school-portal
//! integration: week bucketing anchored on the start of the school year,
//! per-category absence aggregation and forecasting, and a surrogate-key join
//! of lesson, homework, exam and absence record streams.

use vstd::prelude::*;

pub mod absence_best_guess;
pub mod by_week;
pub mod client;
mod clock;
pub mod combine;
pub mod excuse;
pub mod forecast;
pub mod html_stats;
pub mod index;
pub mod login;
pub mod options;
pub mod retreive;
pub mod stamp;
pub mod surrogate;
mod text;

pub use by_week::WeekNum;
pub use retreive::last_september_first_expl;
pub use stamp::{ParseError, Timestamp};

verus! {

} // verus!
