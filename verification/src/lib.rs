//! Grouped time intervals: partition a `[begin, end)` span of absolute time
//! into calendar-aligned buckets ("per day", "per week", "per month").
//!
//! Boundary computation happens in a caller-chosen fixed-offset local time
//! reference (seconds west of UTC); the returned instants are absolute, so
//! they are already expressed in the canonical (UTC) reference.

use vstd::prelude::*;

pub mod boundaries;
pub mod calendar;
pub mod civil;
pub mod generator;
pub mod grouping;
pub mod intervals;
pub mod time;

pub use generator::IntervalGenerator;
pub use grouping::Grouping;
pub use intervals::{get_extended_utc_intervals_with_defaults, get_utc_intervals_opts};
pub use time::{Duration, Instant};

verus! {

} // verus!
