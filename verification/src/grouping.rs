//! Grouping granularities for time intervals.
//!
//! A `Grouping` selects which calendar boundary rule applies: intervals per
//! day start at local midnight, intervals per week start on Monday at local
//! midnight, and intervals per month start on the first of the month at
//! local midnight.

use vstd::prelude::*;

verus! {

/// The closed set of interval granularities.
#[derive(Clone, Copy)]
pub enum Grouping {
    PerDay,
    PerWeek,
    PerMonth,
}

} // verus!
