//! Builder-style generator for time intervals.
//!
//! An [`IntervalGenerator`] is an immutable value object holding the
//! grouping, the end precision, the local offset and the two extension
//! flags; each `with_`/`without_` method returns an updated copy, and
//! [`IntervalGenerator::get_intervals`] runs the interval walker with the
//! held configuration.

use crate::grouping::Grouping;
use crate::intervals::{get_intervals_impl, intervals_spec, seq_view};
use crate::time::{
    instant_in_range, precision_in_range, Duration, Instant, NANOS_PER_MILLISECOND,
};
use vstd::prelude::*;

verus! {

/// Generator for time intervals.
pub struct IntervalGenerator {
    pub grouping: Grouping,
    pub end_precision: Duration,
    pub offset_west_secs: i32,
    pub extend_begin: bool,
    pub extend_end: bool,
}

impl IntervalGenerator {
    /// A generator with the default configuration: daily intervals,
    /// aligned on the canonical (UTC) day boundary, extended on both
    /// sides, with a precision of one millisecond.
    pub fn new() -> (r: IntervalGenerator)
        ensures
            r.grouping is PerDay,
            r.end_precision@ == NANOS_PER_MILLISECOND as int,
            r.offset_west_secs == 0,
            r.extend_begin,
            r.extend_end,
    {
        IntervalGenerator {
            grouping: Grouping::PerDay,
            end_precision: Duration::milliseconds(1),
            offset_west_secs: 0,
            extend_begin: true,
            extend_end: true,
        }
    }

    /// This generator with the grouping replaced.
    pub fn with_grouping(self, grouping: Grouping) -> (r: IntervalGenerator)
        ensures
            r == (IntervalGenerator { grouping, ..self }),
    {
        IntervalGenerator { grouping, ..self }
    }

    /// This generator with the end precision replaced.
    pub fn with_precision(self, precision: Duration) -> (r: IntervalGenerator)
        ensures
            r == (IntervalGenerator { end_precision: precision, ..self }),
    {
        IntervalGenerator { end_precision: precision, ..self }
    }

    /// This generator with the local offset replaced by
    /// `offset_west_secs` seconds west of the canonical reference.
    pub fn with_offset_west_secs(self, offset_west_secs: i32) -> (r: IntervalGenerator)
        ensures
            r == (IntervalGenerator { offset_west_secs, ..self }),
    {
        IntervalGenerator { offset_west_secs, ..self }
    }

    /// This generator with the first interval clipped to the boundary
    /// after `begin` instead of extended to the one before it.
    pub fn without_extended_begin(self) -> (r: IntervalGenerator)
        ensures
            r == (IntervalGenerator { extend_begin: false, ..self }),
    {
        IntervalGenerator { extend_begin: false, ..self }
    }

    /// This generator with the last interval clipped to the boundary
    /// before `end` instead of extended to the one after it.
    pub fn without_extended_end(self) -> (r: IntervalGenerator)
        ensures
            r == (IntervalGenerator { extend_end: false, ..self }),
    {
        IntervalGenerator { extend_end: false, ..self }
    }

    /// The interval sequence for the span `[begin, end)` under this
    /// generator's configuration, in the canonical (UTC) reference.
    pub fn get_intervals(&self, begin: Instant, end: Instant) -> (r: Vec<(Instant, Instant)>)
        requires
            instant_in_range(begin@),
            instant_in_range(end@),
            precision_in_range(self.end_precision@),
        ensures
            intervals_spec(
                seq_view(r@),
                begin@,
                end@,
                self.grouping,
                self.offset_west_secs as int,
                self.end_precision@,
                self.extend_begin,
                self.extend_end,
            ),
    {
        get_intervals_impl(
            begin,
            end,
            &self.grouping,
            self.end_precision,
            self.offset_west_secs,
            self.extend_begin,
            self.extend_end,
        )
    }
}

impl Default for IntervalGenerator {
    /// The default configuration, as [`IntervalGenerator::new`] builds it.
    fn default() -> (r: IntervalGenerator)
        ensures
            r.grouping is PerDay,
            r.end_precision@ == NANOS_PER_MILLISECOND as int,
            r.offset_west_secs == 0,
            r.extend_begin,
            r.extend_end,
    {
        IntervalGenerator::new()
    }
}

} // verus!
