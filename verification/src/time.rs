//! Plain value types for absolute time and spans of time.
//!
//! An [`Instant`] is an absolute point in time, held as a count of
//! nanoseconds since the Unix epoch (1970-01-01T00:00:00Z). It is
//! independent of any display time reference: two instants compare by
//! absolute time. A [`Duration`] is a signed span of time with nanosecond
//! resolution.

use vstd::prelude::*;

verus! {

pub const NANOS_PER_SECOND: i128 = 1_000_000_000;
pub const NANOS_PER_MILLISECOND: i128 = 1_000_000;
pub const NANOS_PER_MICROSECOND: i128 = 1_000;
pub const NANOS_PER_HOUR: i128 = 3_600_000_000_000;
pub const NANOS_PER_DAY: i128 = 86_400_000_000_000;
pub const NANOS_PER_WEEK: i128 = 604_800_000_000_000;

/// Bound on instants accepted by the interval computations, chosen so that
/// all intermediate arithmetic stays far inside `i128` and all local day
/// numbers stay far inside the range that calendar field extraction
/// supports. It spans roughly sixty thousand years on each side of the
/// epoch.
pub const MAX_INSTANT_NANOS: i128 = 2_000_000_000_000_000_000_000;

/// Bound on the end-precision spans accepted by the interval computations.
pub const MAX_PRECISION_NANOS: i128 = 2_000_000_000_000_000_000_000;

/// An absolute point in time: nanoseconds since the Unix epoch.
#[derive(Clone, Copy, Debug, PartialEq, Eq, Structural, PartialOrd, Ord, Hash)]
pub struct Instant {
    nanos: i128,
}

/// A signed span of time with nanosecond resolution.
#[derive(Clone, Copy, Debug, PartialEq, Eq, Structural, PartialOrd, Ord, Hash)]
pub struct Duration {
    nanos: i128,
}

impl View for Instant {
    type V = int;

    closed spec fn view(&self) -> int {
        self.nanos as int
    }
}

impl View for Duration {
    type V = int;

    closed spec fn view(&self) -> int {
        self.nanos as int
    }
}

/// Whether an instant value lies within the range the interval
/// computations accept.
pub open spec fn instant_in_range(t: int) -> bool {
    -MAX_INSTANT_NANOS <= t <= MAX_INSTANT_NANOS
}

/// Whether a precision span lies within the range the interval
/// computations accept.
pub open spec fn precision_in_range(p: int) -> bool {
    -MAX_PRECISION_NANOS <= p <= MAX_PRECISION_NANOS
}

impl Instant {
    /// The instant `nanos` nanoseconds after the Unix epoch (before it for
    /// negative values).
    pub fn from_nanos(nanos: i128) -> (r: Instant)
        ensures
            r@ == nanos as int,
    {
        Instant { nanos }
    }

    /// The count of nanoseconds since the Unix epoch.
    pub fn as_nanos(&self) -> (r: i128)
        ensures
            r as int == self@,
    {
        self.nanos
    }

    /// This instant shifted forward by `d` (backward for a negative `d`).
    pub fn plus(&self, d: &Duration) -> (r: Instant)
        requires
            i128::MIN <= self@ + d@ <= i128::MAX,
        ensures
            r@ == self@ + d@,
    {
        Instant { nanos: self.nanos + d.nanos }
    }

    /// This instant shifted backward by `d` (forward for a negative `d`).
    pub fn minus(&self, d: &Duration) -> (r: Instant)
        requires
            i128::MIN <= self@ - d@ <= i128::MAX,
        ensures
            r@ == self@ - d@,
    {
        Instant { nanos: self.nanos - d.nanos }
    }

    /// Whether this instant lies strictly before `other`.
    pub fn is_before(&self, other: &Instant) -> (r: bool)
        ensures
            r == (self@ < other@),
    {
        self.nanos < other.nanos
    }
}

impl Duration {
    /// The span of `nanos` nanoseconds.
    pub fn from_nanos(nanos: i128) -> (r: Duration)
        ensures
            r@ == nanos as int,
    {
        Duration { nanos }
    }

    /// A span of `n` nanoseconds.
    pub fn nanoseconds(n: i64) -> (r: Duration)
        ensures
            r@ == n as int,
    {
        Duration { nanos: n as i128 }
    }

    /// A span of `n` microseconds.
    pub fn microseconds(n: i64) -> (r: Duration)
        ensures
            r@ == n as int * NANOS_PER_MICROSECOND,
    {
        Duration { nanos: n as i128 * NANOS_PER_MICROSECOND }
    }

    /// A span of `n` milliseconds.
    pub fn milliseconds(n: i64) -> (r: Duration)
        ensures
            r@ == n as int * NANOS_PER_MILLISECOND,
    {
        Duration { nanos: n as i128 * NANOS_PER_MILLISECOND }
    }

    /// A span of `n` seconds.
    pub fn seconds(n: i64) -> (r: Duration)
        ensures
            r@ == n as int * NANOS_PER_SECOND,
    {
        Duration { nanos: n as i128 * NANOS_PER_SECOND }
    }

    /// A span of `n` hours.
    pub fn hours(n: i64) -> (r: Duration)
        ensures
            r@ == n as int * NANOS_PER_HOUR,
    {
        Duration { nanos: n as i128 * NANOS_PER_HOUR }
    }

    /// A span of `n` days of 24 hours each.
    pub fn days(n: i64) -> (r: Duration)
        ensures
            r@ == n as int * NANOS_PER_DAY,
    {
        Duration { nanos: n as i128 * NANOS_PER_DAY }
    }

    /// The span as a count of nanoseconds.
    pub fn as_nanos(&self) -> (r: i128)
        ensures
            r as int == self@,
    {
        self.nanos
    }
}

} // verus!
