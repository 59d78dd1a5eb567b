//! Time spans, held as whole nanoseconds.

use vstd::prelude::*;

verus! {

/// Number of nanoseconds in one second.
pub const NANOS_PER_SEC: u64 = 1_000_000_000;

/// A non-negative span of time, measured in nanoseconds.
///
/// The view of a `Duration` is its length in nanoseconds, as a `u64`.
#[derive(Clone, Copy, Debug, PartialEq, Eq)]
pub struct Duration {
    pub nanos: u64,
}

impl View for Duration {
    type V = u64;

    open spec fn view(&self) -> u64 {
        self.nanos
    }
}

impl Duration {
    /// The zero-length span.
    pub fn zero() -> (r: Duration)
        ensures
            r@ == 0,
    {
        Duration { nanos: 0 }
    }

    /// A span of `n` nanoseconds.
    pub fn from_nanos(n: u64) -> (r: Duration)
        ensures
            r@ == n,
    {
        Duration { nanos: n }
    }

    /// A span of `ms` milliseconds.
    pub fn from_millis(ms: u64) -> (r: Duration)
        requires
            ms * 1_000_000 <= u64::MAX,
        ensures
            r@ == ms * 1_000_000,
    {
        Duration { nanos: ms * 1_000_000 }
    }

    /// The whole-second part of the span.
    pub fn as_secs(&self) -> (r: u64)
        ensures
            r == self@ / NANOS_PER_SEC,
    {
        self.nanos / NANOS_PER_SEC
    }

    /// The sub-second part of the span, in nanoseconds.
    pub fn subsec_nanos(&self) -> (r: u64)
        ensures
            r == self@ % NANOS_PER_SEC,
            r < NANOS_PER_SEC,
    {
        self.nanos % NANOS_PER_SEC
    }

    /// The sum of two spans.
    pub fn checked_add(&self, other: &Duration) -> (r: Option<Duration>)
        ensures
            self@ + other@ <= u64::MAX ==> (r matches Some(d) && d@ == self@ + other@),
            self@ + other@ > u64::MAX ==> r is None,
    {
        match self.nanos.checked_add(other.nanos) {
            Some(n) => Some(Duration { nanos: n }),
            None => None,
        }
    }

    /// The sum of two spans, known not to overflow.
    pub fn add(&self, other: &Duration) -> (r: Duration)
        requires
            self@ + other@ <= u64::MAX,
        ensures
            r@ == self@ + other@,
    {
        Duration { nanos: self.nanos + other.nanos }
    }

    /// The span divided into `n` equal parts, rounded down to whole
    /// nanoseconds.
    pub fn div(&self, n: u64) -> (r: Duration)
        requires
            n > 0,
        ensures
            r@ == self@ / n,
    {
        Duration { nanos: self.nanos / n }
    }

    /// Whether the span is zero.
    pub fn is_zero(&self) -> (r: bool)
        ensures
            r == (self@ == 0),
    {
        self.nanos == 0
    }
}

} // verus!
