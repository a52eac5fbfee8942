//! Points in time and spans of time, as plain nanosecond counts.
//!
//! Nothing in this crate reads a clock. Whoever drives a state machine passes
//! the current time in, which keeps every transition a function of its inputs.

use vstd::prelude::*;

verus! {

/// Nanoseconds in one millisecond.
pub const NANOS_PER_MILLI: u64 = 1_000_000;

/// Nanoseconds in one second.
pub const NANOS_PER_SEC: u64 = 1_000_000_000;

/// `a + b`, held at the largest representable value.
pub open spec fn saturating_sum(a: int, b: int) -> int {
    if a + b > u64::MAX {
        u64::MAX as int
    } else {
        a + b
    }
}

/// A reading of a hybrid clock: the wall clock, and a counter that tells readings
/// of the same time apart.
#[derive(Debug, Clone, Copy, PartialEq, Eq, Structural)]
pub struct Hlc {
    pub wall_nanos: u64,
    pub counter: u64,
}

impl Default for Hlc {
    fn default() -> (r: Hlc)
        ensures
            r == (Hlc { wall_nanos: 0, counter: 0 }),
    {
        Hlc { wall_nanos: 0, counter: 0 }
    }
}

/// A span of time.
#[derive(Debug, Clone, Copy, PartialEq, Eq, Structural)]
pub struct Duration {
    pub nanos: u64,
}

impl Duration {
    /// A span of `millis` milliseconds, held at the largest representable span.
    pub fn from_millis(millis: u64) -> (r: Duration)
        ensures
            r.nanos == if millis * NANOS_PER_MILLI > u64::MAX {
                u64::MAX as int
            } else {
                millis * NANOS_PER_MILLI
            },
    {
        if millis > u64::MAX / NANOS_PER_MILLI {
            Duration { nanos: u64::MAX }
        } else {
            Duration { nanos: millis * NANOS_PER_MILLI }
        }
    }

    /// A span of `secs` seconds, held at the largest representable span.
    pub fn from_secs(secs: u64) -> (r: Duration)
        ensures
            r.nanos == if secs * NANOS_PER_SEC > u64::MAX {
                u64::MAX as int
            } else {
                secs * NANOS_PER_SEC
            },
    {
        if secs > u64::MAX / NANOS_PER_SEC {
            Duration { nanos: u64::MAX }
        } else {
            Duration { nanos: secs * NANOS_PER_SEC }
        }
    }

    /// Whole milliseconds in the span.
    pub fn as_millis(&self) -> (r: u64)
        ensures
            r == self.nanos / NANOS_PER_MILLI,
    {
        self.nanos / NANOS_PER_MILLI
    }

    /// Whole microseconds in the span.
    pub fn as_micros(&self) -> (r: u64)
        ensures
            r == self.nanos / 1_000,
    {
        self.nanos / 1_000
    }
}

/// A point in time, counted from an origin that the caller fixes once.
#[derive(Debug, Clone, Copy, PartialEq, Eq, Structural)]
pub struct Instant {
    pub nanos: u64,
}

impl Instant {
    /// The point `d` after this one, held at the largest representable point.
    pub fn after(&self, d: Duration) -> (r: Instant)
        ensures
            r.nanos == saturating_sum(self.nanos as int, d.nanos as int),
    {
        if self.nanos > u64::MAX - d.nanos {
            Instant { nanos: u64::MAX }
        } else {
            Instant { nanos: self.nanos + d.nanos }
        }
    }

    /// Whether this point is `deadline` or later.
    pub fn reached(&self, deadline: Instant) -> (r: bool)
        ensures
            r == (self.nanos >= deadline.nanos),
    {
        self.nanos >= deadline.nanos
    }

    /// The time from `earlier` to this point; nothing when `earlier` is later.
    pub fn since(&self, earlier: Instant) -> (r: Duration)
        ensures
            r.nanos == if self.nanos >= earlier.nanos {
                self.nanos - earlier.nanos
            } else {
                0
            },
    {
        if self.nanos >= earlier.nanos {
            Duration { nanos: self.nanos - earlier.nanos }
        } else {
            Duration { nanos: 0 }
        }
    }
}

} // verus!
