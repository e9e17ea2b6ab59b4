//! Time as the state machines see it: nanoseconds from an epoch the caller
//! picks, and spans of it.

use vstd::prelude::*;

verus! {

/// Nanoseconds in one second.
pub const NANOS: u64 = 1_000_000_000;

/// Nanoseconds in one millisecond.
pub const MILLI: u64 = 1_000_000;

/// The latest instant from which every span of this library can be added.
pub const HORIZON: u64 = 0x4000_0000_0000_0000;

/// A span of time.
#[derive(Clone, Copy, Debug, PartialEq, Eq, PartialOrd, Ord, Structural)]
pub struct Duration {
    pub nanos: u64,
}

/// A point in time, counted from the caller's epoch.
#[derive(Clone, Copy, Debug, PartialEq, Eq, PartialOrd, Ord, Structural)]
pub struct Instant {
    pub nanos: u64,
}

impl Duration {
    pub fn from_secs(secs: u32) -> (d: Duration)
        ensures
            d.nanos == secs * NANOS,
    {
        Duration { nanos: secs as u64 * NANOS }
    }

    /// Whole seconds in the span.
    pub fn as_secs(&self) -> (n: u64)
        ensures
            n == self.nanos / NANOS,
    {
        self.nanos / NANOS
    }
}

impl Instant {
    /// `self` and then `d`.
    pub fn plus(&self, d: Duration) -> (r: Instant)
        requires
            self.nanos + d.nanos <= u64::MAX,
        ensures
            r.nanos == self.nanos + d.nanos,
    {
        Instant { nanos: self.nanos + d.nanos }
    }

    /// The span from `earlier` to `self`, nothing when `earlier` is later.
    pub fn since(&self, earlier: Instant) -> (d: Duration)
        ensures
            d.nanos == if self.nanos >= earlier.nanos {
                self.nanos - earlier.nanos
            } else {
                0
            },
    {
        if self.nanos >= earlier.nanos {
            Duration { nanos: self.nanos - earlier.nanos }
        } else {
            Duration { nanos: 0 }
        }
    }
}

} // verus!
