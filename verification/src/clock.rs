//! Spans of time and readings of a monotonic clock, as plain numbers.
use vstd::prelude::*;

verus! {

pub const NANOS_PER_MILLI: u128 = 1_000_000;

pub const NANOS_PER_SEC: u128 = 1_000_000_000;

/// A span of time in nanoseconds.
#[derive(Clone, Copy, Debug, PartialEq, Eq, Structural)]
pub struct Duration {
    pub nanos: u128,
}

impl Duration {
    pub fn zero() -> (d: Duration)
        ensures
            d.nanos == 0,
    {
        Duration { nanos: 0 }
    }

    pub fn from_nanos(n: u64) -> (d: Duration)
        ensures
            d.nanos == n,
    {
        Duration { nanos: n as u128 }
    }

    pub fn from_millis(ms: u64) -> (d: Duration)
        ensures
            d == spec_from_millis(ms as nat),
    {
        Duration { nanos: ms as u128 * NANOS_PER_MILLI }
    }

    pub fn from_secs(s: u64) -> (d: Duration)
        ensures
            d.nanos == s * NANOS_PER_SEC,
    {
        Duration { nanos: s as u128 * NANOS_PER_SEC }
    }

    /// Whole milliseconds, rounded down.
    pub fn as_millis(&self) -> (ms: u128)
        ensures
            ms == self.nanos / NANOS_PER_MILLI,
    {
        self.nanos / NANOS_PER_MILLI
    }
}

impl Default for Duration {
    fn default() -> (d: Duration)
        ensures
            d.nanos == 0,
    {
        Duration { nanos: 0 }
    }
}

/// The span of `ms` milliseconds.
pub open spec fn spec_from_millis(ms: nat) -> Duration {
    Duration { nanos: (ms * NANOS_PER_MILLI) as u128 }
}

/// A reading of a monotonic clock, in nanoseconds from an arbitrary origin.
#[derive(Clone, Copy, Debug, PartialEq, Eq, Structural)]
pub struct Instant {
    pub nanos: u128,
}

/// Time from `earlier` to `later`; nothing when `earlier` is the later one.
pub open spec fn elapsed(later: Instant, earlier: Instant) -> int {
    if later.nanos >= earlier.nanos {
        later.nanos - earlier.nanos
    } else {
        0
    }
}

impl Instant {
    pub fn from_nanos(n: u128) -> (t: Instant)
        ensures
            t.nanos == n,
    {
        Instant { nanos: n }
    }

    pub fn from_millis(ms: u64) -> (t: Instant)
        ensures
            t.nanos == ms * NANOS_PER_MILLI,
    {
        Instant { nanos: ms as u128 * NANOS_PER_MILLI }
    }

    /// Time passed since `earlier`, zero when `earlier` lies ahead.
    pub fn duration_since(&self, earlier: Instant) -> (d: Duration)
        ensures
            d.nanos == elapsed(*self, earlier),
    {
        if self.nanos >= earlier.nanos {
            Duration { nanos: self.nanos - earlier.nanos }
        } else {
            Duration { nanos: 0 }
        }
    }
}

} // verus!
