//! Points in time. The library never reads a clock: callers hand the time in.

use vstd::prelude::*;

verus! {

/// Nanoseconds in a second.
pub const NANOS_PER_SEC: u64 = 1_000_000_000;

/// A point on a clock that never goes back, in nanoseconds since some fixed moment.
#[derive(Clone, Copy, Debug, PartialEq, Eq, Structural)]
pub struct Instant {
    pub nanos: u64,
}

impl Instant {
    /// Nanoseconds from `earlier` to `self`; zero where `earlier` is later.
    pub open spec fn spec_since(self, earlier: Instant) -> int {
        if self.nanos >= earlier.nanos {
            self.nanos - earlier.nanos
        } else {
            0
        }
    }

    /// Nanoseconds from `earlier` to `self`; zero where `earlier` is later.
    pub fn since(&self, earlier: Instant) -> (nanos: u64)
        ensures
            nanos == self.spec_since(earlier),
    {
        if self.nanos >= earlier.nanos {
            self.nanos - earlier.nanos
        } else {
            0
        }
    }

    /// The point `secs` seconds after `self`.
    pub fn plus_secs(&self, secs: u64) -> (later: Instant)
        requires
            self.nanos + secs * NANOS_PER_SEC <= u64::MAX,
        ensures
            later.nanos == self.nanos + secs * NANOS_PER_SEC,
    {
        assert(secs * NANOS_PER_SEC <= u64::MAX);
        Instant { nanos: self.nanos + secs * NANOS_PER_SEC }
    }
}

} // verus!
