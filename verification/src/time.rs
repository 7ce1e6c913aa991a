//! Durations and points in time, as counts of nanoseconds.

use vstd::prelude::*;

verus! {

#[derive(Debug, Clone, Copy, PartialEq, Eq, PartialOrd, Ord, Structural)]
pub struct Duration {
    pub ns: u64,
}

/// A point in time, counted from an origin that all points of one process share.
#[derive(Debug, Clone, Copy, PartialEq, Eq, PartialOrd, Ord, Structural)]
pub struct Instant {
    pub ns: u64,
}

pub open spec fn secs(n: nat) -> nat {
    n * 1_000_000_000
}

pub open spec fn millis(n: nat) -> nat {
    n * 1_000_000
}

/// How long `t` lies before `now`, which is no time at all where it does not.
pub open spec fn since(now: Instant, t: Instant) -> nat {
    if now.ns >= t.ns {
        (now.ns - t.ns) as nat
    } else {
        0
    }
}

impl Duration {
    pub fn from_secs(n: u32) -> (r: Duration)
        ensures
            r.ns as nat == secs(n as nat),
    {
        Duration { ns: n as u64 * 1_000_000_000 }
    }

    pub fn from_millis(n: u64) -> (r: Duration)
        requires
            millis(n as nat) <= u64::MAX,
        ensures
            r.ns as nat == millis(n as nat),
    {
        Duration { ns: n * 1_000_000 }
    }

    /// Whole milliseconds.
    pub fn as_millis(&self) -> (r: u64)
        ensures
            r as int == self.ns as int / 1_000_000,
    {
        self.ns / 1_000_000
    }

    /// Whole seconds.
    pub fn as_secs(&self) -> (r: u64)
        ensures
            r as int == self.ns as int / 1_000_000_000,
    {
        self.ns / 1_000_000_000
    }
}

impl Instant {
    /// The point that lies `d` behind this one.
    pub fn after(&self, d: Duration) -> (r: Instant)
        requires
            self.ns + d.ns <= u64::MAX,
        ensures
            r.ns == self.ns + d.ns,
    {
        Instant { ns: self.ns + d.ns }
    }

    /// How long `t` lies before this point, and no time at all where it does not.
    pub fn since(&self, t: Instant) -> (r: Duration)
        ensures
            r.ns as nat == since(*self, t),
    {
        if self.ns >= t.ns {
            Duration { ns: self.ns - t.ns }
        } else {
            Duration { ns: 0 }
        }
    }
}

} // verus!
