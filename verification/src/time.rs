//! Lengths of time.

use vstd::prelude::*;

verus! {

/// The number of nanoseconds in a second.
pub const NANOS_PER_SECOND: u32 = 1_000_000_000;

/// A length of time: whole seconds, and the nanoseconds beyond them.
#[derive(Debug, Clone, Copy, PartialEq, Eq, Structural)]
pub struct Duration {
    pub seconds: u64,
    pub nanos: u32,
}

impl Duration {
    /// The nanoseconds make less than a second.
    pub open spec fn wf(self) -> bool {
        self.nanos < NANOS_PER_SECOND
    }

    /// The length in nanoseconds.
    pub open spec fn total_nanos(self) -> nat {
        (self.seconds * NANOS_PER_SECOND + self.nanos) as nat
    }

    /// No time at all.
    pub fn zero() -> (duration: Duration)
        ensures
            duration.wf(),
            duration.total_nanos() == 0,
    {
        Duration { seconds: 0, nanos: 0 }
    }

    /// A number of whole seconds.
    pub fn from_secs(seconds: u64) -> (duration: Duration)
        ensures
            duration.wf(),
            duration == (Duration { seconds, nanos: 0 }),
    {
        Duration { seconds, nanos: 0 }
    }

    /// A number of milliseconds.
    pub fn from_millis(millis: u64) -> (duration: Duration)
        ensures
            duration.wf(),
            duration.total_nanos() == millis * 1_000_000,
    {
        Duration { seconds: millis / 1000, nanos: (millis % 1000) as u32 * 1_000_000 }
    }

    /// One length of time after another.
    pub fn plus(self, other: Duration) -> (sum: Duration)
        requires
            self.wf(),
            other.wf(),
            self.total_nanos() + other.total_nanos() < 0x1_0000_0000_0000_0000 * NANOS_PER_SECOND,
        ensures
            sum.wf(),
            sum.total_nanos() == self.total_nanos() + other.total_nanos(),
    {
        let nanos: u32 = self.nanos + other.nanos;
        if nanos >= NANOS_PER_SECOND {
            Duration {
                seconds: self.seconds + other.seconds + 1,
                nanos: nanos - NANOS_PER_SECOND,
            }
        } else {
            Duration { seconds: self.seconds + other.seconds, nanos }
        }
    }
}

} // verus!
