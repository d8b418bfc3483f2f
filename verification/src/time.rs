//! Spans of time, in nanoseconds.
use vstd::prelude::*;

verus! {

/// A span of time. Where a point in time is meant, it is the span since the
/// daemon started.
#[derive(Copy, Clone, Debug, PartialEq, Eq, PartialOrd, Ord, Hash, Structural)]
pub struct Duration {
    pub nanos: u128,
}

impl Duration {
    pub fn from_millis(ms: u64) -> (d: Self)
        ensures
            d.nanos == ms * 1_000_000,
    {
        Duration { nanos: ms as u128 * 1_000_000 }
    }

    pub fn from_secs(s: u64) -> (d: Self)
        ensures
            d.nanos == s * 1_000_000_000,
    {
        Duration { nanos: s as u128 * 1_000_000_000 }
    }

    pub fn is_zero(&self) -> (r: bool)
        ensures
            r == (self.nanos == 0),
    {
        self.nanos == 0
    }
}

} // verus!
