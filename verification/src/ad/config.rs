//! Configuration of the discovery and gossip subsystems.
use crate::time::Duration;
use vstd::prelude::*;

verus! {

/// Configuration knobs for the discovery and gossip subsystems.
#[derive(Copy, Clone, Debug, PartialEq, Eq, Structural)]
pub struct AdConfig {
    /// Refresh of dynamic fields (load, vram_free, util, mem_available).
    /// Minimum 250 ms.
    pub fast_tick: Duration,
    /// Re-enumeration of static hardware (PCI, GPU list, NUMA, CPU info).
    /// Minimum 5 s.
    pub slow_tick: Duration,
    pub gossip_period: Duration,
    pub peer_grace: Duration,
}

/// What is wrong with a configuration: the tick, and the least it may be.
#[derive(Copy, Clone, Debug, PartialEq, Eq, Structural)]
pub enum AdConfigError {
    FastTickTooLow(Duration, Duration),
    SlowTickTooLow(Duration, Duration),
}

impl AdConfig {
    /// The least fast tick, in nanoseconds.
    pub const MIN_FAST_TICK: u128 = 250_000_000;

    /// The least slow tick, in nanoseconds.
    pub const MIN_SLOW_TICK: u128 = 5_000_000_000;

    /// The configuration's first fault, if it has one.
    pub open spec fn fault(self) -> Option<AdConfigError> {
        if self.fast_tick.nanos < Self::MIN_FAST_TICK {
            Some(AdConfigError::FastTickTooLow(self.fast_tick, Duration { nanos: Self::MIN_FAST_TICK }))
        } else if self.slow_tick.nanos < Self::MIN_SLOW_TICK {
            Some(AdConfigError::SlowTickTooLow(self.slow_tick, Duration { nanos: Self::MIN_SLOW_TICK }))
        } else {
            None
        }
    }

    /// Checks that neither tick is below its minimum.
    pub fn validate(&self) -> (r: Result<(), AdConfigError>)
        ensures
            match self.fault() {
                None => r is Ok,
                Some(e) => r == Err::<(), AdConfigError>(e),
            },
    {
        if self.fast_tick.nanos < Self::MIN_FAST_TICK {
            return Err(AdConfigError::FastTickTooLow(self.fast_tick, Duration { nanos: Self::MIN_FAST_TICK }));
        }
        if self.slow_tick.nanos < Self::MIN_SLOW_TICK {
            return Err(AdConfigError::SlowTickTooLow(self.slow_tick, Duration { nanos: Self::MIN_SLOW_TICK }));
        }
        Ok(())
    }

    /// How often to broadcast the own ad: the gossip period, or ten seconds
    /// where none is set.
    pub fn broadcast_period(&self) -> (d: Duration)
        ensures
            d.nanos == if self.gossip_period.nanos == 0 {
                10_000_000_000
            } else {
                self.gossip_period.nanos
            },
    {
        if self.gossip_period.is_zero() {
            Duration::from_secs(10)
        } else {
            self.gossip_period
        }
    }
}

impl Default for AdConfig {
    fn default() -> (c: Self)
        ensures
            c.fast_tick.nanos == 1_000_000_000,
            c.slow_tick.nanos == 60_000_000_000,
            c.gossip_period.nanos == 10_000_000_000,
            c.peer_grace.nanos == 90_000_000_000,
            c.fault() is None,
    {
        AdConfig {
            fast_tick: Duration::from_secs(1),
            slow_tick: Duration::from_secs(60),
            gossip_period: Duration::from_secs(10),
            peer_grace: Duration::from_secs(90),
        }
    }
}

} // verus!
