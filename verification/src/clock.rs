//! Simulation clocks: the tick source the engine consults.
//!
//! The simulation never reads real time; ticks advance only through these
//! types.  `UnlimitedClock` runs as fast as the caller drives it and is the
//! reference semantics.  `FixedStepClock` adds rate limiting: the caller
//! supplies a monotonic now-timestamp in nanoseconds, so the pacing
//! decision itself stays a pure function.

use vstd::prelude::*;

use crate::types::{SimTime, Tick};

verus! {

/// A tick source: where the simulation currently stands in time, and how
/// it moves.
pub trait ISimClock {
    /// The clock's current tick.
    spec fn tick_spec(&self) -> Tick;

    /// Get the current simulation tick.
    fn current_tick(&self) -> (t: Tick)
        ensures
            t == self.tick_spec(),
    ;

    /// Get the current simulated time.
    fn sim_time(&self) -> (t: SimTime)
        ensures
            t.units == self.tick_spec().0,
    ;

    /// Advance to the next tick and return it; saturates at the largest
    /// representable tick.
    fn advance(&mut self) -> (t: Tick)
        ensures
            t == final(self).tick_spec(),
            final(self).tick_spec().0 == if old(self).tick_spec().0 == u64::MAX {
                u64::MAX as int
            } else {
                old(self).tick_spec().0 + 1
            },
    ;

    /// Set the tick directly (for loading saved state).
    fn set_tick(&mut self, tick: Tick)
        ensures
            final(self).tick_spec() == tick,
    ;

    /// Whether the next tick may be processed now; a clock without rate
    /// limiting always says yes.
    fn should_tick(&self) -> bool;
}

/// A clock without rate limiting, for headless simulation: always ready.
#[derive(Debug)]
pub struct UnlimitedClock {
    /// The current tick.
    pub current_tick: Tick,
}

impl UnlimitedClock {
    /// Create a clock standing at the genesis tick.
    pub fn new() -> (r: UnlimitedClock)
        ensures
            r.current_tick.0 == 0,
    {
        UnlimitedClock { current_tick: Tick(0) }
    }
}

impl Default for UnlimitedClock {
    fn default() -> (r: UnlimitedClock)
        ensures
            r.current_tick.0 == 0,
    {
        UnlimitedClock { current_tick: Tick(0) }
    }
}

impl ISimClock for UnlimitedClock {
    open spec fn tick_spec(&self) -> Tick {
        self.current_tick
    }

    fn current_tick(&self) -> (t: Tick) {
        self.current_tick
    }

    fn sim_time(&self) -> (t: SimTime) {
        SimTime::from_ticks(self.current_tick)
    }

    fn advance(&mut self) -> (t: Tick) {
        self.current_tick = self.current_tick.next();
        self.current_tick
    }

    fn set_tick(&mut self, tick: Tick) {
        self.current_tick = tick;
    }

    fn should_tick(&self) -> (b: bool)
        ensures
            b,
    {
        true
    }
}

/// How many nanoseconds one second holds.
pub const NANOS_PER_SECOND: u64 = 1_000_000_000;

/// A clock that paces ticks at a fixed rate.
///
/// The tick value itself advances deterministically; real time enters only
/// through the now-timestamps the caller passes to the pacing queries, so
/// rate limiting never touches the simulation's own state.
#[derive(Debug)]
pub struct FixedStepClock {
    /// The current tick.
    pub current_tick: Tick,
    /// The target interval between ticks, in nanoseconds.
    pub tick_interval_nanos: u64,
    /// The caller-supplied timestamp of the last tick, if any.
    pub last_tick_nanos: Option<u64>,
}

impl FixedStepClock {
    /// Create a fixed-step clock from a rate in ticks per second.
    pub fn new(ticks_per_second: u32) -> (r: FixedStepClock)
        requires
            ticks_per_second >= 1,
        ensures
            r.current_tick.0 == 0,
            r.tick_interval_nanos == NANOS_PER_SECOND / (ticks_per_second as u64),
            r.last_tick_nanos is None,
    {
        FixedStepClock {
            current_tick: Tick(0),
            tick_interval_nanos: NANOS_PER_SECOND / (ticks_per_second as u64),
            last_tick_nanos: None,
        }
    }

    /// A clock at 20 ticks per second, a typical simulation rate.
    pub fn default_rate() -> (r: FixedStepClock)
        ensures
            r.current_tick.0 == 0,
            r.tick_interval_nanos == NANOS_PER_SECOND / 20,
            r.last_tick_nanos is None,
    {
        FixedStepClock::new(20)
    }

    /// The clock's current tick.
    pub fn current_tick(&self) -> (t: Tick)
        ensures
            t == self.current_tick,
    {
        self.current_tick
    }

    /// The current simulated time.
    pub fn sim_time(&self) -> (t: SimTime)
        ensures
            t.units == self.current_tick.0,
    {
        SimTime::from_ticks(self.current_tick)
    }

    /// Advance to the next tick, recording the caller's timestamp for
    /// pacing.
    pub fn advance_at(&mut self, now_nanos: u64) -> (t: Tick)
        ensures
            t == final(self).current_tick,
            final(self).current_tick.0 == if old(self).current_tick.0 == u64::MAX {
                u64::MAX as int
            } else {
                old(self).current_tick.0 + 1
            },
            final(self).last_tick_nanos == Some(now_nanos),
            final(self).tick_interval_nanos == old(self).tick_interval_nanos,
    {
        self.current_tick = self.current_tick.next();
        self.last_tick_nanos = Some(now_nanos);
        self.current_tick
    }

    /// Set the tick directly (for loading saved state); forgets pacing.
    pub fn set_tick(&mut self, tick: Tick)
        ensures
            final(self).current_tick == tick,
            final(self).last_tick_nanos is None,
            final(self).tick_interval_nanos == old(self).tick_interval_nanos,
    {
        self.current_tick = tick;
        self.last_tick_nanos = None;
    }

    /// Whether enough real time has passed for the next tick, judged
    /// against the caller's timestamp.
    pub fn should_tick_at(&self, now_nanos: u64) -> (b: bool)
        ensures
            b == match self.last_tick_nanos {
                None => true,
                Some(last) => now_nanos >= last && now_nanos - last
                    >= self.tick_interval_nanos,
            },
    {
        match self.last_tick_nanos {
            None => true,
            Some(last) => now_nanos >= last && now_nanos - last >= self.tick_interval_nanos,
        }
    }

    /// How long to wait, from the caller's timestamp, until the next tick
    /// is due; zero when it is already due.
    pub fn wait_nanos_at(&self, now_nanos: u64) -> (r: u64)
        ensures
            r == match self.last_tick_nanos {
                None => 0int,
                Some(last) => if now_nanos >= last && now_nanos - last
                    >= self.tick_interval_nanos {
                    0int
                } else if now_nanos < last {
                    self.tick_interval_nanos as int
                } else {
                    self.tick_interval_nanos - (now_nanos - last)
                },
            },
    {
        match self.last_tick_nanos {
            None => 0,
            Some(last) => {
                if now_nanos < last {
                    self.tick_interval_nanos
                } else if now_nanos - last >= self.tick_interval_nanos {
                    0
                } else {
                    self.tick_interval_nanos - (now_nanos - last)
                }
            },
        }
    }
}

} // verus!
