//! Virtual clock for controlling simulated time.
use std::time::Duration;
use vstd::prelude::*;
use crate::time::duration::{nanos_of, nanos_u64, duration_from_nanos, duration_nanos_u64};
use crate::time::instant::Instant;

verus! {

/// `a + b` on 64-bit words, wrapping around on overflow.
pub open spec fn wrapping_sum(a: u64, b: u64) -> u64 {
    ((a as int + b as int) % 0x1_0000_0000_0000_0000int) as u64
}

/// A virtual clock for deterministic time simulation.
///
/// The clock starts at zero and only advances when explicitly told to.
#[derive(Debug)]
pub struct Clock {
    current_nanos: u64,
}

impl View for Clock {
    type V = u64;

    closed spec fn view(&self) -> u64 {
        self.current_nanos
    }
}

impl Clock {
    /// Creates a new clock starting at time zero.
    pub fn new() -> (r: Self)
        ensures
            r@ == 0,
    {
        Clock { current_nanos: 0 }
    }

    /// Creates a new clock starting at the given instant.
    pub fn starting_at(instant: Instant) -> (r: Self)
        ensures
            r@ == instant@,
    {
        Clock { current_nanos: instant.as_nanos() }
    }

    /// Returns the current simulated time.
    pub fn now(&self) -> (r: Instant)
        ensures
            r@ == self@,
    {
        Instant::from_nanos(self.current_nanos)
    }

    /// Advances the clock by the given duration (wrapping around on 64-bit
    /// overflow, as an atomic add does).
    pub fn advance(&mut self, duration: Duration)
        ensures
            final(self)@ == wrapping_sum(old(self)@, nanos_u64(duration)),
    {
        let n = duration_nanos_u64(&duration);
        self.current_nanos = self.current_nanos.wrapping_add(n);
    }

    /// Advances the clock to the given instant, which must not be in the past.
    pub fn advance_to(&mut self, instant: Instant)
        requires
            old(self)@ <= instant@,
        ensures
            final(self)@ == instant@,
    {
        self.current_nanos = instant.as_nanos();
    }

    /// Sets the clock to the given instant, even if it is in the past.
    pub fn set(&mut self, instant: Instant)
        ensures
            final(self)@ == instant@,
    {
        self.current_nanos = instant.as_nanos();
    }

    /// Returns the elapsed time since simulation start.
    pub fn elapsed(&self) -> (r: Duration)
        ensures
            nanos_of(r) == self@,
    {
        duration_from_nanos(self.current_nanos)
    }
}

impl Default for Clock {
    fn default() -> (r: Self)
        ensures
            r@ == 0,
    {
        Clock::new()
    }
}

impl Clone for Clock {
    /// An independent clock showing the same time.
    fn clone(&self) -> (r: Self)
        ensures
            r@ == self@,
    {
        Clock { current_nanos: self.current_nanos }
    }
}

} // verus!
