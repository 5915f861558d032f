//! Virtual instant representing a point in simulated time.
use std::ops::{Add, Sub};
use std::time::Duration;
use vstd::prelude::*;
use vstd::std_specs::ops::{AddSpecImpl, SubSpecImpl};
use crate::time::duration::{duration_as_nanos, duration_from_nanos, nanos_of};

verus! {

/// A point in simulated time, measured in nanoseconds since simulation start.
#[derive(Debug, Clone, Copy, PartialEq, Eq, PartialOrd, Ord, Hash, Structural)]
pub struct Instant(pub u64);

impl View for Instant {
    type V = u64;

    open spec fn view(&self) -> u64 {
        self.0
    }
}

impl Default for Instant {
    /// The start of the simulation.
    fn default() -> (r: Self)
        ensures
            r@ == 0,
    {
        Instant(0)
    }
}

impl Instant {
    /// Creates a new instant at the given nanoseconds.
    pub fn from_nanos(nanos: u64) -> (r: Self)
        ensures
            r@ == nanos,
    {
        Instant(nanos)
    }

    /// Returns the number of nanoseconds since simulation start.
    pub fn as_nanos(&self) -> (r: u64)
        ensures
            r == self@,
    {
        self.0
    }

    /// Returns the duration elapsed from `earlier` to this instant, or `None`
    /// if `earlier` is after this instant.
    pub fn duration_since(&self, earlier: Instant) -> (r: Option<Duration>)
        ensures
            r is Some <==> earlier@ <= self@,
            r matches Some(d) ==> nanos_of(d) == self@ - earlier@,
    {
        if earlier.0 <= self.0 {
            Some(duration_from_nanos(self.0 - earlier.0))
        } else {
            None
        }
    }

    /// Adds a duration to this instant, returning `None` on overflow: when
    /// the instant plus the duration's whole length passes `u64::MAX`.
    pub fn checked_add(&self, duration: Duration) -> (r: Option<Instant>)
        ensures
            r is Some <==> self@ + nanos_of(duration) <= u64::MAX,
            r matches Some(i) ==> i@ == self@ + nanos_of(duration),
    {
        let n = duration_as_nanos(&duration);
        if n <= (u64::MAX - self.0) as u128 {
            Some(Instant(self.0 + n as u64))
        } else {
            None
        }
    }

    /// Subtracts a duration from this instant, returning `None` on underflow:
    /// when the duration is longer than the instant.
    pub fn checked_sub(&self, duration: Duration) -> (r: Option<Instant>)
        ensures
            r is Some <==> nanos_of(duration) <= self@,
            r matches Some(i) ==> i@ == self@ - nanos_of(duration),
    {
        let n = duration_as_nanos(&duration);
        if n <= self.0 as u128 {
            Some(Instant(self.0 - n as u64))
        } else {
            None
        }
    }

    /// Saturating addition of a duration.
    pub fn saturating_add(&self, duration: Duration) -> (r: Instant)
        ensures
            r@ == (if self@ + nanos_of(duration) <= u64::MAX {
                self@ + nanos_of(duration)
            } else {
                u64::MAX as int
            }),
    {
        let n = duration_as_nanos(&duration);
        if n <= (u64::MAX - self.0) as u128 {
            Instant(self.0 + n as u64)
        } else {
            Instant(u64::MAX)
        }
    }

    /// Saturating subtraction of a duration.
    pub fn saturating_sub(&self, duration: Duration) -> (r: Instant)
        ensures
            r@ == (if nanos_of(duration) <= self@ {
                self@ - nanos_of(duration)
            } else {
                0
            }),
    {
        let n = duration_as_nanos(&duration);
        if n <= self.0 as u128 {
            Instant(self.0 - n as u64)
        } else {
            Instant(0)
        }
    }
}

impl Add<Duration> for Instant {
    type Output = Instant;

    /// Moves the instant forward; the sum must fit in 64 bits.
    fn add(self, rhs: Duration) -> (r: Instant) {
        let n = duration_as_nanos(&rhs);
        Instant(self.0 + n as u64)
    }
}

impl AddSpecImpl<Duration> for Instant {
    open spec fn obeys_add_spec() -> bool {
        true
    }

    open spec fn add_req(self, rhs: Duration) -> bool {
        self@ + nanos_of(rhs) <= u64::MAX
    }

    open spec fn add_spec(self, rhs: Duration) -> Instant {
        Instant((self@ + nanos_of(rhs)) as u64)
    }
}

impl Sub<Duration> for Instant {
    type Output = Instant;

    /// Moves the instant backward; the duration must not exceed the instant.
    fn sub(self, rhs: Duration) -> (r: Instant) {
        let n = duration_as_nanos(&rhs);
        Instant(self.0 - n as u64)
    }
}

impl SubSpecImpl<Duration> for Instant {
    open spec fn obeys_sub_spec() -> bool {
        true
    }

    open spec fn sub_req(self, rhs: Duration) -> bool {
        nanos_of(rhs) <= self@
    }

    open spec fn sub_spec(self, rhs: Duration) -> Instant {
        Instant((self@ - nanos_of(rhs)) as u64)
    }
}

impl Sub<Instant> for Instant {
    type Output = Duration;

    /// The time elapsed from `rhs` to `self`; `rhs` must not be later.
    fn sub(self, rhs: Instant) -> (r: Duration)
        ensures
            nanos_of(r) == self@ - rhs@,
    {
        duration_from_nanos(self.0 - rhs.0)
    }
}

impl SubSpecImpl<Instant> for Instant {
    /// A `Duration` has no value Verus can name, so the result is stated by
    /// the `ensures` of `sub` alone.
    open spec fn obeys_sub_spec() -> bool {
        false
    }

    open spec fn sub_req(self, rhs: Instant) -> bool {
        rhs@ <= self@
    }

    open spec fn sub_spec(self, rhs: Instant) -> Duration {
        arbitrary()
    }
}

} // verus!
