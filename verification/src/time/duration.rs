//! What the library knows of `std::time::Duration`.
use std::time::Duration;
use vstd::prelude::*;

verus! {

/// What `Duration::as_nanos` returns for a duration: its total length in nanoseconds.
pub uninterp spec fn nanos_of(d: Duration) -> u128;

/// Calls `Duration::as_nanos`; the result is the duration's length in
/// nanoseconds, named `nanos_of`.
#[verifier::external_body]
pub fn duration_as_nanos(d: &Duration) -> (r: u128)
    ensures
        r == nanos_of(*d),
{
    d.as_nanos()
}

/// Calls `Duration::from_nanos`; std documents that the result is a duration
/// of exactly `nanos` nanoseconds.
#[verifier::external_body]
pub fn duration_from_nanos(nanos: u64) -> (d: Duration)
    ensures
        nanos_of(d) == nanos as u128,
{
    Duration::from_nanos(nanos)
}

/// `Duration` is `Copy`, so its `clone` gives back an equal duration.
pub assume_specification[ <Duration as Clone>::clone ](d: &Duration) -> (r: Duration)
    ensures
        r == *d,
;

/// The low 64 bits of a duration's length in nanoseconds, as the simulator
/// reads it (`as_nanos() as u64`).
pub open spec fn nanos_u64(d: Duration) -> u64 {
    nanos_of(d) as u64
}

/// Reads a duration's length in nanoseconds, keeping the low 64 bits as the
/// simulator does everywhere.
pub fn duration_nanos_u64(d: &Duration) -> (r: u64)
    ensures
        r == nanos_u64(*d),
{
    let n = duration_as_nanos(d);
    n as u64
}

/// Calls `Duration::from_secs`; std documents the result as `secs` seconds.
#[verifier::external_body]
pub fn duration_from_secs(secs: u64) -> (d: Duration)
    ensures
        nanos_of(d) == secs as u128 * 1_000_000_000,
{
    Duration::from_secs(secs)
}

/// Calls `Duration::from_millis`; std documents the result as `millis`
/// milliseconds.
#[verifier::external_body]
pub fn duration_from_millis(millis: u64) -> (d: Duration)
    ensures
        nanos_of(d) == millis as u128 * 1_000_000,
{
    Duration::from_millis(millis)
}

/// Calls `Duration::from_micros`; std documents the result as `micros`
/// microseconds.
#[verifier::external_body]
pub fn duration_from_micros(micros: u64) -> (d: Duration)
    ensures
        nanos_of(d) == micros as u128 * 1_000,
{
    Duration::from_micros(micros)
}

} // verus!
