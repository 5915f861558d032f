//! The seeded random number generator of `rand`, as the strategies use it.
use rand::rngs::StdRng;
use rand::{Rng, SeedableRng};
use vstd::prelude::*;

verus! {

#[verifier::external_type_specification]
#[verifier::external_body]
pub struct ExStdRng(StdRng);

/// What `StdRng::seed_from_u64` returns for a seed: the generator's state
/// is a function of the seed alone.
pub uninterp spec fn seeded(seed: u64) -> StdRng;

/// Calls `StdRng::seed_from_u64`.
#[verifier::external_body]
pub fn rng_from_seed(seed: u64) -> (r: StdRng)
    ensures
        r == seeded(seed),
{
    StdRng::seed_from_u64(seed)
}

/// What `gen_range(0..n)` on `usize` gives from a generator state: the
/// drawn index and the generator's next state.
pub uninterp spec fn index_draw(rng: StdRng, n: usize) -> (usize, StdRng);

/// Calls `rng.gen_range(0..n)` for `usize`; rand documents that the value
/// lies in the range (and that an empty range panics, hence `n > 0`).
#[verifier::external_body]
pub fn draw_index(rng: &mut StdRng, n: usize) -> (r: usize)
    requires
        n > 0,
    ensures
        r < n,
        (r, *final(rng)) == index_draw(*old(rng), n),
{
    rng.gen_range(0..n)
}

/// What `gen_range(low..=high)` on `usize` gives from a generator state.
pub uninterp spec fn usize_draw(rng: StdRng, low: usize, high: usize) -> (usize, StdRng);

/// Calls `rng.gen_range(low..=high)` for `usize`; the value lies in the
/// range, which must not be empty.
#[verifier::external_body]
pub fn draw_usize_inclusive(rng: &mut StdRng, low: usize, high: usize) -> (r: usize)
    requires
        low <= high,
    ensures
        low <= r <= high,
        (r, *final(rng)) == usize_draw(*old(rng), low, high),
{
    rng.gen_range(low..=high)
}

/// What `gen_range(low..=high)` on `u64` gives from a generator state.
pub uninterp spec fn u64_draw(rng: StdRng, low: u64, high: u64) -> (u64, StdRng);

/// Calls `rng.gen_range(low..=high)` for `u64`; the value lies in the
/// range, which must not be empty.
#[verifier::external_body]
pub fn draw_u64_inclusive(rng: &mut StdRng, low: u64, high: u64) -> (r: u64)
    requires
        low <= high,
    ensures
        low <= r <= high,
        (r, *final(rng)) == u64_draw(*old(rng), low, high),
{
    rng.gen_range(low..=high)
}

} // verus!
