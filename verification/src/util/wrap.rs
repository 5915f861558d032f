//! Sums that wrap around, as unchecked integer additions do in release builds.
use vstd::prelude::*;

verus! {

/// One step of a wrapping sum: adding `x` to a running value that is `s`
/// modulo `m` gives `s + x` modulo `m`.
pub proof fn lemma_wrap_step(s: int, acc: int, x: int, m: int)
    requires
        m > 0,
        s >= 0,
        0 <= x < m,
        acc == s % m,
    ensures
        (if acc + x >= m { acc + x - m } else { acc + x }) == (s + x) % m,
{
    vstd::arithmetic::div_mod::lemma_add_mod_noop(s, x, m);
    vstd::arithmetic::div_mod::lemma_small_mod(x as nat, m as nat);
    vstd::arithmetic::div_mod::lemma_mod_bound(s, m);
    if acc + x >= m {
        vstd::arithmetic::div_mod::lemma_mod_sub_multiples_vanish(acc + x, m);
        vstd::arithmetic::div_mod::lemma_small_mod((acc + x - m) as nat, m as nat);
    } else {
        vstd::arithmetic::div_mod::lemma_small_mod((acc + x) as nat, m as nat);
    }
}

} // verus!
