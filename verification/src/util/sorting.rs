//! Sorting through std.
use vstd::prelude::*;

verus! {

/// `s` is in non-decreasing order.
pub open spec fn sorted_u64(s: Seq<u64>) -> bool {
    forall|i: int, j: int| 0 <= i <= j < s.len() ==> s[i] <= s[j]
}

/// Calls `slice::sort` on a vector of `u64`; std documents that the
/// result is the same items in non-decreasing order.
#[verifier::external_body]
pub fn sort_u64(v: &mut Vec<u64>)
    ensures
        sorted_u64(final(v)@),
        final(v)@.to_multiset() == old(v)@.to_multiset(),
{
    v.sort();
}

} // verus!
