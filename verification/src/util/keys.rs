//! The keys of a hash map keyed by small integers, listed once each.
use std::collections::{HashMap, HashSet};
use vstd::prelude::*;
use vstd::std_specs::hash::{spec_hash_keys_iter, spec_keys_iter};
use vstd::std_specs::iter::IteratorSpec;

verus! {

broadcast use vstd::std_specs::hash::group_hash_axioms;

/// The keys of `m`, each once, in the order the map walks them.
pub fn key_list<V>(m: &HashMap<u32, V>) -> (r: Vec<u32>)
    ensures
        r@.no_duplicates(),
        forall|k: u32| m@.contains_key(k) <==> #[trigger] r@.contains(k),
        r@.len() == m@.dom().len(),
{
    let ghost keys = spec_keys_iter(m).remaining().unref();
    let mut out: Vec<u32> = Vec::new();
    for k in it: m.keys()
        invariant
            it.seq().unref() == keys,
            keys.no_duplicates(),
            keys.to_set() == m@.dom(),
            keys.len() == m@.dom().len(),
            out@ == keys.take(it.index() as int),
    {
        out.push(*k);
        proof {
            assert(out@ =~= keys.take(it.index() + 1));
        }
    }
    proof {
        assert(out@ =~= keys);
        assert forall|k: u32| m@.contains_key(k) <==> #[trigger] out@.contains(k) by {
            assert(keys.to_set().contains(k) == keys.contains(k));
        }
    }
    out
}

/// The members of `s`, each once, in the order the set walks them.
pub fn set_list(s: &HashSet<u32>) -> (r: Vec<u32>)
    ensures
        r@.no_duplicates(),
        r@.to_set() == s@,
        forall|k: u32| s@.contains(k) <==> #[trigger] r@.contains(k),
{
    let ghost items = spec_hash_keys_iter(s).remaining().unref();
    let mut out: Vec<u32> = Vec::new();
    for k in it: s.iter()
        invariant
            it.seq().unref() == items,
            items.no_duplicates(),
            items.to_set() == s@,
            out@ == items.take(it.index() as int),
    {
        out.push(*k);
        proof {
            assert(out@ =~= items.take(it.index() + 1));
        }
    }
    proof {
        assert(out@ =~= items);
        assert forall|k: u32| s@.contains(k) <==> #[trigger] out@.contains(k) by {
            assert(items.to_set().contains(k) == items.contains(k));
        }
    }
    out
}

} // verus!
