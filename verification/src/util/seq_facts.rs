//! Facts about sequences that the simulator's proofs share.
use vstd::prelude::*;
use vstd::set_lib::lemma_len_subset;

verus! {

/// A sequence without repeats, all of whose items occur in `b`, is no
/// longer than `b`.
pub proof fn lemma_unique_subseq_len<T>(a: Seq<T>, b: Seq<T>)
    requires
        a.no_duplicates(),
        forall|i: int| 0 <= i < a.len() ==> b.contains(#[trigger] a[i]),
    ensures
        a.len() <= b.len(),
{
    a.unique_seq_to_set();
    b.lemma_cardinality_of_set();
    assert forall|x: T| a.to_set().contains(x) implies b.to_set().contains(x) by {
        let i = choose|i: int| 0 <= i < a.len() && a[i] == x;
        assert(b.contains(a[i]));
    }
    lemma_len_subset(a.to_set(), b.to_set());
}

} // verus!

verus! {

/// `out` holds, once each, exactly the items among the first `i` of `keys`
/// that satisfy `p`.
pub open spec fn collected<T>(out: Seq<T>, keys: Seq<T>, i: int, p: spec_fn(T) -> bool) -> bool {
    &&& out.no_duplicates()
    &&& forall|t: T| out.contains(t) <==> (exists|j: int| 0 <= j < i && #[trigger] keys[j] == t && p(t))
}

/// Looking at the next key of a list without repeats keeps `collected`:
/// push it when it satisfies `p`, skip it otherwise.
pub proof fn lemma_collect_step<T>(out: Seq<T>, keys: Seq<T>, i: int, p: spec_fn(T) -> bool)
    requires
        0 <= i < keys.len(),
        keys.no_duplicates(),
        collected(out, keys, i, p),
    ensures
        p(keys[i]) ==> collected(out.push(keys[i]), keys, i + 1, p),
        !p(keys[i]) ==> collected(out, keys, i + 1, p),
{
    let k = keys[i];
    if p(k) {
        assert(!out.contains(k)) by {
            if out.contains(k) {
                let j = choose|j: int| 0 <= j < i && #[trigger] keys[j] == k && p(k);
                assert(keys[j] == keys[i]);
            }
        }
        let o2 = out.push(k);
        assert forall|a: int, b: int| 0 <= a < o2.len() && 0 <= b < o2.len() && a != b implies o2[a] != o2[b] by {
            if a == out.len() {
                assert(out.contains(out[b]));
            } else if b == out.len() {
                assert(out.contains(out[a]));
            }
        }
        assert forall|t: T| o2.contains(t) <==> (exists|j: int| 0 <= j < i + 1 && #[trigger] keys[j] == t && p(t)) by {
            if t == k {
                assert(o2[out.len() as int] == k);
            } else {
                if o2.contains(t) {
                    let a = choose|a: int| 0 <= a < o2.len() && o2[a] == t;
                    assert(o2[out.len() as int] == k);
                    assert(a != out.len());
                    assert(out[a] == t);
                    assert(out.contains(t));
                }
                if exists|j: int| 0 <= j < i + 1 && #[trigger] keys[j] == t && p(t) {
                    assert(out.contains(t));
                    let a = choose|a: int| 0 <= a < out.len() && out[a] == t;
                    assert(o2[a] == t);
                }
            }
        }
    } else {
        assert forall|t: T| out.contains(t) <==> (exists|j: int| 0 <= j < i + 1 && #[trigger] keys[j] == t && p(t)) by {
            if exists|j: int| 0 <= j < i + 1 && #[trigger] keys[j] == t && p(t) {
                let j = choose|j: int| 0 <= j < i + 1 && #[trigger] keys[j] == t && p(t);
                assert(j != i);
            }
        }
    }
}

} // verus!

verus! {

/// Pushing an item adds it to the set of items.
pub proof fn lemma_push_to_set<T>(s: Seq<T>, x: T)
    ensures
        s.push(x).to_set() == s.to_set().insert(x),
{
    let t = s.push(x);
    assert forall|y: T| t.to_set().contains(y) <==> s.to_set().insert(x).contains(y) by {
        if t.contains(y) && y != x {
            let a = choose|a: int| 0 <= a < t.len() && t[a] == y;
            assert(s[a] == y);
            assert(s.contains(y));
        }
        if s.contains(y) {
            let a = choose|a: int| 0 <= a < s.len() && s[a] == y;
            assert(t[a] == y);
            assert(t.contains(y));
        }
        if y == x {
            assert(t[s.len() as int] == y);
            assert(t.contains(y));
        }
    }
    assert(t.to_set() =~= s.to_set().insert(x));
}

} // verus!
