//! Lists of task ids: membership, position and removal.
use vstd::prelude::*;

verus! {

/// `v` without any occurrence of `x`, in the original order.
pub open spec fn without_id(v: Seq<u32>, x: u32) -> Seq<u32> {
    v.filter(ne_id(x))
}

/// The test "differs from `x`".
pub open spec fn ne_id(x: u32) -> spec_fn(u32) -> bool {
    |y: u32| y != x
}

/// `x` occurs in `v`.
pub fn contains_id(v: &[u32], x: u32) -> (r: bool)
    ensures
        r == v@.contains(x),
{
    let mut i: usize = 0;
    while i < v.len()
        invariant
            0 <= i <= v@.len(),
            forall|j: int| 0 <= j < i ==> v@[j] != x,
        decreases v@.len() - i,
    {
        if v[i] == x {
            proof {
                assert(v@.contains(v@[i as int]));
            }
            return true;
        }
        i = i + 1;
    }
    false
}

/// Where `x` first occurs in `v`, if it does.
pub fn position_of_id(v: &[u32], x: u32) -> (r: Option<usize>)
    ensures
        r is None <==> !v@.contains(x),
        r matches Some(j) ==> j < v@.len() && v@[j as int] == x
            && forall|k: int| 0 <= k < j ==> v@[k] != x,
{
    let mut i: usize = 0;
    while i < v.len()
        invariant
            0 <= i <= v@.len(),
            forall|j: int| 0 <= j < i ==> v@[j] != x,
        decreases v@.len() - i,
    {
        if v[i] == x {
            return Some(i);
        }
        i = i + 1;
    }
    None
}

/// Removes every occurrence of `x` from `v`, keeping the order of the rest.
pub fn remove_id(v: &mut Vec<u32>, x: u32)
    ensures
        final(v)@ == without_id(old(v)@, x),
{
    let ghost p = ne_id(x);
    let mut out: Vec<u32> = Vec::new();
    let mut i: usize = 0;
    while i < v.len()
        invariant
            0 <= i <= v@.len(),
            v@ == old(v)@,
            p == ne_id(x),
            out@ == v@.take(i as int).filter(p),
        decreases v@.len() - i,
    {
        proof {
            reveal(Seq::filter);
            assert(v@.take(i + 1).drop_last() =~= v@.take(i as int));
        }
        if v[i] != x {
            out.push(v[i]);
        }
        i = i + 1;
    }
    proof {
        assert(v@.take(v@.len() as int) =~= v@);
    }
    *v = out;
}

/// Removing an item from a list without repeats leaves none.
pub proof fn lemma_without_unique(v: Seq<u32>, x: u32)
    requires
        v.no_duplicates(),
    ensures
        without_id(v, x).no_duplicates(),
        forall|y: u32| #[trigger] without_id(v, x).contains(y) <==> (v.contains(y) && y != x),
        !v.contains(x) ==> without_id(v, x) == v,
    decreases v.len(),
{
    reveal(Seq::filter);
    if v.len() > 0 {
        let w = v.drop_last();
        assert(w.no_duplicates()) by {
            assert forall|a: int, b: int| 0 <= a < w.len() && 0 <= b < w.len() && a != b implies w[a] != w[b] by {
                assert(v[a] != v[b]);
            }
        }
        lemma_without_unique(w, x);
        let fw = without_id(w, x);
        let l = v.last();
        assert(!w.contains(l)) by {
            if w.contains(l) {
                let a = choose|a: int| 0 <= a < w.len() && w[a] == l;
                assert(v[a] == v[v.len() - 1]);
            }
        }
        assert forall|y: u32| #[trigger] without_id(v, x).contains(y) <==> (v.contains(y) && y != x) by {
            if v.contains(y) && y != x {
                let a = choose|a: int| 0 <= a < v.len() && v[a] == y;
                if a < v.len() - 1 {
                    assert(w[a] == y);
                    assert(fw.contains(y));
                    let b = choose|b: int| 0 <= b < fw.len() && fw[b] == y;
                    if l != x {
                        assert(without_id(v, x) == fw.push(l));
                        assert(without_id(v, x)[b] == y);
                    }
                } else {
                    assert(without_id(v, x) == fw.push(l));
                    assert(without_id(v, x)[fw.len() as int] == y);
                }
            }
            if without_id(v, x).contains(y) {
                let b = choose|b: int| 0 <= b < without_id(v, x).len() && without_id(v, x)[b] == y;
                if l != x && b == fw.len() {
                    assert(y == l);
                    assert(v[v.len() - 1] == y);
                } else {
                    if l != x {
                        assert(without_id(v, x) == fw.push(l));
                    }
                    assert(fw[b] == y);
                    assert(fw.contains(y));
                    let a = choose|a: int| 0 <= a < w.len() && w[a] == y;
                    assert(v[a] == y);
                }
            }
        }
        if l != x {
            let r = fw.push(l);
            assert(without_id(v, x) == r);
            assert forall|a: int, b: int| 0 <= a < r.len() && 0 <= b < r.len() && a != b implies r[a] != r[b] by {
                if a == fw.len() {
                    assert(fw.contains(fw[b]));
                } else if b == fw.len() {
                    assert(fw.contains(fw[a]));
                }
            }
        }
        if !v.contains(x) {
            assert(!w.contains(x)) by {
                if w.contains(x) {
                    let a = choose|a: int| 0 <= a < w.len() && w[a] == x;
                    assert(v[a] == x);
                }
            }
            assert(v.last() != x) by {
                assert(v[v.len() - 1] == v.last());
            }
            assert(v == w.push(l));
        }
    } else {
        assert(without_id(v, x) =~= v);
    }
}

} // verus!

verus! {

/// Every item left after removing `x` was in the list, and is not `x`.
pub proof fn lemma_without_subset(v: Seq<u32>, x: u32)
    ensures
        forall|i: int| 0 <= i < without_id(v, x).len() ==> v.contains(#[trigger] without_id(v, x)[i]) && without_id(v, x)[i] != x,
    decreases v.len(),
{
    reveal(Seq::filter);
    if v.len() > 0 {
        let w = v.drop_last();
        lemma_without_subset(w, x);
        let fw = without_id(w, x);
        assert forall|i: int| 0 <= i < without_id(v, x).len() implies v.contains(#[trigger] without_id(v, x)[i]) && without_id(v, x)[i] != x by {
            if v.last() != x {
                assert(without_id(v, x) == fw.push(v.last()));
                if i == fw.len() {
                    assert(v[v.len() - 1] == without_id(v, x)[i]);
                } else {
                    assert(without_id(v, x)[i] == fw[i]);
                    let a = choose|a: int| 0 <= a < w.len() && w[a] == fw[i];
                    assert(v[a] == fw[i]);
                }
            } else {
                assert(without_id(v, x) == fw);
                let a = choose|a: int| 0 <= a < w.len() && w[a] == fw[i];
                assert(v[a] == fw[i]);
            }
        }
    }
}

} // verus!
