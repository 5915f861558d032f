//! An insertion-ordered map kept in a `Vec`, for keys that have no hashing
//! model or whose walk order a result depends on.
use vstd::prelude::*;

verus! {

/// Keys that can be compared for equality in executable code.
pub trait MapKey: Copy {
    fn same(&self, other: &Self) -> (r: bool)
        ensures
            r == (*self == *other);
}

impl MapKey for u32 {
    fn same(&self, other: &Self) -> (r: bool) {
        *self == *other
    }
}

impl MapKey for u64 {
    fn same(&self, other: &Self) -> (r: bool) {
        *self == *other
    }
}



/// `entries` lists each key of `map` once, with its value.
pub closed spec fn entries_match<K, V>(entries: Seq<(K, V)>, map: Map<K, V>) -> bool {
    &&& forall|i: int, j: int| 0 <= i < j < entries.len()
        ==> (#[trigger] entries[i]).0 != (#[trigger] entries[j]).0
    &&& forall|i: int| 0 <= i < entries.len()
        ==> map.contains_key((#[trigger] entries[i]).0) && map[entries[i].0] == entries[i].1
    &&& forall|k: K| #[trigger] map.contains_key(k)
        ==> exists|i: int| 0 <= i < entries.len() && (#[trigger] entries[i]).0 == k
}

/// A map that remembers the order in which its keys were first inserted.
/// Its view is the mathematical map; `keys()` gives the insertion order.
#[verifier::reject_recursive_types(K)]
pub struct VecMap<K: MapKey, V> {
    entries: Vec<(K, V)>,
    map: Ghost<Map<K, V>>,
}

impl<K: MapKey, V> View for VecMap<K, V> {
    type V = Map<K, V>;

    closed spec fn view(&self) -> Map<K, V> {
        self.map@
    }
}

impl<K: MapKey, V> VecMap<K, V> {
    #[verifier::type_invariant]
    closed spec fn inv(self) -> bool {
        entries_match(self.entries@, self.map@)
    }

    /// The keys, in the order they were first inserted.
    pub closed spec fn keys(&self) -> Seq<K> {
        self.entries@.map_values(|e: (K, V)| e.0)
    }

    /// The keys list each key of the map exactly once.
    proof fn lemma_keys(&self)
        requires
            self.inv(),
        ensures
            self.keys().no_duplicates(),
            forall|k: K| self@.contains_key(k) <==> #[trigger] self.keys().contains(k),
            self.keys().len() == self@.dom().len(),
            self@.dom().finite(),
    {
        let ks = self.keys();
        assert forall|i: int, j: int| 0 <= i < ks.len() && 0 <= j < ks.len() && i != j implies ks[i] != ks[j] by {
            if i < j {
                assert(self.entries@[i].0 != self.entries@[j].0);
            } else {
                assert(self.entries@[j].0 != self.entries@[i].0);
            }
        }
        assert forall|k: K| self@.contains_key(k) <==> #[trigger] ks.contains(k) by {
            if self@.contains_key(k) {
                let i = choose|i: int| 0 <= i < self.entries@.len() && (#[trigger] self.entries@[i]).0 == k;
                assert(ks[i] == k);
            }
            if ks.contains(k) {
                let i = choose|i: int| 0 <= i < ks.len() && ks[i] == k;
                assert(self.entries@[i].0 == k);
            }
        }
        assert(self@.dom() =~= ks.to_set());
        ks.unique_seq_to_set();
    }

    /// An empty map.
    pub fn new() -> (r: Self)
        ensures
            r@ == Map::<K, V>::empty(),
            r.keys() == Seq::<K>::empty(),
    {
        let r = VecMap { entries: Vec::new(), map: Ghost(Map::empty()) };
        proof {
            assert(r.keys() =~= Seq::<K>::empty());
        }
        r
    }

    /// The number of keys.
    pub fn len(&self) -> (r: usize)
        ensures
            r == self@.dom().len(),
            r == self.keys().len(),
            self.keys().no_duplicates(),
            forall|k: K| self@.contains_key(k) <==> #[trigger] self.keys().contains(k),
            self@.dom().finite(),
    {
        proof {
            use_type_invariant(self);
            self.lemma_keys();
        }
        self.entries.len()
    }

    fn find(&self, k: &K) -> (r: Option<usize>)
        ensures
            r is None <==> !self@.contains_key(*k),
            r matches Some(i) ==> i < self.entries@.len() && self.entries@[i as int].0 == *k,
    {
        proof {
            use_type_invariant(self);
        }
        let mut i: usize = 0;
        while i < self.entries.len()
            invariant
                0 <= i <= self.entries@.len(),
                forall|j: int| 0 <= j < i ==> (#[trigger] self.entries@[j]).0 != *k,
            decreases self.entries@.len() - i,
        {
            if self.entries[i].0.same(k) {
                proof {
                    use_type_invariant(self);
                }
                return Some(i);
            }
            i = i + 1;
        }
        None
    }

    /// Whether `k` is a key.
    pub fn contains_key(&self, k: &K) -> (r: bool)
        ensures
            r == self@.contains_key(*k),
    {
        self.find(k).is_some()
    }

    /// The value at `k`, if any.
    pub fn get(&self, k: &K) -> (r: Option<&V>)
        ensures
            r is Some <==> self@.contains_key(*k),
            r matches Some(v) ==> *v == self@[*k],
    {
        proof {
            use_type_invariant(self);
        }
        match self.find(k) {
            Some(i) => Some(&self.entries[i].1),
            None => None,
        }
    }

    /// The key at position `i` in insertion order.
    pub fn key_at(&self, i: usize) -> (r: K)
        requires
            i < self.keys().len(),
        ensures
            r == self.keys()[i as int],
    {
        self.entries[i].0
    }

    /// The value stored with the key at position `i` in insertion order.
    pub fn value_at(&self, i: usize) -> (r: &V)
        requires
            i < self.keys().len(),
        ensures
            self@.contains_key(self.keys()[i as int]),
            *r == self@[self.keys()[i as int]],
    {
        proof {
            use_type_invariant(self);
        }
        &self.entries[i].1
    }

    /// Maps `k` to `v`. A new key goes last in insertion order; an existing
    /// key keeps its place.
    pub fn insert(&mut self, k: K, v: V)
        ensures
            final(self)@ == old(self)@.insert(k, v),
            old(self)@.contains_key(k) ==> final(self).keys() == old(self).keys(),
            !old(self)@.contains_key(k) ==> final(self).keys() == old(self).keys().push(k),
    {
        proof {
            use_type_invariant(&*self);
        }
        let ghost old_keys = self.keys();
        match self.find(&k) {
            Some(i) => {
                let ghost new_map = self.map@.insert(k, v);
                let ghost old_entries = self.entries@;
                let mut taken = VecMap::new();
                std::mem::swap(&mut taken, self);
                let VecMap { mut entries, map: _ } = taken;
                entries.set(i, (k, v));
                proof {
                    assert forall|a: int, b: int| 0 <= a < b < entries@.len()
                        implies (#[trigger] entries@[a]).0 != (#[trigger] entries@[b]).0 by {
                        assert(old_entries[a].0 != old_entries[b].0);
                    }
                    assert forall|a: int| 0 <= a < entries@.len()
                        implies new_map.contains_key((#[trigger] entries@[a]).0)
                            && new_map[entries@[a].0] == entries@[a].1 by {
                        if a != i {
                            assert(old_entries[a].0 != old_entries[i as int].0);
                        }
                    }
                    assert forall|kk: K| #[trigger] new_map.contains_key(kk)
                        implies exists|a: int| 0 <= a < entries@.len() && (#[trigger] entries@[a]).0 == kk by {
                        if kk != k {
                            let a = choose|a: int| 0 <= a < old_entries.len() && (#[trigger] old_entries[a]).0 == kk;
                            assert(entries@[a].0 == kk);
                        } else {
                            assert(entries@[i as int].0 == kk);
                        }
                    }
                }
                proof {
                    assert(entries_match(entries@, new_map));
                }
                *self = VecMap { entries, map: Ghost(new_map) };
                proof {
                    assert(self.keys() =~= old_keys);
                }
            },
            None => {
                let ghost new_map = self.map@.insert(k, v);
                let ghost old_entries = self.entries@;
                let mut taken = VecMap::new();
                std::mem::swap(&mut taken, self);
                let VecMap { mut entries, map: _ } = taken;
                entries.push((k, v));
                proof {
                    assert forall|a: int, b: int| 0 <= a < b < entries@.len()
                        implies (#[trigger] entries@[a]).0 != (#[trigger] entries@[b]).0 by {
                        if b < old_entries.len() {
                            assert(old_entries[a].0 != old_entries[b].0);
                        } else {
                            assert(old_entries[a] == entries@[a]);
                        }
                    }
                    assert forall|a: int| 0 <= a < entries@.len()
                        implies new_map.contains_key((#[trigger] entries@[a]).0)
                            && new_map[entries@[a].0] == entries@[a].1 by {
                        if a < old_entries.len() {
                            assert(entries@[a] == old_entries[a]);
                        }
                    }
                    assert forall|kk: K| #[trigger] new_map.contains_key(kk)
                        implies exists|a: int| 0 <= a < entries@.len() && (#[trigger] entries@[a]).0 == kk by {
                        if kk != k {
                            let a = choose|a: int| 0 <= a < old_entries.len() && (#[trigger] old_entries[a]).0 == kk;
                            assert(entries@[a].0 == kk);
                        } else {
                            assert(entries@[old_entries.len() as int].0 == kk);
                        }
                    }
                }
                proof {
                    assert(entries_match(entries@, new_map));
                }
                *self = VecMap { entries, map: Ghost(new_map) };
                proof {
                    assert(self.keys() =~= old_keys.push(k));
                }
            },
        }
    }

    /// Removes `k` and returns its value, if it was a key. The other keys
    /// keep their order.
    pub fn remove(&mut self, k: &K) -> (r: Option<V>)
        ensures
            final(self)@ == old(self)@.remove(*k),
            r is Some <==> old(self)@.contains_key(*k),
            r matches Some(v) ==> v == old(self)@[*k],
            !old(self)@.contains_key(*k) ==> final(self).keys() == old(self).keys(),
            old(self)@.contains_key(*k) ==> exists|i: int| 0 <= i < old(self).keys().len()
                && old(self).keys()[i] == *k
                && final(self).keys() == old(self).keys().remove(i),
    {
        proof {
            use_type_invariant(&*self);
        }
        let ghost old_keys = self.keys();
        match self.find(k) {
            Some(i) => {
                let ghost new_map = self.map@.remove(*k);
                let ghost old_entries = self.entries@;
                let mut taken = VecMap::new();
                std::mem::swap(&mut taken, self);
                let VecMap { mut entries, map: _ } = taken;
                let e = entries.remove(i);
                proof {
                    assert(entries@ == old_entries.remove(i as int));
                    assert forall|a: int, b: int| 0 <= a < b < entries@.len()
                        implies (#[trigger] entries@[a]).0 != (#[trigger] entries@[b]).0 by {
                        let oa = if a < i { a } else { a + 1 };
                        let ob = if b < i { b } else { b + 1 };
                        assert(old_entries[oa].0 != old_entries[ob].0);
                    }
                    assert forall|a: int| 0 <= a < entries@.len()
                        implies new_map.contains_key((#[trigger] entries@[a]).0)
                            && new_map[entries@[a].0] == entries@[a].1 by {
                        let oa = if a < i { a } else { a + 1 };
                        assert(entries@[a] == old_entries[oa]);
                        assert(old_entries[oa].0 != old_entries[i as int].0);
                    }
                    assert forall|kk: K| #[trigger] new_map.contains_key(kk)
                        implies exists|a: int| 0 <= a < entries@.len() && (#[trigger] entries@[a]).0 == kk by {
                        let a = choose|a: int| 0 <= a < old_entries.len() && (#[trigger] old_entries[a]).0 == kk;
                        if a < i {
                            assert(entries@[a].0 == kk);
                        } else {
                            assert(entries@[a - 1].0 == kk);
                        }
                    }
                }
                proof {
                    assert(entries_match(entries@, new_map));
                }
                *self = VecMap { entries, map: Ghost(new_map) };
                proof {
                    assert(self.keys() =~= old_keys.remove(i as int));
                    assert(old_keys[i as int] == *k);
                }
                Some(e.1)
            },
            None => {
                proof {
                    assert(self.map@.remove(*k) =~= self.map@);
                }
                None
            },
        }
    }

    /// Removes every key.
    pub fn clear(&mut self)
        ensures
            final(self)@ == Map::<K, V>::empty(),
            final(self).keys() == Seq::<K>::empty(),
    {
        *self = VecMap::new();
    }
}

impl<K: MapKey, V: Copy> VecMap<K, V> {
    /// A copy of the map, with the same keys in the same order.
    pub fn copy(&self) -> (r: Self)
        ensures
            r@ == self@,
            r.keys() == self.keys(),
    {
        proof {
            use_type_invariant(self);
        }
        let mut entries: Vec<(K, V)> = Vec::new();
        let mut i: usize = 0;
        while i < self.entries.len()
            invariant
                0 <= i <= self.entries@.len(),
                entries@ == self.entries@.take(i as int),
            decreases self.entries@.len() - i,
        {
            entries.push(self.entries[i]);
            proof {
                assert(self.entries@.take(i + 1) =~= self.entries@.take(i as int).push(self.entries@[i as int]));
            }
            i = i + 1;
        }
        proof {
            assert(entries@ =~= self.entries@);
        }
        VecMap { entries, map: Ghost(self.map@) }
    }
}

} // verus!
