//! Deadlock detection on a graph of tasks waiting for each other.
use vstd::prelude::*;
use crate::TaskId;
use std::collections::{HashMap, HashSet};
use crate::util::keys::{key_list, set_list};
use crate::util::seq_facts::lemma_unique_subseq_len;

verus! {

broadcast use vstd::std_specs::hash::group_hash_axioms;

/// `v` with `x` taken out.
pub open spec fn without(v: Seq<TaskId>, x: TaskId) -> Seq<TaskId> {
    v.filter(|y: TaskId| y != x)
}

/// `p` is a walk along wait edges of `g`: non-empty, and each task waits
/// for the next.
pub open spec fn is_walk(g: Map<TaskId, Set<TaskId>>, p: Seq<TaskId>) -> bool {
    &&& p.len() >= 1
    &&& forall|i: int| 0 <= i < p.len() - 1 ==> g.contains_key(#[trigger] p[i]) && g[p[i]].contains(p[i + 1])
}

/// `c` is a cycle of `g`: a walk of at least one edge that ends where it began.
pub open spec fn is_cycle(g: Map<TaskId, Set<TaskId>>, c: Seq<TaskId>) -> bool {
    &&& c.len() >= 2
    &&& is_walk(g, c)
    &&& c[0] == c[c.len() - 1]
}

/// `g` has no cycle.
pub open spec fn acyclic(g: Map<TaskId, Set<TaskId>>) -> bool {
    forall|c: Seq<TaskId>| !#[trigger] is_cycle(g, c)
}

/// `to` can be reached from `from` along wait edges of `g` (every task
/// reaches itself).
pub open spec fn reaches(g: Map<TaskId, Set<TaskId>>, from: TaskId, to: TaskId) -> bool {
    exists|p: Seq<TaskId>| #[trigger] is_walk(g, p) && p[0] == from && p[p.len() - 1] == to
}

/// `g` with the wait of `w` for `h` added.
pub open spec fn with_wait(g: Map<TaskId, Set<TaskId>>, w: TaskId, h: TaskId) -> Map<TaskId, Set<TaskId>> {
    g.insert(w, (if g.contains_key(w) { g[w] } else { Set::empty() }).insert(h))
}

/// `g` once `task` is gone: its own waits dropped, it is taken out of every
/// holder set, and tasks left waiting for nobody are dropped.
pub open spec fn without_task(g: Map<TaskId, Set<TaskId>>, task: TaskId) -> Map<TaskId, Set<TaskId>> {
    Map::new(
        |k: TaskId| g.contains_key(k) && k != task && !g[k].remove(task).is_empty(),
        |k: TaskId| g[k].remove(task),
    )
}

/// `g` after `w` stops waiting for `h`: `w` is dropped when left waiting
/// for nobody.
pub open spec fn without_wait(g: Map<TaskId, Set<TaskId>>, w: TaskId, h: TaskId) -> Map<TaskId, Set<TaskId>> {
    if !g.contains_key(w) {
        g
    } else if g[w].remove(h).is_empty() {
        g.remove(w)
    } else {
        g.insert(w, g[w].remove(h))
    }
}

/// Waiting and then no longer waiting gives the graph back: on a graph
/// where every waiter waits for someone and `w` does not yet wait for `h`,
/// `remove_wait(w, h)` after `add_wait(w, h)` restores it, and so its edge
/// count and whether it is empty.
pub proof fn law_wait_then_release(g: Map<TaskId, Set<TaskId>>, w: TaskId, h: TaskId)
    requires
        waiters_wait(g),
        !(g.contains_key(w) && g[w].contains(h)),
    ensures
        without_wait(with_wait(g, w, h), w, h) == g,
{
    let g1 = with_wait(g, w, h);
    if g.contains_key(w) {
        assert(g1[w].remove(h) =~= g[w]);
        assert(!g[w].is_empty());
        assert(without_wait(g1, w, h) =~= g);
    } else {
        assert(g1[w].remove(h) =~= Set::<TaskId>::empty());
        assert(without_wait(g1, w, h) =~= g);
    }
}

/// Every task in `g` waits for some task.
pub open spec fn waiters_wait(g: Map<TaskId, Set<TaskId>>) -> bool {
    forall|k: TaskId| #[trigger] g.contains_key(k) ==> !g[k].is_empty()
}

proof fn lemma_waiters_wait(m: Map<TaskId, HashSet<TaskId>>)
    requires
        holders_present(m),
    ensures
        waiters_wait(graph_of(m)),
{
}

/// Every waiting task waits for at least one task, and for finitely many.
pub closed spec fn holders_present(m: Map<TaskId, HashSet<TaskId>>) -> bool {
    forall|k: TaskId| #[trigger] m.contains_key(k) ==> m[k]@.finite() && !m[k]@.is_empty()
}

/// A wait graph tracking task dependencies.
/// Edge A -> B means task A is waiting for task B.
pub struct WaitGraph {
    /// For each waiting task, the tasks it waits for (never none: a task
    /// left waiting for nobody is dropped).
    edges: HashMap<TaskId, HashSet<TaskId>>,
}

impl WaitGraph {
    #[verifier::type_invariant]
    closed spec fn inv(self) -> bool {
        holders_present(self.edges@)
    }

    /// For each waiting task, the set of tasks it waits for.
    pub closed spec fn graph(&self) -> Map<TaskId, Set<TaskId>> {
        graph_of(self.edges@)
    }

    /// Takes the edges out, leaving an empty graph behind.
    fn take_edges(&mut self) -> (r: HashMap<TaskId, HashSet<TaskId>>)
        ensures
            r@ == old(self).edges@,
            holders_present(r@),
    {
        proof {
            use_type_invariant(&*self);
        }
        let mut g = WaitGraph::new();
        std::mem::swap(&mut g, self);
        let WaitGraph { edges } = g;
        edges
    }

    /// `waiter` waits for `holder`.
    pub open spec fn waits_for(&self, waiter: TaskId, holder: TaskId) -> bool {
        self.graph().contains_key(waiter) && self.graph()[waiter].contains(holder)
    }

    /// Create a new empty wait graph.
    pub fn new() -> (r: Self)
        ensures
            r.graph() == Map::<TaskId, Set<TaskId>>::empty(),
    {
        let r = WaitGraph { edges: HashMap::new() };
        proof {
            assert(r.graph() =~= Map::<TaskId, Set<TaskId>>::empty());
        }
        r
    }

    /// Add a wait edge: `waiter` is now waiting for `holder`.
    pub fn add_wait(&mut self, waiter: TaskId, holder: TaskId)
        ensures
            waiters_wait(final(self).graph()),
            final(self).graph() == with_wait(old(self).graph(), waiter, holder),
    {
        proof {
            use_type_invariant(&*self);
        }
        let mut edges = self.take_edges();
        let mut holders: HashSet<TaskId> = match edges.remove(&waiter) {
            Some(v) => v,
            None => HashSet::new(),
        };
        let ghost before = holders@;
        proof {
            if old(self).edges@.contains_key(waiter) {
                assert(before == old(self).graph()[waiter]);
            } else {
                assert(before =~= Set::<TaskId>::empty());
            }
        }
        holders.insert(holder);
        let ghost hs = holders@;
        edges.insert(waiter, holders);
        proof {
            assert(hs == before.insert(holder));
            assert(hs.contains(holder));
            assert forall|k: TaskId| #[trigger] edges@.contains_key(k) implies edges@[k]@.finite() && !edges@[k]@.is_empty() by {
                if k != waiter {
                    assert(old(self).edges@.contains_key(k));
                }
            }
        }
        self.edges = edges;
        proof {
            assert(self.graph() =~= with_wait(old(self).graph(), waiter, holder));
            lemma_waiters_wait(self.edges@);
        }
    }

    /// Remove a wait edge. A waiter left with nobody to wait for is dropped
    /// from the graph.
    pub fn remove_wait(&mut self, waiter: TaskId, holder: TaskId)
        ensures
            waiters_wait(final(self).graph()),
            !old(self).graph().contains_key(waiter) ==> final(self).graph() == old(self).graph(),
            old(self).graph().contains_key(waiter) && old(self).graph()[waiter].remove(holder).is_empty()
                ==> final(self).graph() == old(self).graph().remove(waiter),
            old(self).graph().contains_key(waiter) && !old(self).graph()[waiter].remove(holder).is_empty()
                ==> final(self).graph() == old(self).graph().insert(waiter, old(self).graph()[waiter].remove(holder)),
            final(self).graph() == without_wait(old(self).graph(), waiter, holder),
    {
        proof {
            use_type_invariant(&*self);
        }
        let mut edges = self.take_edges();
        match edges.remove(&waiter) {
            Some(v) => {
                let mut holders = v;
                holders.remove(&holder);
                let ghost hs = holders@;
                proof {
                    assert(hs == old(self).graph()[waiter].remove(holder));
                }
                if holders.is_empty() {
                    proof {
                        assert(edges@ == old(self).edges@.remove(waiter));
                    }
                } else {
                    edges.insert(waiter, holders);
                }
            },
            None => {},
        }
        proof {
            assert forall|k: TaskId| #[trigger] edges@.contains_key(k) implies edges@[k]@.finite() && !edges@[k]@.is_empty() by {
                if k != waiter {
                    assert(old(self).edges@.contains_key(k));
                }
            }
        }
        self.edges = edges;
        proof {
            assert(self.graph() =~= without_wait(old(self).graph(), waiter, holder));
            lemma_waiters_wait(self.edges@);
        }
    }

    /// Remove all edges for a task (e.g., when it completes): its own waits
    /// go, it is taken out of every other task's holders, and a task left
    /// waiting for nobody is dropped, as `remove_wait` drops one.
    pub fn remove_task(&mut self, task: TaskId)
        ensures
            waiters_wait(final(self).graph()),
            final(self).graph() == without_task(old(self).graph(), task),
    {
        proof {
            use_type_invariant(&*self);
        }
        let mut edges = self.take_edges();
        edges.remove(&task);
        let ks = key_list(&edges);
        let n = ks.len();
        let ghost keys = ks@;
        let ghost mid = graph_of(edges@);
        proof {
            assert forall|j: int| 0 <= j < n implies #[trigger] graph_of(edges@).contains_key(keys[j])
                && graph_of(edges@)[keys[j]] == mid[keys[j]] by {
                assert(keys.contains(keys[j]));
            }
        }
        let mut i: usize = 0;
        while i < n
            invariant
                n == keys.len(),
                keys == ks@,
                keys.no_duplicates(),
                0 <= i <= n,
                forall|k: TaskId| #[trigger] mid.contains_key(k) ==> mid[k].finite(),
                forall|k: TaskId| mid.contains_key(k) <==> #[trigger] keys.contains(k),
                forall|k: TaskId| #[trigger] edges@.contains_key(k) ==> mid.contains_key(k),
                forall|j: int| 0 <= j < i ==> {
                    &&& (#[trigger] graph_of(edges@).contains_key(keys[j])
                        <==> !mid[keys[j]].remove(task).is_empty())
                    &&& graph_of(edges@).contains_key(keys[j]) ==> graph_of(edges@)[keys[j]] == mid[keys[j]].remove(task)
                    &&& graph_of(edges@).contains_key(keys[j]) ==> edges@[keys[j]]@.finite() && !edges@[keys[j]]@.is_empty()
                },
                forall|j: int| i <= j < n ==> #[trigger] graph_of(edges@).contains_key(keys[j])
                    && graph_of(edges@)[keys[j]] == mid[keys[j]],
            decreases n - i,
        {
            let k = ks[i];
            proof {
                assert(keys.contains(k));
                assert(graph_of(edges@).contains_key(keys[i as int]));
            }
            let ghost old_edges = edges@;
            proof {
                assert(graph_of(old_edges)[k] == mid[k]);
            }
            let mut holders = edges.remove(&k).unwrap();
            holders.remove(&task);
            let ghost hs = holders@;
            proof {
                assert(hs == mid[k].remove(task));
            }
            if holders.is_empty() {
                proof {
                    assert(mid[k].remove(task).is_empty());
                    assert(graph_of(edges@) =~= graph_of(old_edges).remove(k));
                }
            } else {
                edges.insert(k, holders);
                proof {
                    assert(!mid[k].remove(task).is_empty());
                    assert(graph_of(edges@) =~= graph_of(old_edges).insert(k, hs));
                }
            }
            proof {
                assert forall|j: int| 0 <= j < i + 1 implies {
                    &&& (#[trigger] graph_of(edges@).contains_key(keys[j])
                        <==> !mid[keys[j]].remove(task).is_empty())
                    &&& graph_of(edges@).contains_key(keys[j]) ==> graph_of(edges@)[keys[j]] == mid[keys[j]].remove(task)
                    &&& graph_of(edges@).contains_key(keys[j]) ==> edges@[keys[j]]@.finite() && !edges@[keys[j]]@.is_empty()
                } by {
                    if j < i {
                        assert(keys[j] != keys[i as int]);
                        assert(graph_of(old_edges).contains_key(keys[j]) == graph_of(edges@).contains_key(keys[j]));
                    }
                }
                assert forall|j: int| i + 1 <= j < n implies #[trigger] graph_of(edges@).contains_key(keys[j])
                    && graph_of(edges@)[keys[j]] == mid[keys[j]] by {
                    assert(keys[j] != keys[i as int]);
                    assert(graph_of(old_edges).contains_key(keys[j]));
                }
                assert forall|x: TaskId| #[trigger] edges@.contains_key(x) implies mid.contains_key(x) by {
                    if x != k {
                        assert(old_edges.contains_key(x));
                    }
                }
            }
            i = i + 1;
        }
        proof {
            assert forall|x: TaskId| #[trigger] edges@.contains_key(x) implies edges@[x]@.finite() && !edges@[x]@.is_empty() by {
                assert(mid.contains_key(x));
                assert(keys.contains(x));
                let j = choose|j: int| 0 <= j < n && keys[j] == x;
                assert(graph_of(edges@).contains_key(keys[j]));
            }
        }
        self.edges = edges;
        proof {
            let g0 = old(self).graph();
            assert(mid =~= g0.remove(task));
            assert forall|x: TaskId| #[trigger] self.graph().contains_key(x) == without_task(g0, task).contains_key(x) by {
                if mid.contains_key(x) {
                    assert(keys.contains(x));
                    let j = choose|j: int| 0 <= j < n && keys[j] == x;
                    assert(graph_of(self.edges@).contains_key(keys[j]) <==> !mid[keys[j]].remove(task).is_empty());
                }
            }
            assert forall|x: TaskId| #[trigger] self.graph().contains_key(x)
                implies self.graph()[x] == without_task(g0, task)[x] by {
                assert(keys.contains(x));
                let j = choose|j: int| 0 <= j < n && keys[j] == x;
                assert(graph_of(self.edges@)[keys[j]] == mid[keys[j]].remove(task));
            }
            assert(self.graph() =~= without_task(g0, task));
        }
        proof {
            use_type_invariant(&*self);
            lemma_waiters_wait(self.edges@);
        }
    }


    /// Get the number of edges: the pairs (waiter, holder) of the graph.
    pub fn edge_count(&self) -> (r: usize)
        requires
            edge_set(self.graph()).len() <= usize::MAX,
        ensures
            r == edge_set(self.graph()).len(),
    {
        proof {
            use_type_invariant(self);
        }
        let ks = key_list(&self.edges);
        let n = ks.len();
        let ghost keys = ks@;
        let ghost g = self.graph();
        proof {
            assert forall|i: int| 0 <= i < keys.len() implies g.contains_key(#[trigger] keys[i]) && g[keys[i]].finite() by {
                assert(keys.contains(keys[i]));
                assert(self.edges@.contains_key(keys[i]));
            }
            lemma_sum_sizes_edges(keys, g);
            assert(edges_out_of(keys, g) =~= edge_set(g)) by {
                assert forall|p: (TaskId, TaskId)| edge_set(g).contains(p) implies #[trigger] edges_out_of(keys, g).contains(p) by {
                    assert(self.edges@.contains_key(p.0));
                    assert(keys.contains(p.0));
                }
            }
            assert(sum_sizes(keys, g) == edge_set(g).len());
        }
        let mut total: usize = 0;
        let mut i: usize = 0;
        while i < n
            invariant
                n == keys.len(),
                keys == ks@,
                keys.no_duplicates(),
                g == self.graph(),
                holders_present(self.edges@),
                forall|k: TaskId| self.edges@.contains_key(k) <==> #[trigger] keys.contains(k),
                sum_sizes(keys, g) <= usize::MAX,
                0 <= i <= n,
                total == sum_sizes(keys.take(i as int), g),
            decreases n - i,
        {
            let k = ks[i];
            proof {
                assert(keys.contains(k));
            }
            let v = self.edges.get(&k).unwrap();
            proof {
                assert(keys.contains(k));
                assert(g[k] == v@);
                assert(keys.take(i + 1).drop_last() =~= keys.take(i as int));
                lemma_sum_sizes_prefix(keys, g, i + 1);
            }
            total = total + v.len();
            i = i + 1;
        }
        proof {
            assert(keys.take(n as int) =~= keys);
        }
        total
    }

    /// Detect a cycle (deadlock) in the wait graph: `None` exactly when the
    /// graph has no cycle, otherwise a cycle that starts and ends at the
    /// same task and visits no task twice before that.
    pub fn detect_cycle(&self) -> (r: Option<Vec<TaskId>>)
        ensures
            r is None <==> acyclic(self.graph()),
            r matches Some(c) ==> is_cycle(self.graph(), c@) && c@.drop_last().no_duplicates(),
    {
        proof {
            use_type_invariant(self);
        }
        let r = find_cycle(&self.edges);
        proof {
            assert(self.graph() == graph_of(self.edges@));
            if r is Some {
                assert(!acyclic(self.graph())) by {
                    assert(is_cycle(self.graph(), r->0@));
                }
            }
        }
        r
    }

    /// Check if adding the edge `waiter -> holder` would create a cycle:
    /// whether `waiter` can be reached from `holder` (a task reaches itself).
    pub fn would_deadlock(&self, waiter: TaskId, holder: TaskId) -> (r: bool)
        ensures
            r == reaches(self.graph(), holder, waiter),
    {
        can_reach(&self.edges, holder, waiter)
    }

    /// Check if the graph is empty: no task waits for another.
    pub fn is_empty(&self) -> (r: bool)
        ensures
            r == (self.graph().dom().len() == 0),
            r == (forall|w: TaskId, h: TaskId| !self.waits_for(w, h)),
    {
        proof {
            use_type_invariant(self);
            assert(self.graph().dom() =~= self.edges@.dom());
            if self.edges@.dom().len() != 0 {
                let w = self.edges@.dom().choose();
                assert(self.edges@.contains_key(w));
                assert(!self.edges@[w]@.is_empty());
                let h = self.edges@[w]@.choose();
                assert(self.edges@[w]@.contains(h));
                assert(self.waits_for(w, h));
            } else {
                assert forall|w: TaskId, h: TaskId| !self.waits_for(w, h) by {
                    if self.graph().contains_key(w) {
                        assert(self.edges@.dom().contains(w));
                    }
                }
            }
        }
        self.edges.len() == 0
    }
}


/// Deadlock detector that wraps a wait graph.
pub struct DeadlockDetector {
    graph: WaitGraph,
}

impl DeadlockDetector {
    /// Who waits for whom, as the detector has been told.
    pub closed spec fn waits(&self) -> Map<TaskId, Set<TaskId>> {
        self.graph.graph()
    }

    /// Create a new deadlock detector.
    pub fn new() -> (r: Self)
        ensures
            r.waits() == Map::<TaskId, Set<TaskId>>::empty(),
    {
        DeadlockDetector { graph: WaitGraph::new() }
    }

    /// Record that a task is waiting for another.
    pub fn task_waiting(&mut self, waiter: TaskId, holder: TaskId)
        ensures
            final(self).waits() == old(self).waits().insert(
                waiter,
                (if old(self).waits().contains_key(waiter) { old(self).waits()[waiter] } else { Set::empty() }).insert(holder),
            ),
    {
        self.graph.add_wait(waiter, holder);
    }

    /// Record that a task is no longer waiting for another.
    pub fn task_released(&mut self, waiter: TaskId, holder: TaskId)
        ensures
            !old(self).waits().contains_key(waiter) ==> final(self).waits() == old(self).waits(),
            old(self).waits().contains_key(waiter) && old(self).waits()[waiter].remove(holder).is_empty()
                ==> final(self).waits() == old(self).waits().remove(waiter),
            old(self).waits().contains_key(waiter) && !old(self).waits()[waiter].remove(holder).is_empty()
                ==> final(self).waits() == old(self).waits().insert(waiter, old(self).waits()[waiter].remove(holder)),
    {
        self.graph.remove_wait(waiter, holder);
    }

    /// Record that a task has completed.
    pub fn task_completed(&mut self, task: TaskId)
        ensures
            final(self).waits() == without_task(old(self).waits(), task),
    {
        self.graph.remove_task(task);
    }

    /// Check for deadlock: `None` exactly when no task waits in a cycle,
    /// otherwise such a cycle.
    pub fn check(&self) -> (r: Option<Vec<TaskId>>)
        ensures
            r is None <==> acyclic(self.waits()),
            r matches Some(c) ==> is_cycle(self.waits(), c@),
    {
        self.graph.detect_cycle()
    }

    /// Check whether `waiter` starting to wait for `holder` would close a cycle.
    pub fn would_deadlock(&self, waiter: TaskId, holder: TaskId) -> (r: bool)
        ensures
            r == reaches(self.waits(), holder, waiter),
    {
        self.graph.would_deadlock(waiter, holder)
    }
}

/// `x` occurs in `v`.
fn contains_task(v: &Vec<TaskId>, x: TaskId) -> (r: bool)
    ensures
        r == v@.contains(x),
{
    let mut i: usize = 0;
    while i < v.len()
        invariant
            0 <= i <= v@.len(),
            forall|j: int| 0 <= j < i ==> v@[j] != x,
        decreases v@.len() - i,
    {
        if v[i] == x {
            return true;
        }
        i = i + 1;
    }
    false
}

/// The wait edges of `g`: `(w, h)` where `w` waits for `h`.
pub open spec fn edge_set(g: Map<TaskId, Set<TaskId>>) -> Set<(TaskId, TaskId)> {
    Set::new(|p: (TaskId, TaskId)| g.contains_key(p.0) && g[p.0].contains(p.1))
}

/// The wait edges of `g` out of the tasks in `keys`.
pub open spec fn edges_out_of(keys: Seq<TaskId>, g: Map<TaskId, Set<TaskId>>) -> Set<(TaskId, TaskId)> {
    Set::new(|p: (TaskId, TaskId)| keys.contains(p.0) && g.contains_key(p.0) && g[p.0].contains(p.1))
}

/// Summing the sizes of the wait sets of distinct tasks counts their edges.
proof fn lemma_sum_sizes_edges(keys: Seq<TaskId>, g: Map<TaskId, Set<TaskId>>)
    requires
        keys.no_duplicates(),
        forall|i: int| 0 <= i < keys.len() ==> g.contains_key(#[trigger] keys[i]) && g[keys[i]].finite(),
    ensures
        edges_out_of(keys, g).finite(),
        edges_out_of(keys, g).len() == sum_sizes(keys, g),
    decreases keys.len(),
{
    if keys.len() == 0 {
        assert(edges_out_of(keys, g) =~= Set::<(TaskId, TaskId)>::empty());
    } else {
        let d = keys.drop_last();
        let k = keys.last();
        assert(d.no_duplicates()) by {
            assert forall|a: int, b: int| 0 <= a < d.len() && 0 <= b < d.len() && a != b implies d[a] != d[b] by {
                assert(d[a] == keys[a]);
                assert(d[b] == keys[b]);
            }
        }
        assert forall|i: int| 0 <= i < d.len() implies g.contains_key(#[trigger] d[i]) && g[d[i]].finite() by {
            assert(d[i] == keys[i]);
        }
        lemma_sum_sizes_edges(d, g);
        assert(g.contains_key(keys[keys.len() - 1]));
        let f = |b: TaskId| (k, b);
        let fk = g[k].map(f);
        assert(vstd::relations::injective_on(f, g[k])) by {
            assert forall|x: TaskId, y: TaskId| g[k].contains(x) && g[k].contains(y) && #[trigger] f(x) == #[trigger] f(y)
                implies x == y by {}
        }
        vstd::set_lib::lemma_map_size(g[k], fk, f);
        assert(!d.contains(k)) by {
            if d.contains(k) {
                let a = choose|a: int| 0 <= a < d.len() && d[a] == k;
                assert(keys[a] == keys[keys.len() - 1]);
            }
        }
        assert(edges_out_of(d, g).disjoint(fk));
        vstd::set_lib::lemma_set_disjoint_lens(edges_out_of(d, g), fk);
        assert forall|p: (TaskId, TaskId)| #[trigger] edges_out_of(keys, g).contains(p) <==> (edges_out_of(d, g) + fk).contains(p) by {
            if edges_out_of(keys, g).contains(p) {
                if p.0 == k {
                    assert(fk.contains(f(p.1)));
                } else {
                    let a = choose|a: int| 0 <= a < keys.len() && keys[a] == p.0;
                    assert(d[a] == p.0);
                }
            }
            if d.contains(p.0) {
                let a = choose|a: int| 0 <= a < d.len() && d[a] == p.0;
                assert(keys[a] == p.0);
            }
            if fk.contains(p) {
                let b = choose|b: TaskId| g[k].contains(b) && f(b) == p;
                assert(keys[keys.len() - 1] == k);
            }
        }
        assert(edges_out_of(keys, g) =~= edges_out_of(d, g) + fk);
    }
}

/// The wait sets that the stored holder lists stand for.
pub closed spec fn graph_of(m: Map<TaskId, HashSet<TaskId>>) -> Map<TaskId, Set<TaskId>> {
    m.map_values(|v: HashSet<TaskId>| v@)
}


/// Summing one more key adds the size of its set.
proof fn lemma_sum_sizes_prefix(keys: Seq<TaskId>, g: Map<TaskId, Set<TaskId>>, i: int)
    requires
        1 <= i <= keys.len(),
    ensures
        sum_sizes(keys.take(i), g) == sum_sizes(keys.take(i - 1), g) + g[keys[i - 1]].len(),
        sum_sizes(keys.take(i), g) <= sum_sizes(keys, g),
    decreases keys.len() - i,
{
    assert(keys.take(i).drop_last() =~= keys.take(i - 1));
    if i < keys.len() {
        lemma_sum_sizes_prefix(keys, g, i + 1);
    } else {
        assert(keys.take(i) =~= keys);
    }
}

/// `v` has a successor in `g` that is a key of `g` and not yet in `done`.
pub open spec fn settled(g: Map<TaskId, Set<TaskId>>, done: Seq<TaskId>, v: TaskId) -> bool {
    !g.contains_key(v) || done.contains(v)
}

/// Every task in `done` is a waiting task, and every waiting task it waits
/// for came earlier in `done`: the order in which tasks were cleared.
pub open spec fn cleared_in_order(g: Map<TaskId, Set<TaskId>>, done: Seq<TaskId>) -> bool {
    &&& done.no_duplicates()
    &&& forall|i: int| 0 <= i < done.len() ==> g.contains_key(#[trigger] done[i])
    &&& forall|i: int, b: TaskId| 0 <= i < done.len() && #[trigger] g[done[i]].contains(b) && g.contains_key(b)
        ==> exists|j: int| 0 <= j < i && done[j] == b
}

/// The position of `v` in `done`.
pub open spec fn rank(done: Seq<TaskId>, v: TaskId) -> int {
    choose|j: int| 0 <= j < done.len() && done[j] == v
}

/// Along a walk through cleared tasks, positions in the clearing order fall.
proof fn lemma_rank_descends(g: Map<TaskId, Set<TaskId>>, done: Seq<TaskId>, c: Seq<TaskId>, m: int)
    requires
        cleared_in_order(g, done),
        forall|k: TaskId| g.contains_key(k) ==> done.contains(k),
        is_walk(g, c),
        1 <= m < c.len(),
        g.contains_key(c[m]),
    ensures
        0 <= rank(done, c[m]) < rank(done, c[0]) < done.len(),
        done[rank(done, c[m])] == c[m],
    decreases m,
{
    let prev = c[m - 1];
    assert(g.contains_key(prev) && g[prev].contains(c[m]));
    assert(done.contains(prev));
    let rp = rank(done, prev);
    assert(done[rp] == prev);
    assert(g[done[rp]].contains(c[m]));
    let j = choose|j: int| 0 <= j < rp && done[j] == c[m];
    assert(done.contains(c[m]));
    let rm = rank(done, c[m]);
    assert(done[rm] == c[m]);
    assert(rm == j);
    if m > 1 {
        lemma_rank_descends(g, done, c, m - 1);
    } else {
        assert(rp == rank(done, c[0]));
    }
}

/// When every waiting task was cleared in order, the graph has no cycle.
proof fn lemma_no_cycle(g: Map<TaskId, Set<TaskId>>, done: Seq<TaskId>)
    requires
        cleared_in_order(g, done),
        forall|k: TaskId| g.contains_key(k) ==> done.contains(k),
    ensures
        acyclic(g),
{
    assert forall|c: Seq<TaskId>| !#[trigger] is_cycle(g, c) by {
        if is_cycle(g, c) {
            assert(g.contains_key(c[0]));
            lemma_rank_descends(g, done, c, c.len() - 1);
        }
    }
}

/// Whether every task in `holders` is settled.
fn all_settled(edges: &HashMap<TaskId, HashSet<TaskId>>, done: &Vec<TaskId>, holders: &Vec<TaskId>) -> (r: bool)
    ensures
        r == forall|x: TaskId| holders@.contains(x) ==> settled(graph_of(edges@), done@, x),
{
    let mut i: usize = 0;
    while i < holders.len()
        invariant
            0 <= i <= holders@.len(),
            forall|j: int| 0 <= j < i ==> settled(graph_of(edges@), done@, #[trigger] holders@[j]),
        decreases holders@.len() - i,
    {
        if edges.contains_key(&holders[i]) && !contains_task(done, holders[i]) {
            proof {
                assert(holders@.contains(holders@[i as int]));
                assert(graph_of(edges@).contains_key(holders@[i as int]));
            }
            return false;
        }
        i = i + 1;
    }
    true
}

/// One pass over the waiting tasks, clearing each not yet cleared whose
/// holders are all settled. Returns whether anything was cleared; when
/// nothing was, every uncleared task has an unsettled holder.
fn clear_pass(edges: &HashMap<TaskId, HashSet<TaskId>>, done: &mut Vec<TaskId>) -> (progress: bool)
    requires
        cleared_in_order(graph_of(edges@), old(done)@),
    ensures
        cleared_in_order(graph_of(edges@), final(done)@),
        progress ==> final(done)@.len() > old(done)@.len(),
        !progress ==> final(done)@ == old(done)@,
        !progress ==> forall|k: TaskId| #[trigger] edges@.contains_key(k) && !final(done)@.contains(k)
            ==> exists|b: TaskId| graph_of(edges@)[k].contains(b) && !settled(graph_of(edges@), final(done)@, b),
{
    let ghost g = graph_of(edges@);
    let ks = key_list(edges);
    let n = ks.len();
    let ghost keys = ks@;
    let mut progress = false;
    let mut i: usize = 0;
    while i < n
        invariant
            n == keys.len(),
            keys == ks@,
            g == graph_of(edges@),
            forall|k: TaskId| edges@.contains_key(k) <==> #[trigger] keys.contains(k),
            0 <= i <= n,
            cleared_in_order(g, done@),
            progress ==> done@.len() > old(done)@.len(),
            !progress ==> done@ == old(done)@,
            !progress ==> forall|j: int| 0 <= j < i && !done@.contains(#[trigger] keys[j])
                ==> exists|b: TaskId| g[keys[j]].contains(b) && !settled(g, done@, b),
        decreases n - i,
    {
        let k = ks[i];
        proof {
            assert(keys.contains(k));
        }
        let holders = set_list(edges.get(&k).unwrap());
        proof {
            assert(keys.contains(k));
            assert(g[k] == holders@.to_set());
        }
        if !contains_task(done, k) {
            if all_settled(edges, done, &holders) {
                let ghost before = done@;
                done.push(k);
                proof {
                    let d = done@;
                    assert(d == before.push(k));
                    assert forall|a: int, b: int| 0 <= a < d.len() && 0 <= b < d.len() && a != b implies d[a] != d[b] by {
                        if a == before.len() {
                            assert(before.contains(before[b]));
                        } else if b == before.len() {
                            assert(before.contains(before[a]));
                        }
                    }
                    assert forall|a: int| 0 <= a < d.len() implies g.contains_key(#[trigger] d[a]) by {
                        if a < before.len() {
                            assert(d[a] == before[a]);
                        }
                    }
                    assert forall|a: int, b: TaskId| 0 <= a < d.len() && #[trigger] g[d[a]].contains(b) && g.contains_key(b)
                        implies exists|j: int| 0 <= j < a && d[j] == b by {
                        if a < before.len() {
                            assert(d[a] == before[a]);
                            let j = choose|j: int| 0 <= j < a && before[j] == b;
                            assert(d[j] == b);
                        } else {
                            assert(holders@.contains(b));
                            assert(settled(g, before, b));
                            let j = choose|j: int| 0 <= j < before.len() && before[j] == b;
                            assert(d[j] == b);
                        }
                    }
                }
                progress = true;
            } else {
                proof {
                    if !progress {
                        let b = choose|b: TaskId| holders@.contains(b) && !settled(g, done@, b);
                        assert(g[keys[i as int]].contains(b));
                    }
                }
            }
        }
        i = i + 1;
    }
    proof {
        if !progress {
            assert forall|k: TaskId| #[trigger] edges@.contains_key(k) && !done@.contains(k)
                implies exists|b: TaskId| g[k].contains(b) && !settled(g, done@, b) by {
                assert(keys.contains(k));
                let j = choose|j: int| 0 <= j < keys.len() && keys[j] == k;
                assert(!done@.contains(keys[j]));
            }
        }
    }
    progress
}

/// A cycle of the graph, if it has one.
fn find_cycle(edges: &HashMap<TaskId, HashSet<TaskId>>) -> (r: Option<Vec<TaskId>>)
    ensures
        r is None <==> acyclic(graph_of(edges@)),
        r matches Some(c) ==> is_cycle(graph_of(edges@), c@) && c@.drop_last().no_duplicates(),
{
    let ghost g = graph_of(edges@);
    let ks = key_list(edges);
    let n = ks.len();
    let ghost keys = ks@;
    let mut done: Vec<TaskId> = Vec::new();
    let mut progress = true;
    while progress
        invariant
            n == keys.len(),
            keys == ks@,
            keys.no_duplicates(),
            g == graph_of(edges@),
            forall|k: TaskId| edges@.contains_key(k) <==> #[trigger] keys.contains(k),
            cleared_in_order(g, done@),
            done@.len() <= n,
            !progress ==> forall|k: TaskId| #[trigger] edges@.contains_key(k) && !done@.contains(k)
                ==> exists|b: TaskId| g[k].contains(b) && !settled(g, done@, b),
        decreases n - done@.len() + (if progress { 1int } else { 0int }),
    {
        progress = clear_pass(edges, &mut done);
        proof {
            assert forall|a: int| 0 <= a < done@.len() implies keys.contains(#[trigger] done@[a]) by {
                assert(g.contains_key(done@[a]));
            }
            lemma_unique_subseq_len(done@, keys);
        }
    }
    // Look for a waiting task that was not cleared.
    let mut s: usize = 0;
    while s < n && contains_task(&done, ks[s])
        invariant
            n == keys.len(),
            keys == ks@,
            0 <= s <= n,
            forall|j: int| 0 <= j < s ==> done@.contains(#[trigger] keys[j]),
        decreases n - s,
    {
        s = s + 1;
    }
    if s == n {
        proof {
            assert forall|k: TaskId| g.contains_key(k) implies done@.contains(k) by {
                assert(keys.contains(k));
                let j = choose|j: int| 0 <= j < keys.len() && keys[j] == k;
                assert(done@.contains(keys[j]));
            }
            lemma_no_cycle(g, done@);
        }
        return None;
    }
    let start = ks[s];
    proof {
        assert(keys.contains(keys[s as int]));
    }
    let c = walk_to_cycle(edges, &done, start);
    Some(c)
}

/// Follows unsettled holders from `start`, which is uncleared, until a task
/// repeats, and returns the cycle that closes there.
fn walk_to_cycle(edges: &HashMap<TaskId, HashSet<TaskId>>, done: &Vec<TaskId>, start: TaskId) -> (r: Vec<TaskId>)
    requires
        edges@.contains_key(start),
        !done@.contains(start),
        forall|k: TaskId| #[trigger] edges@.contains_key(k) && !done@.contains(k)
            ==> exists|b: TaskId| graph_of(edges@)[k].contains(b) && !settled(graph_of(edges@), done@, b),
    ensures
        is_cycle(graph_of(edges@), r@),
        r@.drop_last().no_duplicates(),
{
    let ghost g = graph_of(edges@);
    let ks = key_list(edges);
    let n = ks.len();
    let ghost keys = ks@;
    let mut path: Vec<TaskId> = Vec::new();
    path.push(start);
    loop
        invariant
            n == keys.len(),
            keys == ks@,
            g == graph_of(edges@),
            forall|k: TaskId| edges@.contains_key(k) <==> #[trigger] keys.contains(k),
            forall|k: TaskId| #[trigger] edges@.contains_key(k) && !done@.contains(k)
                ==> exists|b: TaskId| g[k].contains(b) && !settled(g, done@, b),
            path@.len() >= 1,
            path@.len() <= n,
            path@.no_duplicates(),
            is_walk(g, path@),
            forall|a: int| 0 <= a < path@.len() ==> edges@.contains_key(#[trigger] path@[a]) && !done@.contains(path@[a]),
        decreases n - path@.len(),
    {
        let cur = path[path.len() - 1];
        let h = unsettled_holder(edges, done, cur);
        let ghost old_path = path@;
        match position_of(&path, h) {
            Some(j) => {
                let mut cycle: Vec<TaskId> = Vec::new();
                let mut a: usize = j;
                while a < path.len()
                    invariant
                        j <= a <= path@.len(),
                        path@ == old_path,
                        cycle@ == path@.subrange(j as int, a as int),
                    decreases path@.len() - a,
                {
                    cycle.push(path[a]);
                    a = a + 1;
                }
                cycle.push(h);
                proof {
                    let c = cycle@;
                    assert(c == path@.subrange(j as int, path@.len() as int).push(h));
                    assert forall|i: int| 0 <= i < c.len() - 1 implies g.contains_key(#[trigger] c[i]) && g[c[i]].contains(c[i + 1]) by {
                        if i < c.len() - 2 {
                            assert(c[i] == path@[j + i]);
                            assert(c[i + 1] == path@[j + i + 1]);
                        } else {
                            assert(c[i] == cur);
                        }
                    }
                    let d = c.drop_last();
                    assert(d =~= path@.subrange(j as int, path@.len() as int));
                    assert forall|x: int, y: int| 0 <= x < d.len() && 0 <= y < d.len() && x != y implies d[x] != d[y] by {
                        assert(d[x] == path@[j + x]);
                        assert(d[y] == path@[j + y]);
                    }
                }
                return cycle;
            },
            None => {
                path.push(h);
                proof {
                    let p = path@;
                    assert(p == old_path.push(h));
                    assert forall|a: int, b: int| 0 <= a < p.len() && 0 <= b < p.len() && a != b implies p[a] != p[b] by {
                        if a == old_path.len() {
                            assert(old_path.contains(old_path[b]));
                        } else if b == old_path.len() {
                            assert(old_path.contains(old_path[a]));
                        }
                    }
                    assert forall|i: int| 0 <= i < p.len() - 1 implies g.contains_key(#[trigger] p[i]) && g[p[i]].contains(p[i + 1]) by {
                        if i < p.len() - 2 {
                            assert(p[i] == old_path[i]);
                            assert(p[i + 1] == old_path[i + 1]);
                        }
                    }
                    assert forall|a: int| 0 <= a < p.len() implies keys.contains(#[trigger] p[a]) by {
                        assert(edges@.contains_key(p[a]));
                    }
                    lemma_unique_subseq_len(p, keys);
                }
            },
        }
    }
}

/// A holder of the uncleared task `cur` that is itself an uncleared
/// waiting task.
fn unsettled_holder(edges: &HashMap<TaskId, HashSet<TaskId>>, done: &Vec<TaskId>, cur: TaskId) -> (h: TaskId)
    requires
        edges@.contains_key(cur),
        exists|b: TaskId| graph_of(edges@)[cur].contains(b) && !settled(graph_of(edges@), done@, b),
    ensures
        graph_of(edges@)[cur].contains(h),
        edges@.contains_key(h),
        !done@.contains(h),
{
    let holders = match edges.get(&cur) {
        Some(v) => set_list(v),
        None => { proof { assert(false); } return cur; },
    };
    let mut i: usize = 0;
    while i < holders.len()
        invariant
            0 <= i <= holders@.len(),
            holders@.to_set() == graph_of(edges@)[cur],
            edges@.contains_key(cur),
            exists|b: TaskId| graph_of(edges@)[cur].contains(b) && !settled(graph_of(edges@), done@, b),
            forall|j: int| 0 <= j < i ==> settled(graph_of(edges@), done@, #[trigger] holders@[j]),
        decreases holders@.len() - i,
    {
        let x = holders[i];
        if edges.contains_key(&x) && !contains_task(done, x) {
            return x;
        }
        i = i + 1;
    }
    proof {
        let b = choose|b: TaskId| graph_of(edges@)[cur].contains(b) && !settled(graph_of(edges@), done@, b);
        assert(holders@.to_set().contains(b));
        let j = choose|j: int| 0 <= j < holders@.len() && holders@[j] == b;
        assert(settled(graph_of(edges@), done@, holders@[j]));
    }
    cur
}

/// Where `x` first occurs in `v`, if it does.
fn position_of(v: &Vec<TaskId>, x: TaskId) -> (r: Option<usize>)
    ensures
        r is None <==> !v@.contains(x),
        r matches Some(j) ==> j < v@.len() && v@[j as int] == x,
{
    let mut i: usize = 0;
    while i < v.len()
        invariant
            0 <= i <= v@.len(),
            forall|j: int| 0 <= j < i ==> v@[j] != x,
        decreases v@.len() - i,
    {
        if v[i] == x {
            return Some(i);
        }
        i = i + 1;
    }
    None
}


/// Every task visited was reached by a walk from `from`.
pub open spec fn walks_reach(g: Map<TaskId, Set<TaskId>>, from: TaskId, visited: Seq<TaskId>, paths: Seq<Seq<TaskId>>) -> bool {
    &&& paths.len() == visited.len()
    &&& forall|a: int| 0 <= a < visited.len() ==> is_walk(g, #[trigger] paths[a]) && paths[a][0] == from
        && paths[a][paths[a].len() - 1] == visited[a]
}

/// The holders of the first `i` visited tasks are not `to`, and the waiting
/// ones among them were visited.
pub open spec fn expanded(g: Map<TaskId, Set<TaskId>>, to: TaskId, visited: Seq<TaskId>, i: int) -> bool {
    forall|a: int, b: TaskId| 0 <= a < i && g.contains_key(visited[a]) && #[trigger] g[visited[a]].contains(b)
        ==> b != to && (!g.contains_key(b) || visited.contains(b))
}

/// When every visited task is expanded and `to` was never met, no walk
/// from `from` ends at `to`.
proof fn lemma_unreachable(g: Map<TaskId, Set<TaskId>>, from: TaskId, to: TaskId, visited: Seq<TaskId>)
    requires
        visited.len() >= 1,
        visited[0] == from,
        !visited.contains(to),
        expanded(g, to, visited, visited.len() as int),
    ensures
        !reaches(g, from, to),
{
    assert forall|p: Seq<TaskId>| #[trigger] is_walk(g, p) && p[0] == from implies p[p.len() - 1] != to by {
        lemma_walk_avoids(g, from, to, visited, p, p.len() - 1);
    }
}

/// Each task on a walk from `from` was visited, or is a non-waiting task
/// other than `to`.
proof fn lemma_walk_avoids(g: Map<TaskId, Set<TaskId>>, from: TaskId, to: TaskId, visited: Seq<TaskId>, p: Seq<TaskId>, m: int)
    requires
        visited.len() >= 1,
        visited[0] == from,
        !visited.contains(to),
        expanded(g, to, visited, visited.len() as int),
        is_walk(g, p),
        p[0] == from,
        0 <= m < p.len(),
    ensures
        visited.contains(p[m]) || (!g.contains_key(p[m]) && p[m] != to),
        p[m] != to,
    decreases m,
{
    if m == 0 {
        assert(visited[0] == p[0]);
    } else {
        lemma_walk_avoids(g, from, to, visited, p, m - 1);
        let prev = p[m - 1];
        assert(g.contains_key(prev) && g[prev].contains(p[m]));
        let a = choose|a: int| 0 <= a < visited.len() && visited[a] == prev;
        assert(g[visited[a]].contains(p[m]));
    }
}

/// Whether `to` can be reached from `from` along wait edges, by a
/// breadth-first search over waiting tasks.
fn can_reach(edges: &HashMap<TaskId, HashSet<TaskId>>, from: TaskId, to: TaskId) -> (r: bool)
    ensures
        r == reaches(graph_of(edges@), from, to),
{
    let ghost g = graph_of(edges@);
    if from == to {
        proof {
            assert(is_walk(g, seq![from]));
        }
        return true;
    }
    let ks = key_list(edges);
    let n = ks.len();
    let ghost keys = ks@;
    let ghost universe = keys.push(from);
    let mut visited: Vec<TaskId> = Vec::new();
    visited.push(from);
    let ghost mut paths: Seq<Seq<TaskId>> = seq![seq![from]];
    proof {
        assert(universe[keys.len() as int] == from);
        assert(universe.contains(visited@[0]));
    }
    let mut i: usize = 0;
    while i < visited.len()
        invariant
            n == keys.len(),
            keys == ks@,
            universe == keys.push(from),
            g == graph_of(edges@),
            forall|k: TaskId| edges@.contains_key(k) <==> #[trigger] keys.contains(k),
            from != to,
            visited@.len() >= 1,
            visited@[0] == from,
            visited@.no_duplicates(),
            !visited@.contains(to),
            forall|a: int| 0 <= a < visited@.len() ==> universe.contains(#[trigger] visited@[a]),
            visited@.len() <= n + 1,
            0 <= i <= visited@.len(),
            walks_reach(g, from, visited@, paths),
            expanded(g, to, visited@, i as int),
        decreases n + 1 - visited@.len(), visited@.len() - i,
    {
        let cur = visited[i];
        match edges.get(&cur) {
            None => {
                proof {
                    assert(!g.contains_key(cur));
                }
            },
            Some(set) => {
                let holders = set_list(set);
                let ghost len0 = visited@.len();
                let mut j: usize = 0;
                while j < holders.len()
                    invariant
                        n == keys.len(),
                        universe == keys.push(from),
                        g == graph_of(edges@),
                        forall|k: TaskId| edges@.contains_key(k) <==> #[trigger] keys.contains(k),
                        edges@.contains_key(cur),
                        g[cur] == holders@.to_set(),
                        i < visited@.len(),
                        visited@[i as int] == cur,
                        visited@.len() >= len0,
                        visited@.len() <= n + 1,
                        visited@.len() >= 1,
                        visited@[0] == from,
                        visited@.no_duplicates(),
                        !visited@.contains(to),
                        forall|a: int| 0 <= a < visited@.len() ==> universe.contains(#[trigger] visited@[a]),
                        walks_reach(g, from, visited@, paths),
                        expanded(g, to, visited@, i as int),
                        forall|jj: int| 0 <= jj < j ==> #[trigger] holders@[jj] != to
                            && (!g.contains_key(holders@[jj]) || visited@.contains(holders@[jj])),
                        0 <= j <= holders@.len(),
                    decreases holders@.len() - j,
                {
                    let b = holders[j];
                    proof {
                        assert(holders@.to_set().contains(b));
                        assert(g[visited@[i as int]].contains(b));
                    }
                    if b == to {
                        proof {
                            let w = paths[i as int].push(b);
                            assert(is_walk(g, w)) by {
                                assert forall|x: int| 0 <= x < w.len() - 1 implies g.contains_key(#[trigger] w[x]) && g[w[x]].contains(w[x + 1]) by {
                                    if x < w.len() - 2 {
                                        assert(w[x] == paths[i as int][x]);
                                        assert(w[x + 1] == paths[i as int][x + 1]);
                                    }
                                }
                            }
                            assert(w[0] == from && w[w.len() - 1] == to);
                        }
                        return true;
                    }
                    if edges.contains_key(&b) && !contains_task(&visited, b) {
                        let ghost old_visited = visited@;
                        visited.push(b);
                        proof {
                            let w = paths[i as int].push(b);
                            assert forall|x: int| 0 <= x < w.len() - 1 implies g.contains_key(#[trigger] w[x]) && g[w[x]].contains(w[x + 1]) by {
                                if x < w.len() - 2 {
                                    assert(w[x] == paths[i as int][x]);
                                    assert(w[x + 1] == paths[i as int][x + 1]);
                                }
                            }
                            paths = paths.push(w);
                            lemma_push_fresh(old_visited, b);
                            assert(visited@ == old_visited.push(b));
                            assert(universe.contains(b)) by {
                                assert(keys.contains(b));
                                let q = choose|q: int| 0 <= q < keys.len() && keys[q] == b;
                                assert(universe[q] == b);
                            }
                            assert forall|a: int| 0 <= a < visited@.len() implies universe.contains(#[trigger] visited@[a]) by {
                                if a < old_visited.len() {
                                    assert(visited@[a] == old_visited[a]);
                                }
                            }
                            assert(!visited@.contains(to)) by {
                                if visited@.contains(to) {
                                    let q = choose|q: int| 0 <= q < visited@.len() && visited@[q] == to;
                                    if q < old_visited.len() {
                                        assert(old_visited[q] == to);
                                    }
                                }
                            }
                            assert forall|jj: int| 0 <= jj < j + 1 implies #[trigger] holders@[jj] != to
                                && (!g.contains_key(holders@[jj]) || visited@.contains(holders@[jj])) by {
                                if jj < j && g.contains_key(holders@[jj]) {
                                    let q = choose|q: int| 0 <= q < old_visited.len() && old_visited[q] == holders@[jj];
                                    assert(visited@[q] == holders@[jj]);
                                }
                                if jj == j {
                                    assert(visited@[old_visited.len() as int] == b);
                                }
                            }
                            assert(expanded(g, to, visited@, i as int)) by {
                                assert forall|a: int, c: TaskId| 0 <= a < i && g.contains_key(visited@[a]) && #[trigger] g[visited@[a]].contains(c)
                                    implies c != to && (!g.contains_key(c) || visited@.contains(c)) by {
                                    assert(visited@[a] == old_visited[a]);
                                    if g.contains_key(c) {
                                        let q = choose|q: int| 0 <= q < old_visited.len() && old_visited[q] == c;
                                        assert(visited@[q] == c);
                                    }
                                }
                            }
                            lemma_unique_subseq_len(visited@, universe);
                        }
                    }
                    j = j + 1;
                }
                proof {
                    assert forall|a: int, c: TaskId| 0 <= a < i + 1 && g.contains_key(visited@[a]) && #[trigger] g[visited@[a]].contains(c)
                        implies c != to && (!g.contains_key(c) || visited@.contains(c)) by {
                        if a == i {
                            assert(holders@.to_set().contains(c));
                            let jj = choose|jj: int| 0 <= jj < holders@.len() && holders@[jj] == c;
                        }
                    }
                }
            },
        }
        i = i + 1;
    }
    proof {
        lemma_unreachable(g, from, to, visited@);
    }
    false
}

/// Pushing an item not yet present keeps a list free of repeats.
proof fn lemma_push_fresh(s: Seq<TaskId>, x: TaskId)
    requires
        s.no_duplicates(),
        !s.contains(x),
    ensures
        s.push(x).no_duplicates(),
{
    let t = s.push(x);
    assert forall|a: int, b: int| 0 <= a < t.len() && 0 <= b < t.len() && a != b implies t[a] != t[b] by {
        if a == s.len() {
            assert(s.contains(s[b]));
        } else if b == s.len() {
            assert(s.contains(s[a]));
        }
    }
}

/// The sum, over `keys`, of the sizes of the sets `g` gives them.
pub open spec fn sum_sizes(keys: Seq<TaskId>, g: Map<TaskId, Set<TaskId>>) -> nat
    decreases keys.len(),
{
    if keys.len() == 0 {
        0
    } else {
        sum_sizes(keys.drop_last(), g) + g[keys.last()].len()
    }
}

/// The first position of `x` in `r`, which holds it.
proof fn lemma_first_index(r: Seq<TaskId>, x: TaskId) -> (k: int)
    requires
        r.contains(x),
    ensures
        0 <= k < r.len(),
        r[k] == x,
        forall|j: int| 0 <= j < k ==> r[j] != x,
    decreases r.len(),
{
    if r[0] == x {
        0
    } else {
        let i = choose|i: int| 0 <= i < r.len() && r[i] == x;
        assert(r.drop_first()[i - 1] == x);
        let k = lemma_first_index(r.drop_first(), x);
        assert forall|j: int| 0 <= j < k + 1 implies r[j] != x by {
            if j > 0 {
                assert(r[j] == r.drop_first()[j - 1]);
            }
        }
        k + 1
    }
}

/// A cycle of `with_wait(g, w, h)` in a graph `g` without cycles passes
/// through the new wait: some step goes from `w` to `h`.
proof fn lemma_cycle_uses_wait(g: Map<TaskId, Set<TaskId>>, w: TaskId, h: TaskId, c: Seq<TaskId>) -> (i: int)
    requires
        acyclic(g),
        is_cycle(with_wait(g, w, h), c),
    ensures
        0 <= i < c.len() - 1,
        c[i] == w,
        c[i + 1] == h,
{
    let g2 = with_wait(g, w, h);
    if forall|i: int| 0 <= i < c.len() - 1 ==> !(#[trigger] c[i] == w && c[i + 1] == h) {
        assert forall|i: int| 0 <= i < c.len() - 1 implies g.contains_key(#[trigger] c[i]) && g[c[i]].contains(c[i + 1]) by {
            assert(g2.contains_key(c[i]) && g2[c[i]].contains(c[i + 1]));
            if c[i] == w {
                assert(c[i + 1] != h);
            }
        }
        assert(is_cycle(g, c));
        assert(false);
    }
    choose|i: int| 0 <= i < c.len() - 1 && #[trigger] c[i] == w && c[i + 1] == h
}

/// On a graph without cycles, `would_deadlock(w, h)` (whether `w` can be
/// reached from `h`) answers exactly whether adding the wait of `w` for `h`
/// would close a cycle, which `detect_cycle` would then report.
pub proof fn law_would_deadlock_iff_new_cycle(g: Map<TaskId, Set<TaskId>>, w: TaskId, h: TaskId)
    requires
        acyclic(g),
    ensures
        reaches(g, h, w) <==> !acyclic(with_wait(g, w, h)),
{
    let g2 = with_wait(g, w, h);
    if reaches(g, h, w) {
        let p = choose|p: Seq<TaskId>| #[trigger] is_walk(g, p) && p[0] == h && p[p.len() - 1] == w;
        let c = seq![w] + p;
        assert forall|i: int| 0 <= i < c.len() - 1 implies g2.contains_key(#[trigger] c[i]) && g2[c[i]].contains(c[i + 1]) by {
            if i > 0 {
                assert(c[i] == p[i - 1]);
                assert(c[i + 1] == p[i]);
                assert(g.contains_key(p[i - 1]) && g[p[i - 1]].contains(p[i]));
            }
        }
        assert(is_cycle(g2, c));
    }
    if !acyclic(g2) {
        let c = choose|c: Seq<TaskId>| #[trigger] is_cycle(g2, c);
        let i = lemma_cycle_uses_wait(g, w, h, c);
        let n = c.len();
        let r = c.subrange(i + 1, n as int) + c.subrange(1, i + 1);
        assert(r.len() == n - 1);
        assert forall|k: int| 0 <= k < r.len() - 1 implies g2.contains_key(#[trigger] r[k]) && g2[r[k]].contains(r[k + 1]) by {
            let a = n - 1 - i;
            if k + 1 < a {
                assert(r[k] == c[i + 1 + k]);
                assert(r[k + 1] == c[i + 2 + k]);
            } else if k + 1 == a {
                assert(r[k] == c[n - 1]);
                assert(r[k + 1] == c[1]);
                assert(c[n - 1] == c[0]);
            } else {
                assert(r[k] == c[k - a + 1]);
                assert(r[k + 1] == c[k - a + 2]);
            }
        }
        assert(r[0] == h);
        assert(r[r.len() - 1] == w) by {
            if i == 0 {
                assert(r[r.len() - 1] == c[n - 1]);
            } else {
                assert(r[r.len() - 1] == c[i]);
            }
        }
        assert(r.contains(w)) by {
            assert(r[r.len() - 1] == w);
        }
        let k = lemma_first_index(r, w);
        let q = r.subrange(0, k + 1);
        assert forall|j: int| 0 <= j < q.len() - 1 implies g.contains_key(#[trigger] q[j]) && g[q[j]].contains(q[j + 1]) by {
            assert(q[j] == r[j]);
            assert(q[j + 1] == r[j + 1]);
            assert(r[j] != w);
            assert(g2.contains_key(r[j]) && g2[r[j]].contains(r[j + 1]));
        }
        assert(is_walk(g, q) && q[0] == h && q[q.len() - 1] == w);
        assert(reaches(g, h, w));
    }
}

} // verus!
