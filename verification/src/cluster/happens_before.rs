//! Happens-before tracking for causal ordering analysis, with vector clocks.
use vstd::prelude::*;
use vstd::std_specs::cmp::PartialEqSpecImpl;
use petgraph::graph::{Graph, NodeIndex};
use petgraph::Directed;
use crate::{EventId, NodeId};
use std::collections::HashMap;
use crate::util::keys::key_list;

verus! {

broadcast use vstd::std_specs::hash::group_hash_axioms;

/// A clock's entry for a node: the stored value, or 0 for a node it has
/// never seen.
pub open spec fn tick(m: Map<NodeId, u64>, n: NodeId) -> u64 {
    if m.contains_key(n) { m[n] } else { 0 }
}

/// Every entry of `a` is at most the matching entry of `b`.
pub open spec fn clock_le(a: Map<NodeId, u64>, b: Map<NodeId, u64>) -> bool {
    forall|n: NodeId| #[trigger] tick(a, n) <= tick(b, n)
}

/// `a` happened before `b`: no entry of `a` is larger, and one is smaller.
pub open spec fn clock_lt(a: Map<NodeId, u64>, b: Map<NodeId, u64>) -> bool {
    clock_le(a, b) && exists|n: NodeId| #[trigger] tick(a, n) < tick(b, n)
}

/// The larger of the two clocks' entries for `n`.
pub open spec fn max_tick(a: Map<NodeId, u64>, b: Map<NodeId, u64>, n: NodeId) -> u64 {
    if tick(a, n) >= tick(b, n) { tick(a, n) } else { tick(b, n) }
}

/// Point-wise maximum of two clocks, over the nodes either has seen.
pub open spec fn clock_max(a: Map<NodeId, u64>, b: Map<NodeId, u64>) -> Map<NodeId, u64> {
    Map::new(|n: NodeId| a.contains_key(n) || b.contains_key(n), |n: NodeId| max_tick(a, b, n))
}

/// `x` is among the first `i` items of `keys`.
pub open spec fn seen(keys: Seq<NodeId>, i: int, x: NodeId) -> bool {
    exists|j: int| 0 <= j < i && keys[j] == x
}

/// A vector clock for tracking causal ordering.
pub struct VectorClock {
    /// Clock value for each node.
    clocks: HashMap<NodeId, u64>,
}

impl View for VectorClock {
    type V = Map<NodeId, u64>;

    closed spec fn view(&self) -> Map<NodeId, u64> {
        self.clocks@
    }
}

impl VectorClock {
    /// Create a new empty vector clock.
    pub fn new() -> (r: Self)
        ensures
            r@ == Map::<NodeId, u64>::empty(),
    {
        VectorClock { clocks: HashMap::new() }
    }

    /// Get the clock value for a node (0 for a node never seen).
    pub fn get(&self, node: NodeId) -> (r: u64)
        ensures
            r == tick(self@, node),
    {
        match self.clocks.get(&node) {
            Some(v) => *v,
            None => 0,
        }
    }

    /// Increment the clock for a node.
    pub fn increment(&mut self, node: NodeId)
        requires
            tick(old(self)@, node) < u64::MAX,
        ensures
            final(self)@ == old(self)@.insert(node, (tick(old(self)@, node) + 1) as u64),
    {
        let v = self.get(node);
        self.clocks.insert(node, v + 1);
    }

    /// Merge another clock into this one (point-wise maximum).
    pub fn merge(&mut self, other: &VectorClock)
        ensures
            final(self)@ == clock_max(old(self)@, other@),
    {
        let ks = key_list(&other.clocks);
        let n = ks.len();
        let ghost keys = ks@;
        let mut i: usize = 0;
        while i < n
            invariant
                n == keys.len(),
                keys == ks@,
                keys.no_duplicates(),
                forall|k: NodeId| other@.contains_key(k) <==> #[trigger] keys.contains(k),
                0 <= i <= n,
                forall|k: NodeId| #[trigger] self@.contains_key(k) <==> (old(self)@.contains_key(k) || seen(keys, i as int, k)),
                forall|k: NodeId| #[trigger] tick(self@, k) == (if seen(keys, i as int, k) {
                    max_tick(old(self)@, other@, k)
                } else {
                    tick(old(self)@, k)
                }),
            decreases n - i,
        {
            let k = ks[i];
            let v = other.get(k);
            let cur = self.get(k);
            let m = if cur >= v { cur } else { v };
            proof {
                assert(keys.contains(k));
                assert(!seen(keys, i as int, k)) by {
                    if seen(keys, i as int, k) {
                        let j = choose|j: int| 0 <= j < i && keys[j] == k;
                        assert(keys[j] == keys[i as int]);
                    }
                }
                assert(seen(keys, i + 1, k)) by {
                    assert(keys[i as int] == k);
                }
                assert forall|x: NodeId| x != k implies seen(keys, i + 1, x) == seen(keys, i as int, x) by {
                    if seen(keys, i + 1, x) {
                        let j = choose|j: int| 0 <= j < i + 1 && keys[j] == x;
                        assert(j != i);
                    }
                }
            }
            let ghost before = self@;
            self.clocks.insert(k, m);
            proof {
                assert forall|x: NodeId| #[trigger] tick(self@, x) == (if seen(keys, i + 1, x) {
                    max_tick(old(self)@, other@, x)
                } else {
                    tick(old(self)@, x)
                }) by {
                    if x == k {
                        assert(tick(before, k) == tick(old(self)@, k));
                        assert(tick(other@, k) == v);
                    } else {
                        assert(tick(self@, x) == tick(before, x));
                    }
                }
            }
            i = i + 1;
        }
        proof {
            assert forall|k: NodeId| #[trigger] seen(keys, n as int, k) <==> other@.contains_key(k) by {
                if other@.contains_key(k) {
                    assert(keys.contains(k));
                    let j = choose|j: int| 0 <= j < keys.len() && keys[j] == k;
                    assert(seen(keys, n as int, k));
                }
                if seen(keys, n as int, k) {
                    let j = choose|j: int| 0 <= j < n && keys[j] == k;
                    assert(keys.contains(keys[j]));
                }
            }
            assert forall|k: NodeId| #[trigger] self@.contains_key(k) implies self@[k] == max_tick(old(self)@, other@, k) by {
                assert(tick(self@, k) == self@[k]);
                if !seen(keys, n as int, k) {
                    assert(tick(other@, k) == 0);
                }
            }
            assert(self@ =~= clock_max(old(self)@, other@));
        }
    }

    /// Whether this clock happened before `other`: no entry larger and at
    /// least one smaller.
    pub fn happened_before(&self, other: &VectorClock) -> (r: bool)
        ensures
            r == clock_lt(self@, other@),
    {
        let mut strictly_less = false;
        let ks = key_list(&self.clocks);
        let n = ks.len();
        let ghost keys = ks@;
        let mut i: usize = 0;
        while i < n
            invariant
                n == keys.len(),
                keys == ks@,
                forall|k: NodeId| self@.contains_key(k) <==> #[trigger] keys.contains(k),
                0 <= i <= n,
                forall|j: int| 0 <= j < i ==> tick(self@, #[trigger] keys[j]) <= tick(other@, keys[j]),
                strictly_less ==> exists|x: NodeId| #[trigger] tick(self@, x) < tick(other@, x),
                !strictly_less ==> forall|j: int| 0 <= j < i ==> tick(self@, #[trigger] keys[j]) >= tick(other@, keys[j]),
            decreases n - i,
        {
            let k = ks[i];
            let value = self.get(k);
            let other_value = other.get(k);
            proof {
                assert(keys.contains(k));
            }
            if value > other_value {
                proof {
                    assert(tick(self@, k) > tick(other@, k));
                }
                return false;
            }
            if value < other_value {
                strictly_less = true;
            }
            i = i + 1;
        }
        proof {
            assert forall|x: NodeId| #[trigger] tick(self@, x) <= tick(other@, x) by {
                if self@.contains_key(x) {
                    assert(keys.contains(x));
                    let j = choose|j: int| 0 <= j < keys.len() && keys[j] == x;
                    assert(tick(self@, keys[j]) <= tick(other@, keys[j]));
                }
            }
        }
        if strictly_less {
            return true;
        }
        let oks = key_list(&other.clocks);
        let m = oks.len();
        let ghost okeys = oks@;
        let mut j: usize = 0;
        while j < m
            invariant
                m == okeys.len(),
                okeys == oks@,
                forall|k: NodeId| other@.contains_key(k) <==> #[trigger] okeys.contains(k),
                0 <= j <= m,
                clock_le(self@, other@),
                forall|a: int| 0 <= a < j ==> self@.contains_key(#[trigger] okeys[a]) || tick(other@, okeys[a]) == 0,
            decreases m - j,
        {
            let k = oks[j];
            let value = other.get(k);
            proof {
                assert(okeys.contains(k));
            }
            if !self.clocks.contains_key(&k) && value > 0 {
                proof {
                    assert(tick(self@, k) < tick(other@, k));
                }
                return true;
            }
            j = j + 1;
        }
        proof {
            assert forall|x: NodeId| !(#[trigger] tick(self@, x) < tick(other@, x)) by {
                if self@.contains_key(x) {
                    assert(keys.contains(x));
                    let a = choose|a: int| 0 <= a < keys.len() && keys[a] == x;
                    assert(tick(self@, keys[a]) >= tick(other@, keys[a]));
                } else if other@.contains_key(x) {
                    assert(okeys.contains(x));
                    let a = choose|a: int| 0 <= a < okeys.len() && okeys[a] == x;
                    assert(self@.contains_key(okeys[a]) || tick(other@, okeys[a]) == 0);
                }
            }
        }
        false
    }

    /// Whether the two clocks are concurrent: different, and neither
    /// happened before the other.
    pub fn concurrent(&self, other: &VectorClock) -> (r: bool)
        ensures
            r == (!clock_lt(self@, other@) && !clock_lt(other@, self@) && self@ != other@),
    {
        !self.happened_before(other) && !other.happened_before(self) && !self.same_as(other)
    }

    /// Whether the two clocks hold the same entries.
    fn same_as(&self, other: &VectorClock) -> (r: bool)
        ensures
            r == (self@ == other@),
    {
        let n = self.clocks.len();
        let m = other.clocks.len();
        if n != m {
            proof {
                if self@ == other@ {
                    assert(self@.dom() == other@.dom());
                }
            }
            return false;
        }
        let ks = key_list(&self.clocks);
        let ghost keys = ks@;
        let mut i: usize = 0;
        while i < n
            invariant
                n == keys.len(),
                keys == ks@,
                forall|k: NodeId| self@.contains_key(k) <==> #[trigger] keys.contains(k),
                self@.dom().len() == other@.dom().len(),
                self@.dom().finite(),
                other@.dom().finite(),
                0 <= i <= n,
                forall|j: int| 0 <= j < i ==> other@.contains_key(#[trigger] keys[j]) && other@[keys[j]] == self@[keys[j]],
            decreases n - i,
        {
            let k = ks[i];
            let v = self.get(k);
            proof {
                assert(keys.contains(k));
                assert(v == self@[k]);
            }
            match other.clocks.get(&k) {
                Some(w) => {
                    if *w != v {
                        return false;
                    }
                },
                None => {
                    return false;
                },
            }
            i = i + 1;
        }
        proof {
            assert(self@.dom().subset_of(other@.dom())) by {
                assert forall|x: NodeId| self@.dom().contains(x) implies other@.dom().contains(x) by {
                    assert(keys.contains(x));
                    let j = choose|j: int| 0 <= j < keys.len() && keys[j] == x;
                    assert(other@.contains_key(keys[j]));
                }
            }
            vstd::set_lib::lemma_subset_equality(self@.dom(), other@.dom());
            assert forall|x: NodeId| #[trigger] self@.contains_key(x) implies self@[x] == other@[x] by {
                assert(keys.contains(x));
                let j = choose|j: int| 0 <= j < keys.len() && keys[j] == x;
                assert(other@[keys[j]] == self@[keys[j]]);
            }
            assert(self@ =~= other@);
        }
        true
    }
}

impl Clone for VectorClock {
    fn clone(&self) -> (r: Self)
        ensures
            r@ == self@,
    {
        VectorClock { clocks: self.clocks.clone() }
    }
}

impl Default for VectorClock {
    fn default() -> (r: Self)
        ensures
            r@ == Map::<NodeId, u64>::empty(),
    {
        VectorClock::new()
    }
}

impl PartialEq for VectorClock {
    fn eq(&self, other: &Self) -> (r: bool) {
        self.same_as(other)
    }
}

impl PartialEqSpecImpl for VectorClock {
    open spec fn obeys_eq_spec() -> bool {
        true
    }

    open spec fn eq_spec(&self, other: &Self) -> bool {
        self@ == other@
    }
}

impl Eq for VectorClock {}

/// Two clocks are concurrent: different, and neither happened before the other.
pub open spec fn clocks_concurrent(a: Map<NodeId, u64>, b: Map<NodeId, u64>) -> bool {
    !clock_lt(a, b) && !clock_lt(b, a) && a != b
}

/// No clock happened before itself.
pub proof fn law_happened_before_irreflexive(a: Map<NodeId, u64>)
    ensures
        !clock_lt(a, a),
{
}

/// If `a` happened before `b` and `b` before `c`, then `a` happened before `c`.
pub proof fn law_happened_before_transitive(a: Map<NodeId, u64>, b: Map<NodeId, u64>, c: Map<NodeId, u64>)
    requires
        clock_lt(a, b),
        clock_lt(b, c),
    ensures
        clock_lt(a, c),
{
    let n = choose|n: NodeId| #[trigger] tick(a, n) < tick(b, n);
    assert(tick(b, n) <= tick(c, n));
    assert forall|m: NodeId| #[trigger] tick(a, m) <= tick(c, m) by {
        assert(tick(a, m) <= tick(b, m));
        assert(tick(b, m) <= tick(c, m));
    }
}

/// If `a` happened before `b`, then `b` did not happen before `a`.
pub proof fn law_happened_before_asymmetric(a: Map<NodeId, u64>, b: Map<NodeId, u64>)
    requires
        clock_lt(a, b),
    ensures
        !clock_lt(b, a),
{
    let n = choose|n: NodeId| #[trigger] tick(a, n) < tick(b, n);
    if clock_lt(b, a) {
        assert(tick(b, n) <= tick(a, n));
    }
}

/// Concurrency does not depend on the order of the two clocks, and no clock
/// is concurrent with itself.
pub proof fn law_concurrent_symmetric(a: Map<NodeId, u64>, b: Map<NodeId, u64>)
    ensures
        clocks_concurrent(a, b) == clocks_concurrent(b, a),
        !clocks_concurrent(a, a),
{
}

/// Merging gives the least clock at or after both: each merged clock is at
/// most the result, and any clock at or after both is at or after the result.
pub proof fn law_merge_least_upper_bound(a: Map<NodeId, u64>, b: Map<NodeId, u64>, c: Map<NodeId, u64>)
    ensures
        clock_le(a, clock_max(a, b)),
        clock_le(b, clock_max(a, b)),
        clock_le(a, c) && clock_le(b, c) ==> clock_le(clock_max(a, b), c),
{
    let m = clock_max(a, b);
    assert forall|n: NodeId| #[trigger] tick(a, n) <= tick(m, n) && tick(b, n) <= tick(m, n) by {
        if a.contains_key(n) || b.contains_key(n) {
            assert(m.contains_key(n));
        }
    }
    if clock_le(a, c) && clock_le(b, c) {
        assert forall|n: NodeId| #[trigger] tick(m, n) <= tick(c, n) by {
            assert(tick(a, n) <= tick(c, n));
            assert(tick(b, n) <= tick(c, n));
        }
    }
}

/// Merging does not depend on the order of the clocks, and merging a clock
/// with itself changes nothing.
pub proof fn law_merge_commutative_idempotent(a: Map<NodeId, u64>, b: Map<NodeId, u64>)
    ensures
        clock_max(a, b) == clock_max(b, a),
        clock_max(a, a) == a,
{
    assert(clock_max(a, b) =~= clock_max(b, a));
    assert(clock_max(a, a) =~= a);
}

/// Incrementing a node's entry moves the clock strictly forward: the old
/// clock happened before the new one.
pub proof fn law_increment_advances(a: Map<NodeId, u64>, node: NodeId)
    requires
        tick(a, node) < u64::MAX,
    ensures
        clock_lt(a, a.insert(node, (tick(a, node) + 1) as u64)),
{
    let b = a.insert(node, (tick(a, node) + 1) as u64);
    assert(tick(a, node) < tick(b, node));
    assert forall|n: NodeId| #[trigger] tick(a, n) <= tick(b, n) by {
        if n != node && a.contains_key(n) {
            assert(b.contains_key(n));
        }
    }
}

/// A merged clock that then ticks its own node has happened after both
/// merged clocks: how a receive is ordered after its send.
pub proof fn law_receive_after_send(local: Map<NodeId, u64>, sent: Map<NodeId, u64>, node: NodeId)
    requires
        tick(clock_max(local, sent), node) < u64::MAX,
    ensures
        clock_lt(sent, clock_max(local, sent).insert(node, (tick(clock_max(local, sent), node) + 1) as u64)),
        clock_lt(local, clock_max(local, sent).insert(node, (tick(clock_max(local, sent), node) + 1) as u64)),
{
    let m = clock_max(local, sent);
    law_merge_least_upper_bound(local, sent, m);
    law_increment_advances(m, node);
    let after = m.insert(node, (tick(m, node) + 1) as u64);
    assert forall|n: NodeId| #[trigger] tick(sent, n) <= tick(after, n) by {
        assert(tick(sent, n) <= tick(m, n));
        assert(tick(m, n) <= tick(after, n));
    }
    assert(tick(sent, node) < tick(after, node));
    assert forall|n: NodeId| #[trigger] tick(local, n) <= tick(after, n) by {
        assert(tick(local, n) <= tick(m, n));
        assert(tick(m, n) <= tick(after, n));
    }
    assert(tick(local, node) < tick(after, node));
}

/// `petgraph`'s graph type, carried through opaquely.
#[verifier::external_type_specification]
#[verifier::external_body]
#[verifier::reject_recursive_types(N)]
#[verifier::reject_recursive_types(E)]
#[verifier::reject_recursive_types(Ty)]
#[verifier::reject_recursive_types(Ix)]
pub struct ExGraph<N, E, Ty, Ix>(Graph<N, E, Ty, Ix>);

/// `petgraph`'s marker for directed graphs.
#[verifier::external_type_specification]
#[verifier::external_body]
pub struct ExDirected(Directed);

/// The graph the happens-before events are recorded in: one node per event,
/// weighted by the event's id.
pub type EventGraph = Graph<EventId, (), Directed, u32>;

/// The node weights of a graph, in node index order.
pub uninterp spec fn graph_nodes(g: EventGraph) -> Seq<EventId>;

/// The edges of a graph, as pairs of node indices, in the order added.
pub uninterp spec fn graph_edges(g: EventGraph) -> Seq<(usize, usize)>;

/// `Graph::new`: an empty directed graph.
#[verifier::external_body]
fn graph_new() -> (r: EventGraph)
    ensures
        graph_nodes(r) == Seq::<EventId>::empty(),
        graph_edges(r) == Seq::<(usize, usize)>::empty(),
{
    Graph::new()
}

/// `Graph::add_node`: appends a node with the weight and returns its index
/// (the number of nodes before); it panics once the `u32` index space is
/// full, which `requires` rules out.
#[verifier::external_body]
fn graph_add_node(g: &mut EventGraph, weight: EventId) -> (r: usize)
    requires
        graph_nodes(*old(g)).len() < u32::MAX,
    ensures
        r == graph_nodes(*old(g)).len(),
        graph_nodes(*final(g)) == graph_nodes(*old(g)).push(weight),
        graph_edges(*final(g)) == graph_edges(*old(g)),
{
    g.add_node(weight).index()
}

/// `Graph::add_edge`: appends an edge between two existing nodes; it panics
/// on a missing node or once the `u32` edge index space is full, which
/// `requires` rules out.
#[verifier::external_body]
fn graph_add_edge(g: &mut EventGraph, a: usize, b: usize)
    requires
        a < graph_nodes(*old(g)).len(),
        b < graph_nodes(*old(g)).len(),
        graph_edges(*old(g)).len() < u32::MAX,
    ensures
        graph_nodes(*final(g)) == graph_nodes(*old(g)),
        graph_edges(*final(g)) == graph_edges(*old(g)).push((a, b)),
{
    g.add_edge(NodeIndex::new(a), NodeIndex::new(b), ());
}

/// An event in the happens-before graph.
#[derive(Clone)]
pub struct HBEvent {
    /// Unique event ID.
    pub id: EventId,
    /// Node that generated this event.
    pub node: NodeId,
    /// Event description.
    pub description: String,
    /// Vector clock at this event.
    pub clock: VectorClock,
}

/// What an event holds, as plain values.
pub struct HBEventView {
    pub id: EventId,
    pub node: NodeId,
    pub description: Seq<char>,
    pub clock: Map<NodeId, u64>,
}

impl View for HBEvent {
    type V = HBEventView;

    open spec fn view(&self) -> HBEventView {
        HBEventView { id: self.id, node: self.node, description: self.description@, clock: self.clock@ }
    }
}

/// What a happens-before graph holds, as plain values.
pub struct HBGraphView {
    /// The events, the event with id `i` at position `i`.
    pub events: Seq<HBEventView>,
    /// The current clock of each node that has had an event or a receive.
    pub node_clocks: Map<NodeId, Map<NodeId, u64>>,
    /// The graph's node weights and edges.
    pub nodes: Seq<EventId>,
    pub edges: Seq<(usize, usize)>,
}

/// The current clock of a node (empty when it has none yet).
pub open spec fn node_clock(g: HBGraphView, n: NodeId) -> Map<NodeId, u64> {
    if g.node_clocks.contains_key(n) { g.node_clocks[n] } else { Map::empty() }
}

/// No entry of a clock exceeds `k`.
pub open spec fn clock_bounded(c: Map<NodeId, u64>, k: nat) -> bool {
    forall|n: NodeId| #[trigger] tick(c, n) <= k
}

/// The position of the latest of the first `before` events that happened on
/// `node`.
pub open spec fn last_on(events: Seq<HBEventView>, node: NodeId, before: int) -> Option<int>
    decreases before,
{
    if before <= 0 {
        None
    } else if events[before - 1].node == node {
        Some(before - 1)
    } else {
        last_on(events, node, before - 1)
    }
}

/// What every graph keeps: event ids are positions, the graph has a node
/// per event, clocks stay below the event count, each event's clock is at
/// most its node's current clock, and of two events on one node the earlier
/// happened before the later.
pub open spec fn hb_graph_ok(g: HBGraphView) -> bool {
    &&& g.nodes.len() == g.events.len()
    &&& g.events.len() < u32::MAX
    &&& forall|i: int| 0 <= i < g.events.len() ==> (#[trigger] g.events[i]).id == i && g.nodes[i] == i
    &&& forall|i: int| 0 <= i < g.events.len() ==> clock_bounded((#[trigger] g.events[i]).clock, g.events.len())
    &&& forall|n: NodeId| #[trigger] g.node_clocks.contains_key(n) ==> clock_bounded(g.node_clocks[n], g.events.len())
    &&& forall|i: int| 0 <= i < g.events.len() ==> clock_le((#[trigger] g.events[i]).clock, node_clock(g, g.events[i].node))
    &&& forall|i: int, j: int|
        0 <= i < j < g.events.len() && (#[trigger] g.events[i]).node == (#[trigger] g.events[j]).node ==> clock_lt(
            g.events[i].clock,
            g.events[j].clock,
        )
}

/// Happens-before graph tracking causal relationships.
pub struct HappensBeforeGraph {
    /// The graph of events.
    graph: EventGraph,
    /// The graph node of each event, by event id.
    event_to_node: Vec<usize>,
    /// The events, by id.
    events: Vec<HBEvent>,
    /// Current vector clock per node.
    node_clocks: HashMap<NodeId, VectorClock>,
    /// Next event ID.
    next_event_id: EventId,
}

/// The views of a list of events.
pub open spec fn hb_event_views(s: Seq<HBEvent>) -> Seq<HBEventView> {
    s.map_values(|e: HBEvent| e@)
}

/// The views of the clocks of a map.
pub open spec fn clock_views(m: Map<NodeId, VectorClock>) -> Map<NodeId, Map<NodeId, u64>> {
    m.map_values(|c: VectorClock| c@)
}

impl View for HappensBeforeGraph {
    type V = HBGraphView;

    closed spec fn view(&self) -> HBGraphView {
        HBGraphView {
            events: hb_event_views(self.events@),
            node_clocks: clock_views(self.node_clocks@),
            nodes: graph_nodes(self.graph),
            edges: graph_edges(self.graph),
        }
    }
}

impl HappensBeforeGraph {
    /// The graph keeps `hb_graph_ok`, and its bookkeeping matches.
    pub closed spec fn wf(&self) -> bool {
        &&& hb_graph_ok(self@)
        &&& self.next_event_id == self.events@.len()
        &&& self.event_to_node@.len() == self.events@.len()
        &&& forall|i: int| 0 <= i < self.event_to_node@.len() ==> #[trigger] self.event_to_node@[i] == i
    }

    /// Create a new empty graph.
    pub fn new() -> (r: Self)
        ensures
            r.wf(),
            r@.events == Seq::<HBEventView>::empty(),
            r@.node_clocks == Map::<NodeId, Map<NodeId, u64>>::empty(),
            r@.edges == Seq::<(usize, usize)>::empty(),
    {
        let r = HappensBeforeGraph {
            graph: graph_new(),
            event_to_node: Vec::new(),
            events: Vec::new(),
            node_clocks: HashMap::new(),
            next_event_id: 0,
        };
        proof {
            assert(hb_event_views(r.events@) =~= Seq::<HBEventView>::empty());
            assert(clock_views(r.node_clocks@) =~= Map::<NodeId, Map<NodeId, u64>>::empty());
        }
        r
    }
}

/// A node's clock for its next event: its current clock, advanced at the
/// node.
pub open spec fn local_clock(g: HBGraphView, node: NodeId) -> Map<NodeId, u64> {
    node_clock(g, node).insert(node, (tick(node_clock(g, node), node) + 1) as u64)
}

/// The graph after a local event on `node`: the event gets the next id and
/// the node's advanced clock, and an edge comes from the node's previous
/// event, if any.
pub open spec fn after_local(g: HBGraphView, node: NodeId, description: Seq<char>) -> HBGraphView {
    let id = g.events.len();
    let c = local_clock(g, node);
    HBGraphView {
        events: g.events.push(HBEventView { id: id as u64, node: node, description: description, clock: c }),
        node_clocks: g.node_clocks.insert(node, c),
        nodes: g.nodes.push(id as u64),
        edges: match last_on(g.events, node, id as int) {
            Some(p) => g.edges.push((p as usize, id as usize)),
            None => g.edges,
        },
    }
}

/// The graph after `node` takes in the clock `sent`: its clock becomes the
/// point-wise maximum.
pub open spec fn after_absorb(g: HBGraphView, node: NodeId, sent: Map<NodeId, u64>) -> HBGraphView {
    HBGraphView { node_clocks: g.node_clocks.insert(node, clock_max(node_clock(g, node), sent)), ..g }
}

/// The graph after `to` receives what event `send` sent: when that event
/// exists, `to` first takes in its clock, and an edge joins it to the
/// receive.
pub open spec fn after_recv(g: HBGraphView, to: NodeId, send: EventId, description: Seq<char>) -> HBGraphView {
    if send < g.events.len() {
        let g2 = after_local(after_absorb(g, to, g.events[send as int].clock), to, description);
        HBGraphView { edges: g2.edges.push((send as usize, g.events.len() as usize)), ..g2 }
    } else {
        after_local(g, to, description)
    }
}

/// Event `a` happened before event `b`: both exist, they differ, and the
/// clock of `a` is before that of `b`.
pub open spec fn event_before(g: HBGraphView, a: EventId, b: EventId) -> bool {
    a != b && a < g.events.len() && b < g.events.len() && clock_lt(g.events[a as int].clock, g.events[b as int].clock)
}

/// Events `a` and `b` are concurrent: both exist, they differ, and so do
/// their clocks, neither before the other.
pub open spec fn events_concurrent(g: HBGraphView, a: EventId, b: EventId) -> bool {
    a != b && a < g.events.len() && b < g.events.len() && clocks_concurrent(
        g.events[a as int].clock,
        g.events[b as int].clock,
    )
}

proof fn lemma_le_trans(a: Map<NodeId, u64>, b: Map<NodeId, u64>, c: Map<NodeId, u64>)
    requires
        clock_le(a, b),
        clock_le(b, c),
    ensures
        clock_le(a, c),
{
    assert forall|n: NodeId| #[trigger] tick(a, n) <= tick(c, n) by {
        assert(tick(a, n) <= tick(b, n));
        assert(tick(b, n) <= tick(c, n));
    }
}

proof fn lemma_last_on(events: Seq<HBEventView>, node: NodeId, before: int)
    requires
        0 <= before <= events.len(),
    ensures
        last_on(events, node, before) matches Some(p) ==> 0 <= p < before && events[p].node == node,
    decreases before,
{
    if before > 0 && events[before - 1].node != node {
        lemma_last_on(events, node, before - 1);
    }
}

/// A local event keeps what a graph keeps.
proof fn lemma_local_ok(g: HBGraphView, node: NodeId, description: Seq<char>)
    requires
        hb_graph_ok(g),
        g.events.len() + 1 < u32::MAX,
    ensures
        hb_graph_ok(after_local(g, node, description)),
{
    let n0 = g.events.len();
    let c0 = node_clock(g, node);
    let c1 = local_clock(g, node);
    let g1 = after_local(g, node, description);
    assert(clock_bounded(c0, n0)) by {
        if !g.node_clocks.contains_key(node) {
            assert forall|m: NodeId| #[trigger] tick(c0, m) <= n0 by {}
        }
    }
    assert(tick(c0, node) <= n0);
    law_increment_advances(c0, node);
    assert(clock_bounded(c1, n0 + 1)) by {
        assert forall|m: NodeId| #[trigger] tick(c1, m) <= n0 + 1 by {
            assert(tick(c0, m) <= n0);
        }
    }
    assert forall|i: int| 0 <= i < g1.events.len() implies (#[trigger] g1.events[i]).id == i && g1.nodes[i] == i by {
        if i < n0 {
            assert(g1.events[i] == g.events[i]);
            assert(g1.nodes[i] == g.nodes[i]);
        }
    }
    assert forall|i: int| 0 <= i < g1.events.len() implies clock_bounded((#[trigger] g1.events[i]).clock, g1.events.len()) by {
        if i < n0 {
            assert(g1.events[i] == g.events[i]);
            assert(clock_bounded(g.events[i].clock, n0));
            assert forall|m: NodeId| #[trigger] tick(g.events[i].clock, m) <= n0 + 1 by {
                assert(tick(g.events[i].clock, m) <= n0);
            }
        }
    }
    assert forall|m: NodeId| #[trigger] g1.node_clocks.contains_key(m) implies clock_bounded(g1.node_clocks[m], g1.events.len()) by {
        if m != node {
            assert(g.node_clocks.contains_key(m));
            assert(clock_bounded(g.node_clocks[m], n0));
            assert forall|k: NodeId| #[trigger] tick(g.node_clocks[m], k) <= n0 + 1 by {
                assert(tick(g.node_clocks[m], k) <= n0);
            }
        }
    }
    assert forall|i: int| 0 <= i < g1.events.len() implies clock_le((#[trigger] g1.events[i]).clock, node_clock(g1, g1.events[i].node)) by {
        if i < n0 {
            let e = g.events[i];
            assert(g1.events[i] == e);
            assert(clock_le(e.clock, node_clock(g, e.node)));
            if e.node == node {
                lemma_le_trans(e.clock, c0, c1);
            } else {
                assert(node_clock(g1, e.node) == node_clock(g, e.node));
            }
        } else {
            assert(forall|m: NodeId| #[trigger] tick(c1, m) <= tick(c1, m));
        }
    }
    assert forall|i: int, j: int|
        0 <= i < j < g1.events.len() && (#[trigger] g1.events[i]).node == (#[trigger] g1.events[j]).node implies clock_lt(
            g1.events[i].clock,
            g1.events[j].clock,
        ) by {
        assert(g1.events[i] == g.events[i]);
        if j < n0 {
            assert(g1.events[j] == g.events[j]);
        } else {
            let e = g.events[i];
            assert(clock_le(e.clock, c0));
            lemma_le_trans(e.clock, c0, c1);
            assert(tick(e.clock, node) <= tick(c0, node));
            assert(tick(e.clock, node) < tick(c1, node));
        }
    }
}

/// Taking in a clock bounded by the event count keeps what a graph keeps.
proof fn lemma_absorb_ok(g: HBGraphView, node: NodeId, sent: Map<NodeId, u64>)
    requires
        hb_graph_ok(g),
        clock_bounded(sent, g.events.len()),
    ensures
        hb_graph_ok(after_absorb(g, node, sent)),
{
    let n0 = g.events.len();
    let c0 = node_clock(g, node);
    let c1 = clock_max(c0, sent);
    let g1 = after_absorb(g, node, sent);
    law_merge_least_upper_bound(c0, sent, c0);
    assert(clock_bounded(c0, n0)) by {
        if !g.node_clocks.contains_key(node) {
            assert forall|m: NodeId| #[trigger] tick(c0, m) <= n0 by {}
        }
    }
    assert forall|m: NodeId| #[trigger] g1.node_clocks.contains_key(m) implies clock_bounded(g1.node_clocks[m], n0) by {
        if m == node {
            assert forall|k: NodeId| #[trigger] tick(c1, k) <= n0 by {
                assert(tick(c0, k) <= n0);
                assert(tick(sent, k) <= n0);
            }
        }
    }
    assert forall|i: int| 0 <= i < g1.events.len() implies clock_le((#[trigger] g1.events[i]).clock, node_clock(g1, g1.events[i].node)) by {
        let e = g.events[i];
        assert(clock_le(e.clock, node_clock(g, e.node)));
        if e.node == node {
            lemma_le_trans(e.clock, c0, c1);
        } else {
            assert(node_clock(g1, e.node) == node_clock(g, e.node));
        }
    }
}

/// Of two events on one node, the earlier happened before the later.
pub proof fn law_same_node_events_ordered(g: HBGraphView, a: EventId, b: EventId)
    requires
        hb_graph_ok(g),
        a < b < g.events.len(),
        g.events[a as int].node == g.events[b as int].node,
    ensures
        event_before(g, a, b),
{
    assert(g.events[a as int].node == g.events[b as int].node);
}

/// Happening before is a strict order on the events of a graph: no event
/// before itself, never both ways, and passed on along chains.
pub proof fn law_event_order_strict(g: HBGraphView, a: EventId, b: EventId, c: EventId)
    ensures
        !event_before(g, a, a),
        event_before(g, a, b) ==> !event_before(g, b, a),
        event_before(g, a, b) && event_before(g, b, c) && a != c ==> event_before(g, a, c),
{
    if event_before(g, a, b) {
        law_happened_before_asymmetric(g.events[a as int].clock, g.events[b as int].clock);
        if event_before(g, b, c) {
            law_happened_before_transitive(g.events[a as int].clock, g.events[b as int].clock, g.events[c as int].clock);
        }
    }
}

impl HappensBeforeGraph {
    /// The position of the latest of the first `before` events on `node`.
    fn prev_on(&self, node: NodeId, before: usize) -> (r: Option<usize>)
        requires
            before <= self.events@.len(),
        ensures
            match r {
                Some(p) => last_on(self@.events, node, before as int) == Some(p as int),
                None => last_on(self@.events, node, before as int) is None,
            },
    {
        let mut k: usize = before;
        while k > 0
            invariant
                k <= before <= self.events@.len(),
                last_on(self@.events, node, before as int) == last_on(self@.events, node, k as int),
            decreases k,
        {
            proof {
                assert(self@.events[k - 1] == self.events@[k - 1]@);
            }
            if self.events[k - 1].node == node {
                return Some(k - 1);
            }
            k = k - 1;
        }
        None
    }

    /// Record a local event on a node: it gets the next id and the node's
    /// clock, advanced at the node.
    pub fn local_event(&mut self, node: NodeId, description: &str) -> (r: EventId)
        requires
            old(self).wf(),
            old(self)@.events.len() + 1 < u32::MAX,
            old(self)@.edges.len() < u32::MAX,
        ensures
            final(self).wf(),
            r == old(self)@.events.len(),
            final(self)@ == after_local(old(self)@, node, description@),
    {
        let ghost g0 = self@;
        let id = self.next_event_id;
        let idx = id as usize;
        let prev = self.prev_on(node, idx);
        let mut clock = match self.node_clocks.get(&node) {
            Some(c) => c.clone(),
            None => VectorClock::new(),
        };
        proof {
            assert(clock@ == node_clock(g0, node));
            if g0.node_clocks.contains_key(node) {
                assert(clock_bounded(g0.node_clocks[node], g0.events.len()));
                assert(tick(clock@, node) <= g0.events.len());
            }
        }
        clock.increment(node);
        let event_clock = clock.clone();
        self.node_clocks.insert(node, clock);
        let gnode = graph_add_node(&mut self.graph, id);
        self.event_to_node.push(gnode);
        let ghost ev0 = self.events@;
        self.events.push(HBEvent { id: id, node: node, description: String::from_str(description), clock: event_clock });
        self.next_event_id = id + 1;
        proof {
            assert(hb_event_views(self.events@) =~= hb_event_views(ev0).push(self.events@.last()@));
            assert(clock_views(self.node_clocks@) =~= g0.node_clocks.insert(node, local_clock(g0, node)));
        }
        match prev {
            Some(p) => {
                proof {
                    lemma_last_on(g0.events, node, idx as int);
                }
                graph_add_edge(&mut self.graph, self.event_to_node[p], self.event_to_node[idx]);
            },
            None => {},
        }
        proof {
            lemma_local_ok(g0, node, description@);
            assert(self@ == after_local(g0, node, description@));
            assert forall|i: int| 0 <= i < self.event_to_node@.len() implies #[trigger] self.event_to_node@[i] == i by {
                if i < idx {
                    assert(self.event_to_node@[i] == old(self).event_to_node@[i]);
                }
            }
        }
        id
    }

    /// Record a send event.
    pub fn send_event(&mut self, from_node: NodeId, description: &str) -> (r: EventId)
        requires
            old(self).wf(),
            old(self)@.events.len() + 1 < u32::MAX,
            old(self)@.edges.len() < u32::MAX,
        ensures
            final(self).wf(),
            r == old(self)@.events.len(),
            final(self)@ == after_local(old(self)@, from_node, description@),
    {
        self.local_event(from_node, description)
    }

    /// `node` takes in the clock `sent`.
    fn absorb(&mut self, node: NodeId, sent: &VectorClock)
        requires
            old(self).wf(),
            clock_bounded(sent@, old(self)@.events.len()),
        ensures
            final(self).wf(),
            final(self)@ == after_absorb(old(self)@, node, sent@),
    {
        let ghost g0 = self@;
        let mut clock = match self.node_clocks.get(&node) {
            Some(c) => c.clone(),
            None => VectorClock::new(),
        };
        clock.merge(sent);
        self.node_clocks.insert(node, clock);
        proof {
            assert(clock_views(self.node_clocks@) =~= g0.node_clocks.insert(
                node,
                clock_max(node_clock(g0, node), sent@),
            ));
            lemma_absorb_ok(g0, node, sent@);
            assert(self@ == after_absorb(g0, node, sent@));
        }
    }

    /// Record a receive event, linking it to the send event: the receiving
    /// node first takes in the sender's clock, so the send happened before
    /// the receive.
    #[verifier::spinoff_prover]
    #[verifier::rlimit(40)]
    pub fn recv_event(&mut self, to_node: NodeId, send_event_id: EventId, description: &str) -> (r: EventId)
        requires
            old(self).wf(),
            old(self)@.events.len() + 1 < u32::MAX,
            old(self)@.edges.len() + 1 < u32::MAX,
        ensures
            final(self).wf(),
            r == old(self)@.events.len(),
            final(self)@ == after_recv(old(self)@, to_node, send_event_id, description@),
            send_event_id < old(self)@.events.len() ==> event_before(final(self)@, send_event_id, r),
    {
        let ghost g0 = self@;
        let known = send_event_id < self.next_event_id;
        if known {
            let sent = self.events[send_event_id as usize].clock.clone();
            proof {
                assert(g0.events[send_event_id as int] == self.events@[send_event_id as int]@);
            }
            self.absorb(to_node, &sent);
        }
        let ghost g1 = self@;
        let recv_id = self.local_event(to_node, description);
        if known {
            graph_add_edge(
                &mut self.graph,
                self.event_to_node[send_event_id as usize],
                self.event_to_node[recv_id as usize],
            );
            proof {
                let sent = g0.events[send_event_id as int].clock;
                let local = node_clock(g0, to_node);
                assert(node_clock(g1, to_node) == clock_max(local, sent));
                assert(clock_bounded(clock_max(local, sent), g0.events.len())) by {
                    assert(g1.node_clocks.contains_key(to_node));
                }
                assert(tick(clock_max(local, sent), to_node) <= g0.events.len());
                law_receive_after_send(local, sent, to_node);
                assert(self@.events[send_event_id as int] == g0.events[send_event_id as int]);
            }
        }
        recv_id
    }

    /// Whether event `a` happened before event `b`.
    pub fn happened_before(&self, a: EventId, b: EventId) -> (r: bool)
        requires
            self.wf(),
        ensures
            r == event_before(self@, a, b),
    {
        if a == b {
            return false;
        }
        if a < self.next_event_id && b < self.next_event_id {
            proof {
                assert(self@.events[a as int] == self.events@[a as int]@);
                assert(self@.events[b as int] == self.events@[b as int]@);
            }
            self.events[a as usize].clock.happened_before(&self.events[b as usize].clock)
        } else {
            false
        }
    }

    /// Whether events `a` and `b` are concurrent (neither happened before the
    /// other).
    pub fn concurrent(&self, a: EventId, b: EventId) -> (r: bool)
        requires
            self.wf(),
        ensures
            r == events_concurrent(self@, a, b),
    {
        if a == b {
            return false;
        }
        if a < self.next_event_id && b < self.next_event_id {
            proof {
                assert(self@.events[a as int] == self.events@[a as int]@);
                assert(self@.events[b as int] == self.events@[b as int]@);
            }
            self.events[a as usize].clock.concurrent(&self.events[b as usize].clock)
        } else {
            false
        }
    }

    /// Get an event by ID.
    pub fn get_event(&self, id: EventId) -> (r: Option<&HBEvent>)
        requires
            self.wf(),
        ensures
            match r {
                Some(e) => id < self@.events.len() && e@ == self@.events[id as int],
                None => id >= self@.events.len(),
            },
    {
        if id < self.next_event_id {
            Some(&self.events[id as usize])
        } else {
            None
        }
    }

    /// All events, by id.
    pub fn events(&self) -> (r: &[HBEvent])
        ensures
            hb_event_views(r@) == self@.events,
    {
        self.events.as_slice()
    }

    /// Get the number of events.
    pub fn event_count(&self) -> (r: usize)
        ensures
            r == self@.events.len(),
    {
        self.events.len()
    }

    /// Reset the graph.
    pub fn reset(&mut self)
        ensures
            final(self).wf(),
            final(self)@.events == Seq::<HBEventView>::empty(),
            final(self)@.node_clocks == Map::<NodeId, Map<NodeId, u64>>::empty(),
            final(self)@.edges == Seq::<(usize, usize)>::empty(),
    {
        *self = HappensBeforeGraph::new();
    }
}

impl Default for HappensBeforeGraph {
    fn default() -> (r: Self)
        ensures
            r.wf(),
            r@.events == Seq::<HBEventView>::empty(),
    {
        HappensBeforeGraph::new()
    }
}

} // verus!
