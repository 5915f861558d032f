//! Faults to inject, the faults in force, and the schedule of faults at
//! chosen instants of simulated time.
//!
//! The schedule keeps its instants in increasing order, each with the faults
//! added for it in the order they were added. It holds faults of any type.
//! A fault that carries a probability or a clock rate holds it as a value
//! of type `R`, which the library stores and hands back unchanged.
use std::time::Duration;
use vstd::prelude::*;
use crate::time::duration::{duration_as_nanos, nanos_of};
use crate::time::Instant;
use std::collections::{HashMap, HashSet};
use crate::NodeId;

verus! {

broadcast use vstd::std_specs::hash::group_hash_axioms;

/// The instants of a schedule increase strictly, and each has a fault.
pub open spec fn schedule_ok<F>(s: Seq<(u64, Seq<F>)>) -> bool {
    &&& forall|i: int, j: int| 0 <= i < j < s.len() ==> (#[trigger] s[i]).0 < (#[trigger] s[j]).0
    &&& forall|i: int| 0 <= i < s.len() ==> (#[trigger] s[i]).1.len() > 0
}

/// The number of faults in a schedule.
pub open spec fn fault_total<F>(s: Seq<(u64, Seq<F>)>) -> nat
    decreases s.len(),
{
    if s.len() == 0 {
        0
    } else {
        fault_total(s.drop_last()) + s.last().1.len()
    }
}

/// How many instants of `s` come before `t`.
pub open spec fn before_count<F>(s: Seq<(u64, Seq<F>)>, t: u64) -> int
    decreases s.len(),
{
    if s.len() == 0 {
        0
    } else if s[0].0 < t {
        1 + before_count(s.drop_first(), t)
    } else {
        0
    }
}

/// How many instants of `s` come at or before `t`.
pub open spec fn until_count<F>(s: Seq<(u64, Seq<F>)>, t: u64) -> int
    decreases s.len(),
{
    if s.len() == 0 {
        0
    } else if s[0].0 <= t {
        1 + until_count(s.drop_first(), t)
    } else {
        0
    }
}

/// The schedule after adding `f` at `t`: appended to the faults of `t`, or
/// as the only fault of a new instant in its place in the order.
pub open spec fn schedule_add<F>(s: Seq<(u64, Seq<F>)>, t: u64, f: F) -> Seq<(u64, Seq<F>)> {
    let p = before_count(s, t);
    if p < s.len() && s[p].0 == t {
        s.update(p, (t, s[p].1.push(f)))
    } else {
        s.insert(p, (t, seq![f]))
    }
}

/// The faults scheduled at exactly `t`.
pub open spec fn faults_at_time<F>(s: Seq<(u64, Seq<F>)>, t: u64) -> Seq<F> {
    let p = before_count(s, t);
    if p < s.len() && s[p].0 == t {
        s[p].1
    } else {
        Seq::empty()
    }
}

/// The faults of one instant, each paired with the instant.
pub open spec fn entry_pairs<F>(t: u64, fs: Seq<F>) -> Seq<(u64, F)> {
    fs.map_values(|f: F| (t, f))
}

/// The faults of a schedule in order, each paired with its instant.
pub open spec fn schedule_pairs<F>(s: Seq<(u64, Seq<F>)>) -> Seq<(u64, F)>
    decreases s.len(),
{
    if s.len() == 0 {
        Seq::empty()
    } else {
        entry_pairs(s[0].0, s[0].1) + schedule_pairs(s.drop_first())
    }
}

/// The pairs of a list of pairs, instants as numbers.
pub open spec fn instant_pairs<F>(v: Seq<(Instant, F)>) -> Seq<(u64, F)> {
    v.map_values(|p: (Instant, F)| (p.0@, p.1))
}

/// Schedule of faults to inject at specific times.
pub struct FaultSchedule<F> {
    /// The instants with faults, increasing, each with its faults in the
    /// order added.
    events: Vec<(Instant, Vec<F>)>,
    /// The number of faults.
    count: usize,
}

/// The entries of a schedule, instants as numbers.
pub open spec fn entry_views<F>(v: Seq<(Instant, Vec<F>)>) -> Seq<(u64, Seq<F>)> {
    v.map_values(|e: (Instant, Vec<F>)| (e.0@, e.1@))
}

impl<F> View for FaultSchedule<F> {
    type V = Seq<(u64, Seq<F>)>;

    closed spec fn view(&self) -> Seq<(u64, Seq<F>)> {
        entry_views(self.events@)
    }
}

proof fn lemma_before_count<F>(s: Seq<(u64, Seq<F>)>, t: u64)
    requires
        schedule_ok(s),
    ensures
        0 <= before_count(s, t) <= s.len(),
        forall|i: int| 0 <= i < before_count(s, t) ==> (#[trigger] s[i]).0 < t,
        forall|i: int| before_count(s, t) <= i < s.len() ==> (#[trigger] s[i]).0 >= t,
    decreases s.len(),
{
    if s.len() > 0 {
        let r = s.drop_first();
        assert(schedule_ok(r)) by {
            assert forall|i: int, j: int| 0 <= i < j < r.len() implies (#[trigger] r[i]).0 < (#[trigger] r[j]).0 by {
                assert(r[i] == s[i + 1] && r[j] == s[j + 1]);
            }
            assert forall|i: int| 0 <= i < r.len() implies (#[trigger] r[i]).1.len() > 0 by {
                assert(r[i] == s[i + 1]);
            }
        }
        lemma_before_count(r, t);
        if s[0].0 < t {
            assert forall|i: int| 0 <= i < before_count(s, t) implies (#[trigger] s[i]).0 < t by {
                if i > 0 {
                    assert(s[i] == r[i - 1]);
                }
            }
            assert forall|i: int| before_count(s, t) <= i < s.len() implies (#[trigger] s[i]).0 >= t by {
                assert(s[i] == r[i - 1]);
            }
        } else {
            assert forall|i: int| 0 <= i < s.len() implies (#[trigger] s[i]).0 >= t by {
                if i > 0 {
                    assert(s[0].0 < s[i].0);
                }
            }
        }
    }
}

proof fn lemma_until_count<F>(s: Seq<(u64, Seq<F>)>, t: u64)
    requires
        schedule_ok(s),
    ensures
        0 <= until_count(s, t) <= s.len(),
        forall|i: int| 0 <= i < until_count(s, t) ==> (#[trigger] s[i]).0 <= t,
        forall|i: int| until_count(s, t) <= i < s.len() ==> (#[trigger] s[i]).0 > t,
    decreases s.len(),
{
    if s.len() > 0 {
        let r = s.drop_first();
        assert(schedule_ok(r)) by {
            assert forall|i: int, j: int| 0 <= i < j < r.len() implies (#[trigger] r[i]).0 < (#[trigger] r[j]).0 by {
                assert(r[i] == s[i + 1] && r[j] == s[j + 1]);
            }
            assert forall|i: int| 0 <= i < r.len() implies (#[trigger] r[i]).1.len() > 0 by {
                assert(r[i] == s[i + 1]);
            }
        }
        lemma_until_count(r, t);
        if s[0].0 <= t {
            assert forall|i: int| 0 <= i < until_count(s, t) implies (#[trigger] s[i]).0 <= t by {
                if i > 0 {
                    assert(s[i] == r[i - 1]);
                }
            }
            assert forall|i: int| until_count(s, t) <= i < s.len() implies (#[trigger] s[i]).0 > t by {
                assert(s[i] == r[i - 1]);
            }
        } else {
            assert forall|i: int| 0 <= i < s.len() implies (#[trigger] s[i]).0 > t by {
                if i > 0 {
                    assert(s[0].0 < s[i].0);
                }
            }
        }
    }
}

/// A count of leading instants is the first position whose instant passes
/// the bound, when the instants increase.
proof fn lemma_count_is_first<F>(s: Seq<(u64, Seq<F>)>, t: u64, k: int, strict: bool)
    requires
        0 <= k <= s.len(),
        forall|i: int| 0 <= i < k ==> if strict { (#[trigger] s[i]).0 < t } else { (#[trigger] s[i]).0 <= t },
        k < s.len() ==> if strict { s[k].0 >= t } else { s[k].0 > t },
    ensures
        strict ==> before_count(s, t) == k,
        !strict ==> until_count(s, t) == k,
    decreases k,
{
    if k > 0 {
        let r = s.drop_first();
        assert forall|i: int| 0 <= i < k - 1 implies if strict { (#[trigger] r[i]).0 < t } else { (#[trigger] r[i]).0 <= t } by {
            assert(r[i] == s[i + 1]);
        }
        if k - 1 < r.len() {
            assert(r[k - 1] == s[k]);
        }
        lemma_count_is_first(r, t, k - 1, strict);
        assert(s[0] == s[0]);
    }
}

proof fn lemma_total_push<F>(s: Seq<(u64, Seq<F>)>, i: int, e: (u64, Seq<F>))
    requires
        0 <= i < s.len(),
    ensures
        fault_total(s.update(i, e)) + s[i].1.len() == fault_total(s) + e.1.len(),
    decreases s.len(),
{
    if i < s.len() - 1 {
        lemma_total_push(s.drop_last(), i, e);
        assert(s.update(i, e).drop_last() =~= s.drop_last().update(i, e));
    } else {
        assert(s.update(i, e).drop_last() =~= s.drop_last());
    }
}

proof fn lemma_total_insert<F>(s: Seq<(u64, Seq<F>)>, i: int, e: (u64, Seq<F>))
    requires
        0 <= i <= s.len(),
    ensures
        fault_total(s.insert(i, e)) == fault_total(s) + e.1.len(),
    decreases s.len(),
{
    if i < s.len() {
        lemma_total_insert(s.drop_last(), i, e);
        assert(s.insert(i, e).drop_last() =~= s.drop_last().insert(i, e));
        assert(s.insert(i, e).last() == s.last());
    } else {
        assert(s.insert(i, e).drop_last() =~= s);
    }
}

proof fn lemma_total_split<F>(s: Seq<(u64, Seq<F>)>, k: int)
    requires
        0 <= k <= s.len(),
    ensures
        fault_total(s) == fault_total(s.take(k)) + fault_total(s.skip(k)),
    decreases s.len(),
{
    if k < s.len() {
        lemma_total_split(s.drop_last(), k);
        assert(s.drop_last().take(k) =~= s.take(k));
        assert(s.skip(k).drop_last() =~= s.drop_last().skip(k));
        assert(s.skip(k).last() == s.last());
    } else {
        assert(s.take(k) =~= s);
        assert(s.skip(k) =~= Seq::<(u64, Seq<F>)>::empty());
    }
}

impl<F> FaultSchedule<F> {
    /// The schedule's instants increase, each has a fault, and the count
    /// is the number of faults.
    pub closed spec fn wf(&self) -> bool {
        &&& schedule_ok(entry_views(self.events@))
        &&& self.count == fault_total(entry_views(self.events@))
    }

    /// Creates an empty fault schedule.
    pub fn new() -> (r: Self)
        ensures
            r.wf(),
            r@ == Seq::<(u64, Seq<F>)>::empty(),
    {
        let r = FaultSchedule { events: Vec::new(), count: 0 };
        proof {
            assert(entry_views(r.events@) =~= Seq::<(u64, Seq<F>)>::empty());
        }
        r
    }

    /// The position of the first instant at or after `t`.
    fn position(&self, t: u64) -> (r: usize)
        requires
            self.wf(),
        ensures
            r == before_count(self@, t),
    {
        proof {
            lemma_before_count(self@, t);
        }
        let mut i: usize = 0;
        while i < self.events.len() && self.events[i].0.0 < t
            invariant
                i <= self.events@.len(),
                self@ == entry_views(self.events@),
                forall|j: int| 0 <= j < i ==> (#[trigger] self@[j]).0 < t,
            decreases self.events@.len() - i,
        {
            proof {
                assert(self@[i as int].0 == self.events@[i as int].0@);
            }
            i = i + 1;
        }
        proof {
            if i < self.events@.len() {
                assert(self@[i as int].0 == self.events@[i as int].0@);
            }
            lemma_count_is_first(self@, t, i as int, true);
        }
        i
    }

    /// Adds a fault to occur at the given instant, after those already
    /// there.
    pub fn add(&mut self, at: Instant, fault: F)
        requires
            old(self).wf(),
            fault_total(old(self)@) < usize::MAX,
        ensures
            final(self).wf(),
            final(self)@ == schedule_add(old(self)@, at@, fault),
    {
        let ghost s = self@;
        let p = self.position(at.0);
        proof {
            lemma_before_count(s, at@);
        }
        if p < self.events.len() && self.events[p].0.0 == at.0 {
            let (t, mut list) = self.events.remove(p);
            let ghost l0 = list@;
            list.push(fault);
            self.events.insert(p, (t, list));
            proof {
                assert(s[p as int] == (t@, l0));
                let e = (at@, l0.push(fault));
                assert(entry_views(self.events@) =~= s.update(p as int, e));
                lemma_total_push(s, p as int, e);
                let n = s.update(p as int, e);
                assert forall|i: int, j: int| 0 <= i < j < n.len() implies (#[trigger] n[i]).0 < (#[trigger] n[j]).0 by {
                    assert(s[i].0 < s[j].0);
                }
            }
            self.count = self.count + 1;
        } else {
            let mut list: Vec<F> = Vec::new();
            list.push(fault);
            self.events.insert(p, (at, list));
            proof {
                let e = (at@, seq![fault]);
                assert(list@ =~= seq![fault]);
                assert(entry_views(self.events@) =~= s.insert(p as int, e));
                lemma_total_insert(s, p as int, e);
                let n = s.insert(p as int, e);
                assert forall|i: int, j: int| 0 <= i < j < n.len() implies (#[trigger] n[i]).0 < (#[trigger] n[j]).0 by {
                    if j < p {
                        assert(n[i] == s[i] && n[j] == s[j]);
                    } else if j == p {
                        assert(n[i] == s[i]);
                    } else if i < p {
                        assert(n[i] == s[i] && n[j] == s[j - 1]);
                    } else if i == p {
                        assert(n[j] == s[j - 1]);
                    } else {
                        assert(n[i] == s[i - 1] && n[j] == s[j - 1]);
                    }
                }
                assert forall|i: int| 0 <= i < n.len() implies (#[trigger] n[i]).1.len() > 0 by {
                    if i < p {
                        assert(n[i] == s[i]);
                    } else if i > p {
                        assert(n[i] == s[i - 1]);
                    }
                }
            }
            self.count = self.count + 1;
        }
    }

    /// Returns all faults scheduled at exactly the given instant, in the
    /// order added.
    pub fn faults_at(&self, instant: Instant) -> (r: Vec<&F>)
        requires
            self.wf(),
        ensures
            r@.len() == faults_at_time(self@, instant@).len(),
            forall|i: int| 0 <= i < r@.len() ==> *(#[trigger] r@[i]) == faults_at_time(self@, instant@)[i],
    {
        let p = self.position(instant.0);
        let mut out: Vec<&F> = Vec::new();
        proof {
            lemma_before_count(self@, instant@);
        }
        if p < self.events.len() && self.events[p].0.0 == instant.0 {
            let list = &self.events[p].1;
            let mut i: usize = 0;
            while i < list.len()
                invariant
                    i <= list@.len(),
                    out@.len() == i,
                    forall|k: int| 0 <= k < i ==> *(#[trigger] out@[k]) == list@[k],
                decreases list@.len() - i,
            {
                out.push(&list[i]);
                i = i + 1;
            }
            proof {
                assert(self@[p as int] == (self.events@[p as int].0@, list@));
            }
        }
        out
    }

    /// Returns the next fault time strictly after the given instant.
    pub fn next_fault_time(&self, after: Instant) -> (r: Option<Instant>)
        requires
            self.wf(),
        ensures
            r is None <==> until_count(self@, after@) == self@.len(),
            r matches Some(t) ==> until_count(self@, after@) < self@.len() && t@ == self@[until_count(
                self@,
                after@,
            )].0,
    {
        proof {
            lemma_until_count(self@, after@);
        }
        let mut i: usize = 0;
        while i < self.events.len() && self.events[i].0.0 <= after.0
            invariant
                i <= self.events@.len(),
                self@ == entry_views(self.events@),
                forall|j: int| 0 <= j < i ==> (#[trigger] self@[j]).0 <= after@,
            decreases self.events@.len() - i,
        {
            proof {
                assert(self@[i as int].0 == self.events@[i as int].0@);
            }
            i = i + 1;
        }
        proof {
            if i < self.events@.len() {
                assert(self@[i as int].0 == self.events@[i as int].0@);
            }
            lemma_count_is_first(self@, after@, i as int, false);
        }
        if i < self.events.len() {
            Some(self.events[i].0)
        } else {
            None
        }
    }

    /// Removes and returns all faults scheduled up to and including the
    /// given instant, in order of instant and, within one, of adding.
    pub fn take_faults_until(&mut self, until: Instant) -> (r: Vec<(Instant, F)>)
        requires
            old(self).wf(),
        ensures
            final(self).wf(),
            instant_pairs(r@) == schedule_pairs(old(self)@.take(until_count(old(self)@, until@))),
            final(self)@ == old(self)@.skip(until_count(old(self)@, until@)),
    {
        let ghost s = self@;
        let mut k: usize = 0;
        proof {
            lemma_until_count(s, until@);
        }
        while k < self.events.len() && self.events[k].0.0 <= until.0
            invariant
                k <= self.events@.len(),
                s == entry_views(self.events@),
                forall|j: int| 0 <= j < k ==> (#[trigger] s[j]).0 <= until@,
            decreases self.events@.len() - k,
        {
            proof {
                assert(s[k as int].0 == self.events@[k as int].0@);
            }
            k = k + 1;
        }
        proof {
            if k < self.events@.len() {
                assert(s[k as int].0 == self.events@[k as int].0@);
            }
            lemma_count_is_first(s, until@, k as int, false);
            lemma_total_split(s, k as int);
        }
        let mut taken = self.events.split_off(k);
        std::mem::swap(&mut self.events, &mut taken);
        proof {
            assert(entry_views(taken@) =~= s.take(k as int));
        }
        let taken_count = fault_total_of(&taken);
        proof {
            assert(entry_views(self.events@) =~= s.skip(k as int));
            assert(schedule_ok(s.skip(k as int))) by {
                let n = s.skip(k as int);
                assert forall|i: int, j: int| 0 <= i < j < n.len() implies (#[trigger] n[i]).0 < (#[trigger] n[j]).0 by {
                    assert(n[i] == s[i + k] && n[j] == s[j + k]);
                }
                assert forall|i: int| 0 <= i < n.len() implies (#[trigger] n[i]).1.len() > 0 by {
                    assert(n[i] == s[i + k]);
                }
            }
        }
        self.count = self.count - taken_count;
        flatten_entries(taken)
    }

    /// Returns true if there are no scheduled faults.
    pub fn is_empty(&self) -> (r: bool)
        requires
            self.wf(),
        ensures
            r == (self@.len() == 0),
            r == (fault_total(self@) == 0),
    {
        proof {
            if self@.len() > 0 {
                lemma_total_split(self@, self@.len() - 1);
                assert(self@.skip(self@.len() - 1) =~= seq![self@.last()]);
                assert(seq![self@.last()].drop_last() =~= Seq::<(u64, Seq<F>)>::empty());
                assert(self@.last() == self@[self@.len() - 1]);
            }
        }
        self.events.len() == 0
    }

    /// Returns the total number of scheduled faults.
    pub fn len(&self) -> (r: usize)
        requires
            self.wf(),
        ensures
            r == fault_total(self@),
    {
        self.count
    }
}

impl<F> Default for FaultSchedule<F> {
    fn default() -> (r: Self)
        ensures
            r.wf(),
            r@ == Seq::<(u64, Seq<F>)>::empty(),
    {
        FaultSchedule::new()
    }
}

/// The number of faults in a list of entries.
fn fault_total_of<F>(v: &Vec<(Instant, Vec<F>)>) -> (r: usize)
    requires
        fault_total(entry_views(v@)) <= usize::MAX,
    ensures
        r == fault_total(entry_views(v@)),
{
    let ghost s = entry_views(v@);
    let mut sum: usize = 0;
    let mut i: usize = 0;
    proof {
        assert(s.take(0) =~= Seq::<(u64, Seq<F>)>::empty());
    }
    while i < v.len()
        invariant
            s == entry_views(v@),
            fault_total(s) <= usize::MAX,
            i <= v@.len(),
            sum == fault_total(s.take(i as int)),
        decreases v@.len() - i,
    {
        proof {
            let q = s.take(i as int + 1);
            assert(q.drop_last() =~= s.take(i as int));
            assert(q.last() == s[i as int]);
            lemma_total_split(s, i as int + 1);
        }
        sum = sum + v[i].1.len();
        i = i + 1;
    }
    proof {
        assert(s.take(v@.len() as int) =~= s);
    }
    sum
}

/// The faults of a list of entries in order, each paired with its instant.
fn flatten_entries<F>(v: Vec<(Instant, Vec<F>)>) -> (r: Vec<(Instant, F)>)
    ensures
        instant_pairs(r@) == schedule_pairs(entry_views(v@)),
{
    let ghost s = entry_views(v@);
    let mut rest = v;
    let mut out: Vec<(Instant, F)> = Vec::new();
    proof {
        assert(instant_pairs(out@) =~= Seq::<(u64, F)>::empty());
        assert(Seq::<(u64, F)>::empty() + schedule_pairs(s) =~= schedule_pairs(s));
    }
    while rest.len() > 0
        invariant
            instant_pairs(out@) + schedule_pairs(entry_views(rest@)) == schedule_pairs(s),
        decreases rest@.len(),
    {
        let ghost r0 = entry_views(rest@);
        let (t, mut list) = rest.remove(0);
        proof {
            assert(r0[0] == (t@, list@));
            assert(r0.drop_first() =~= entry_views(rest@));
        }
        let ghost l0 = list@;
        let ghost out0 = instant_pairs(out@);
        while list.len() > 0
            invariant
                instant_pairs(out@) + entry_pairs(t@, list@) == out0 + entry_pairs(t@, l0),
            decreases list@.len(),
        {
            let ghost lb = list@;
            let f = list.remove(0);
            let ghost ob = out@;
            out.push((t, f));
            proof {
                assert(instant_pairs(out@) =~= instant_pairs(ob).push((t@, f)));
                assert(entry_pairs(t@, lb) =~= seq![(t@, f)] + entry_pairs(t@, list@));
                assert(instant_pairs(out@) + entry_pairs(t@, list@) =~= instant_pairs(ob) + entry_pairs(t@, lb));
            }
        }
        proof {
            assert(entry_pairs(t@, list@) =~= Seq::<(u64, F)>::empty());
            assert(instant_pairs(out@) =~= out0 + entry_pairs(t@, l0));
            assert(schedule_pairs(r0) == entry_pairs(t@, l0) + schedule_pairs(entry_views(rest@)));
            assert(instant_pairs(out@) + schedule_pairs(entry_views(rest@)) =~= out0 + schedule_pairs(r0));
        }
    }
    proof {
        assert(entry_views(rest@) =~= Seq::<(u64, Seq<F>)>::empty());
        assert(instant_pairs(out@) + Seq::<(u64, F)>::empty() =~= instant_pairs(out@));
    }
    out
}

proof fn lemma_pairs_split<F>(s: Seq<(u64, Seq<F>)>, k: int)
    requires
        0 <= k <= s.len(),
    ensures
        schedule_pairs(s.take(k)) + schedule_pairs(s.skip(k)) == schedule_pairs(s),
    decreases k,
{
    if k == 0 {
        assert(s.take(0) =~= Seq::<(u64, Seq<F>)>::empty());
        assert(s.skip(0) =~= s);
        assert(Seq::<(u64, F)>::empty() + schedule_pairs(s) =~= schedule_pairs(s));
    } else {
        let r = s.drop_first();
        lemma_pairs_split(r, k - 1);
        assert(s.take(k).drop_first() =~= r.take(k - 1));
        assert(s.take(k)[0] == s[0]);
        assert(s.skip(k) =~= r.skip(k - 1));
        assert(schedule_pairs(s.take(k)) == entry_pairs(s[0].0, s[0].1) + schedule_pairs(r.take(k - 1)));
        assert(schedule_pairs(s.take(k)) + schedule_pairs(s.skip(k)) =~= entry_pairs(s[0].0, s[0].1) + (
        schedule_pairs(r.take(k - 1)) + schedule_pairs(r.skip(k - 1))));
    }
}

proof fn lemma_pairs_times<F>(s: Seq<(u64, Seq<F>)>, bound: u64)
    requires
        forall|i: int| 0 <= i < s.len() ==> (#[trigger] s[i]).0 <= bound,
    ensures
        forall|i: int| 0 <= i < schedule_pairs(s).len() ==> (#[trigger] schedule_pairs(s)[i]).0 <= bound,
    decreases s.len(),
{
    if s.len() > 0 {
        let r = s.drop_first();
        assert forall|i: int| 0 <= i < r.len() implies (#[trigger] r[i]).0 <= bound by {
            assert(r[i] == s[i + 1]);
        }
        lemma_pairs_times(r, bound);
        let head = entry_pairs(s[0].0, s[0].1);
        let all = schedule_pairs(s);
        assert forall|i: int| 0 <= i < all.len() implies (#[trigger] all[i]).0 <= bound by {
            if i < head.len() {
                assert(all[i] == head[i]);
            } else {
                assert(all[i] == schedule_pairs(r)[i - head.len()]);
            }
        }
    }
}

/// Adding a fault at an instant appends it to that instant's faults and
/// leaves every other instant's faults as they were.
pub proof fn law_add_appends_at_its_instant<F>(s: Seq<(u64, Seq<F>)>, t: u64, f: F, other: u64)
    requires
        schedule_ok(s),
    ensures
        faults_at_time(schedule_add(s, t, f), t) == faults_at_time(s, t).push(f),
        other != t ==> faults_at_time(schedule_add(s, t, f), other) == faults_at_time(s, other),
        schedule_ok(schedule_add(s, t, f)),
{
    lemma_before_count(s, t);
    lemma_before_count(s, other);
    let p = before_count(s, t);
    let q = before_count(s, other);
    let n = schedule_add(s, t, f);
    if p < s.len() && s[p].0 == t {
        assert forall|i: int, j: int| 0 <= i < j < n.len() implies (#[trigger] n[i]).0 < (#[trigger] n[j]).0 by {
            assert(s[i].0 < s[j].0);
        }
        lemma_count_is_first(n, t, p, true);
        assert forall|i: int| 0 <= i < q implies (#[trigger] n[i]).0 < other by {
            assert(n[i].0 == s[i].0);
        }
        if q < n.len() {
            assert(n[q].0 == s[q].0);
        }
        lemma_count_is_first(n, other, q, true);
    } else {
        assert forall|i: int, j: int| 0 <= i < j < n.len() implies (#[trigger] n[i]).0 < (#[trigger] n[j]).0 by {
            if j < p {
                assert(n[i] == s[i] && n[j] == s[j]);
            } else if j == p {
                assert(n[i] == s[i]);
            } else if i < p {
                assert(n[i] == s[i] && n[j] == s[j - 1]);
            } else if i == p {
                assert(n[j] == s[j - 1]);
            } else {
                assert(n[i] == s[i - 1] && n[j] == s[j - 1]);
            }
        }
        assert forall|i: int| 0 <= i < n.len() implies (#[trigger] n[i]).1.len() > 0 by {
            if i < p {
                assert(n[i] == s[i]);
            } else if i > p {
                assert(n[i] == s[i - 1]);
            }
        }
        assert forall|i: int| 0 <= i < p implies (#[trigger] n[i]).0 < t by {
            assert(n[i] == s[i]);
        }
        lemma_count_is_first(n, t, p, true);
        assert(seq![f] =~= Seq::<F>::empty().push(f));
        if other != t {
            if other < t {
                assert forall|i: int| 0 <= i < q implies (#[trigger] n[i]).0 < other by {
                    assert(n[i] == s[i]);
                }
                if q < p {
                    assert(n[q] == s[q]);
                }
                lemma_count_is_first(n, other, q, true);
                if q < s.len() && q < p {
                    assert(n[q] == s[q]);
                }
            } else {
                assert forall|i: int| 0 <= i < q + 1 implies (#[trigger] n[i]).0 < other by {
                    if i < p {
                        assert(n[i] == s[i]);
                    } else if i > p {
                        assert(n[i] == s[i - 1]);
                    }
                }
                if q + 1 < n.len() {
                    assert(n[q + 1] == s[q]);
                }
                lemma_count_is_first(n, other, q + 1, true);
            }
        }
    }
}

/// Taking the faults up to an instant loses none and keeps their order:
/// those taken, then those left, are all the faults; the taken ones are at
/// or before the instant, and the instants left after it.
pub proof fn law_take_splits_schedule<F>(s: Seq<(u64, Seq<F>)>, until: u64)
    requires
        schedule_ok(s),
    ensures
        schedule_pairs(s.take(until_count(s, until))) + schedule_pairs(s.skip(until_count(s, until)))
            == schedule_pairs(s),
        forall|i: int|
            0 <= i < schedule_pairs(s.take(until_count(s, until))).len() ==> (#[trigger] schedule_pairs(
                s.take(until_count(s, until)),
            )[i]).0 <= until,
        forall|i: int|
            0 <= i < s.skip(until_count(s, until)).len() ==> (#[trigger] s.skip(until_count(s, until))[i]).0 > until,
{
    lemma_until_count(s, until);
    let k = until_count(s, until);
    lemma_pairs_split(s, k);
    let a = s.take(k);
    assert forall|i: int| 0 <= i < a.len() implies (#[trigger] a[i]).0 <= until by {
        assert(a[i] == s[i]);
    }
    lemma_pairs_times(a, until);
    let b = s.skip(k);
    assert forall|i: int| 0 <= i < b.len() implies (#[trigger] b[i]).0 > until by {
        assert(b[i] == s[i + k]);
    }
}

/// Two nodes may talk under a partition into `groups`: there is no
/// partition, or one group holds both.
pub open spec fn partition_allows(groups: Seq<Seq<NodeId>>, from: NodeId, to: NodeId) -> bool {
    groups.len() == 0 || exists|i: int| 0 <= i < groups.len() && (#[trigger] groups[i]).contains(from) && groups[i].contains(to)
}

/// Whether `id` is in `ids`.
fn holds_id(ids: &Vec<NodeId>, id: NodeId) -> (r: bool)
    ensures
        r == ids@.contains(id),
{
    let mut i: usize = 0;
    while i < ids.len()
        invariant
            i <= ids@.len(),
            forall|j: int| 0 <= j < i ==> ids@[j] != id,
        decreases ids@.len() - i,
    {
        if ids[i] == id {
            return true;
        }
        i = i + 1;
    }
    false
}

/// The node lists of a partition's groups.
pub open spec fn group_views(groups: Seq<Vec<NodeId>>) -> Seq<Seq<NodeId>> {
    groups.map_values(|g: Vec<NodeId>| g@)
}

/// Checks if two nodes can communicate given the partition into `groups`
/// (no groups: no partition).
pub fn can_communicate(groups: &[Vec<NodeId>], from: NodeId, to: NodeId) -> (r: bool)
    ensures
        r == partition_allows(group_views(groups@), from, to),
{
    if groups.len() == 0 {
        return true;
    }
    let ghost gs = group_views(groups@);
    let mut i: usize = 0;
    while i < groups.len()
        invariant
            gs == group_views(groups@),
            i <= groups@.len(),
            forall|j: int| 0 <= j < i ==> !((#[trigger] gs[j]).contains(from) && gs[j].contains(to)),
        decreases groups@.len() - i,
    {
        proof {
            assert(gs[i as int] == groups@[i as int]@);
        }
        if holds_id(&groups[i], from) && holds_id(&groups[i], to) {
            return true;
        }
        i = i + 1;
    }
    false
}


/// A fault to inject into the simulated network, clocks or disks.
#[derive(Clone, Debug, PartialEq)]
pub enum Fault<R> {
    /// Network partition: only nodes within the same group can communicate.
    Partition { groups: Vec<Vec<NodeId>> },
    /// Drop messages on all links with the given probability.
    Drop { rate: R },
    /// Add a latency in the given range to all links.
    Delay { min: Duration, max: Duration },
    /// Duplicate messages on all links with the given probability.
    Duplicate { rate: R },
    /// Run a node's clock at the given rate.
    ClockSkew { node: NodeId, rate: R },
    /// Move a node's clock by `delta` nanoseconds (backward when negative).
    ClockJump { node: NodeId, delta: i64 },
    /// Crash a node.
    Crash { node: NodeId },
    /// Restart a crashed node.
    Restart { node: NodeId },
    /// Fail disk reads with the given probability.
    DiskReadError { rate: R },
    /// Fail disk writes with the given probability.
    DiskWriteError { rate: R },
    /// Fail every disk write.
    FullDisk,
    /// Corrupt data with the given probability.
    Corrupt { rate: R },
    /// Remove every fault in force.
    Heal,
}

impl<R> Fault<R> {
    /// A partition into `groups`.
    pub fn partition(groups: Vec<Vec<NodeId>>) -> (r: Self)
        ensures
            r == (Fault::<R>::Partition { groups }),
    {
        Fault::Partition { groups }
    }

    /// A partition into two groups.
    pub fn split(group_a: Vec<NodeId>, group_b: Vec<NodeId>) -> (r: Self)
        ensures
            r matches Fault::Partition { groups } && groups@ == seq![group_a, group_b],
    {
        Fault::Partition { groups: vec![group_a, group_b] }
    }

    /// A latency between `min` and `max` on all links.
    pub fn delay(min: Duration, max: Duration) -> (r: Self)
        ensures
            r == (Fault::<R>::Delay { min, max }),
    {
        Fault::Delay { min, max }
    }

    /// A jump of `node`'s clock by `delta_nanos` nanoseconds.
    pub fn clock_jump(node: NodeId, delta_nanos: i64) -> (r: Self)
        ensures
            r == (Fault::<R>::ClockJump { node, delta: delta_nanos }),
    {
        Fault::ClockJump { node, delta: delta_nanos }
    }

    /// A forward jump of `node`'s clock by `amount`, whose length in
    /// nanoseconds is taken as an `i64` (its low 64 bits).
    pub fn clock_jump_forward(node: NodeId, amount: Duration) -> (r: Self)
        ensures
            r == (Fault::<R>::ClockJump { node, delta: nanos_of(amount) as i64 }),
    {
        let nanos = duration_as_nanos(&amount);
        Fault::ClockJump { node, delta: nanos as i64 }
    }

    /// A crash of `node`.
    pub fn crash(node: NodeId) -> (r: Self)
        ensures
            r == (Fault::<R>::Crash { node }),
    {
        Fault::Crash { node }
    }

    /// A restart of `node`.
    pub fn restart(node: NodeId) -> (r: Self)
        ensures
            r == (Fault::<R>::Restart { node }),
    {
        Fault::Restart { node }
    }

    /// A full disk.
    pub fn full_disk() -> (r: Self)
        ensures
            r == Fault::<R>::FullDisk,
    {
        Fault::FullDisk
    }

    /// The end of every fault.
    pub fn heal() -> (r: Self)
        ensures
            r == Fault::<R>::Heal,
    {
        Fault::Heal
    }
}

/// The faults in force, as plain values.
pub struct FaultStateView<R> {
    /// The partition groups; none when there is no partition.
    pub partition_groups: Seq<Seq<NodeId>>,
    /// The drop probability last set, if any.
    pub drop_rate: Option<R>,
    /// The latency range last set, if any.
    pub delay: Option<(Duration, Duration)>,
    /// The duplicate probability last set, if any.
    pub duplicate_rate: Option<R>,
    /// The clock rate of each skewed node.
    pub clock_skews: Map<NodeId, R>,
    /// The total clock jump of each node that jumped.
    pub clock_offsets: Map<NodeId, i64>,
    /// The crashed nodes.
    pub crashed_nodes: Set<NodeId>,
    /// The disk read failure probability last set, if any.
    pub disk_read_error_rate: Option<R>,
    /// The disk write failure probability last set, if any.
    pub disk_write_error_rate: Option<R>,
    /// Whether every disk write fails.
    pub full_disk: bool,
    /// The corruption probability last set, if any.
    pub corruption_rate: Option<R>,
}

impl<R> FaultStateView<R> {
    /// No fault in force.
    pub open spec fn healthy() -> FaultStateView<R> {
        FaultStateView {
            partition_groups: Seq::empty(),
            drop_rate: None,
            delay: None,
            duplicate_rate: None,
            clock_skews: Map::empty(),
            clock_offsets: Map::empty(),
            crashed_nodes: Set::empty(),
            disk_read_error_rate: None,
            disk_write_error_rate: None,
            full_disk: false,
            corruption_rate: None,
        }
    }

    /// The total clock jump of `node`; zero if it never jumped.
    pub open spec fn offset_of(self, node: NodeId) -> int {
        if self.clock_offsets.contains_key(node) { self.clock_offsets[node] as int } else { 0 }
    }

    /// Whether applying `f` keeps every clock offset within an `i64`.
    pub open spec fn can_apply(self, f: Fault<R>) -> bool {
        match f {
            Fault::ClockJump { node, delta } => i64::MIN <= self.offset_of(node) + delta <= i64::MAX,
            _ => true,
        }
    }

    /// The faults in force once `f` is applied.
    pub open spec fn applied(self, f: Fault<R>) -> FaultStateView<R> {
        match f {
            Fault::Partition { groups } => FaultStateView { partition_groups: group_views(groups@), ..self },
            Fault::Drop { rate } => FaultStateView { drop_rate: Some(rate), ..self },
            Fault::Delay { min, max } => FaultStateView { delay: Some((min, max)), ..self },
            Fault::Duplicate { rate } => FaultStateView { duplicate_rate: Some(rate), ..self },
            Fault::ClockSkew { node, rate } => FaultStateView {
                clock_skews: self.clock_skews.insert(node, rate),
                ..self
            },
            Fault::ClockJump { node, delta } => FaultStateView {
                clock_offsets: self.clock_offsets.insert(node, (self.offset_of(node) + delta) as i64),
                ..self
            },
            Fault::Crash { node } => FaultStateView { crashed_nodes: self.crashed_nodes.insert(node), ..self },
            Fault::Restart { node } => FaultStateView { crashed_nodes: self.crashed_nodes.remove(node), ..self },
            Fault::DiskReadError { rate } => FaultStateView { disk_read_error_rate: Some(rate), ..self },
            Fault::DiskWriteError { rate } => FaultStateView { disk_write_error_rate: Some(rate), ..self },
            Fault::FullDisk => FaultStateView { full_disk: true, ..self },
            Fault::Corrupt { rate } => FaultStateView { corruption_rate: Some(rate), ..self },
            Fault::Heal => FaultStateView::healthy(),
        }
    }

    /// Whether a fault other than a probability is in force: a partition, a
    /// latency, a skewed or jumped clock, a crashed node or a full disk.
    pub open spec fn fixed_faults_active(self) -> bool {
        ||| self.partition_groups.len() > 0
        ||| self.delay is Some
        ||| self.clock_skews.dom().len() > 0
        ||| self.clock_offsets.dom().len() > 0
        ||| self.crashed_nodes.len() > 0
        ||| self.full_disk
    }
}

/// Whether the fault is one that the caller must carry out itself: a crash
/// or a restart.
pub open spec fn needs_handling<R>(f: Fault<R>) -> bool {
    f is Crash || f is Restart
}

/// The faults in force.
#[verifier::reject_recursive_types(R)]
pub struct FaultState<R> {
    partition_groups: Vec<Vec<NodeId>>,
    drop_rate: Option<R>,
    delay: Option<(Duration, Duration)>,
    duplicate_rate: Option<R>,
    clock_skews: HashMap<NodeId, R>,
    clock_offsets: HashMap<NodeId, i64>,
    crashed_nodes: HashSet<NodeId>,
    disk_read_error_rate: Option<R>,
    disk_write_error_rate: Option<R>,
    full_disk: bool,
    corruption_rate: Option<R>,
}

impl<R> View for FaultState<R> {
    type V = FaultStateView<R>;

    closed spec fn view(&self) -> FaultStateView<R> {
        FaultStateView {
            partition_groups: group_views(self.partition_groups@),
            drop_rate: self.drop_rate,
            delay: self.delay,
            duplicate_rate: self.duplicate_rate,
            clock_skews: self.clock_skews@,
            clock_offsets: self.clock_offsets@,
            crashed_nodes: self.crashed_nodes@,
            disk_read_error_rate: self.disk_read_error_rate,
            disk_write_error_rate: self.disk_write_error_rate,
            full_disk: self.full_disk,
            corruption_rate: self.corruption_rate,
        }
    }
}

/// A copy of a list of node ids.
fn copy_ids(v: &Vec<NodeId>) -> (r: Vec<NodeId>)
    ensures
        r@ == v@,
{
    let mut out: Vec<NodeId> = Vec::new();
    let mut i: usize = 0;
    while i < v.len()
        invariant
            i <= v@.len(),
            out@ == v@.take(i as int),
        decreases v@.len() - i,
    {
        out.push(v[i]);
        proof {
            assert(v@.take(i + 1) =~= v@.take(i as int).push(v@[i as int]));
        }
        i = i + 1;
    }
    proof {
        assert(v@.take(v@.len() as int) =~= v@);
    }
    out
}

/// A copy of a list of groups of node ids.
fn copy_groups(groups: &Vec<Vec<NodeId>>) -> (r: Vec<Vec<NodeId>>)
    ensures
        group_views(r@) == group_views(groups@),
{
    let mut out: Vec<Vec<NodeId>> = Vec::new();
    let mut i: usize = 0;
    while i < groups.len()
        invariant
            i <= groups@.len(),
            out@.len() == i,
            group_views(out@) == group_views(groups@).take(i as int),
        decreases groups@.len() - i,
    {
        let g = copy_ids(&groups[i]);
        let ghost before = out@;
        out.push(g);
        proof {
            assert(out@ == before.push(g));
            assert(group_views(out@).len() == i + 1);
            assert forall|j: int| 0 <= j < i + 1 implies group_views(out@)[j] == group_views(groups@).take(i + 1)[j] by {
                if j < i {
                    assert(group_views(out@)[j] == out@[j]@);
                    assert(out@[j] == before[j]);
                    assert(group_views(before)[j] == before[j]@);
                } else {
                    assert(group_views(out@)[j] == g@);
                }
            }
            assert(group_views(out@) =~= group_views(groups@).take(i + 1));
        }
        i = i + 1;
    }
    proof {
        assert(group_views(groups@).take(groups@.len() as int) =~= group_views(groups@));
    }
    out
}

impl<R: Copy> FaultState<R> {
    /// No fault in force.
    pub fn new() -> (r: Self)
        ensures
            r@ == FaultStateView::<R>::healthy(),
    {
        let r = FaultState {
            partition_groups: Vec::new(),
            drop_rate: None,
            delay: None,
            duplicate_rate: None,
            clock_skews: HashMap::new(),
            clock_offsets: HashMap::new(),
            crashed_nodes: HashSet::new(),
            disk_read_error_rate: None,
            disk_write_error_rate: None,
            full_disk: false,
            corruption_rate: None,
        };
        proof {
            assert(group_views(r.partition_groups@) =~= Seq::<Seq<NodeId>>::empty());
        }
        r
    }

    /// Applies `fault`. A crash or a restart comes back for the caller to
    /// carry out; nothing else does.
    pub fn apply(&mut self, fault: &Fault<R>) -> (r: Option<Fault<R>>)
        requires
            old(self)@.can_apply(*fault),
        ensures
            final(self)@ == old(self)@.applied(*fault),
            r == (if needs_handling(*fault) { Some(*fault) } else { None }),
    {
        match fault {
            Fault::Partition { groups } => {
                self.partition_groups = copy_groups(groups);
                None
            },
            Fault::Drop { rate } => {
                self.drop_rate = Some(*rate);
                None
            },
            Fault::Delay { min, max } => {
                self.delay = Some((*min, *max));
                None
            },
            Fault::Duplicate { rate } => {
                self.duplicate_rate = Some(*rate);
                None
            },
            Fault::ClockSkew { node, rate } => {
                self.clock_skews.insert(*node, *rate);
                None
            },
            Fault::ClockJump { node, delta } => {
                let current: i64 = match self.clock_offsets.get(node) {
                    Some(v) => *v,
                    None => 0,
                };
                self.clock_offsets.insert(*node, current + *delta);
                None
            },
            Fault::Crash { node } => {
                self.crashed_nodes.insert(*node);
                Some(Fault::Crash { node: *node })
            },
            Fault::Restart { node } => {
                self.crashed_nodes.remove(node);
                Some(Fault::Restart { node: *node })
            },
            Fault::DiskReadError { rate } => {
                self.disk_read_error_rate = Some(*rate);
                None
            },
            Fault::DiskWriteError { rate } => {
                self.disk_write_error_rate = Some(*rate);
                None
            },
            Fault::FullDisk => {
                self.full_disk = true;
                None
            },
            Fault::Corrupt { rate } => {
                self.corruption_rate = Some(*rate);
                None
            },
            Fault::Heal => {
                *self = Self::new();
                None
            },
        }
    }

    /// Whether `from` can reach `to` under the partition in force.
    pub fn can_communicate(&self, from: NodeId, to: NodeId) -> (r: bool)
        ensures
            r == partition_allows(self@.partition_groups, from, to),
    {
        can_communicate(self.partition_groups.as_slice(), from, to)
    }

    /// The drop probability in force, if one was set.
    pub fn drop_rate(&self) -> (r: Option<R>)
        ensures
            r == self@.drop_rate,
    {
        self.drop_rate
    }

    /// The latency range in force, if one was set.
    pub fn delay(&self) -> (r: Option<(Duration, Duration)>)
        ensures
            r == self@.delay,
    {
        self.delay
    }

    /// The duplicate probability in force, if one was set.
    pub fn duplicate_rate(&self) -> (r: Option<R>)
        ensures
            r == self@.duplicate_rate,
    {
        self.duplicate_rate
    }

    /// The clock rate of `node`, if it is skewed.
    pub fn clock_skew(&self, node: NodeId) -> (r: Option<R>)
        ensures
            r == (if self@.clock_skews.contains_key(node) { Some(self@.clock_skews[node]) } else { None }),
    {
        match self.clock_skews.get(&node) {
            Some(v) => Some(*v),
            None => None,
        }
    }

    /// The total clock jump of `node`; zero if it never jumped.
    pub fn clock_offset(&self, node: NodeId) -> (r: i64)
        ensures
            r == self@.offset_of(node),
    {
        match self.clock_offsets.get(&node) {
            Some(v) => *v,
            None => 0,
        }
    }

    /// Ends the clock skew of `node`.
    pub fn clear_clock_skew(&mut self, node: NodeId)
        ensures
            final(self)@ == (FaultStateView { clock_skews: old(self)@.clock_skews.remove(node), ..old(self)@ }),
    {
        let _ = self.clock_skews.remove(&node);
    }

    /// Ends the clock jumps of `node`.
    pub fn clear_clock_offset(&mut self, node: NodeId)
        ensures
            final(self)@ == (FaultStateView { clock_offsets: old(self)@.clock_offsets.remove(node), ..old(self)@ }),
    {
        let _ = self.clock_offsets.remove(&node);
    }

    /// Whether `node` is crashed.
    pub fn is_crashed(&self, node: NodeId) -> (r: bool)
        ensures
            r == self@.crashed_nodes.contains(node),
    {
        self.crashed_nodes.contains(&node)
    }

    /// The crashed nodes.
    pub fn crashed_nodes(&self) -> (r: &HashSet<NodeId>)
        ensures
            r@ == self@.crashed_nodes,
    {
        &self.crashed_nodes
    }

    /// The disk read failure probability in force, if one was set.
    pub fn disk_read_error_rate(&self) -> (r: Option<R>)
        ensures
            r == self@.disk_read_error_rate,
    {
        self.disk_read_error_rate
    }

    /// The disk write failure probability in force, if one was set.
    pub fn disk_write_error_rate(&self) -> (r: Option<R>)
        ensures
            r == self@.disk_write_error_rate,
    {
        self.disk_write_error_rate
    }

    /// Whether every disk write fails.
    pub fn is_full_disk(&self) -> (r: bool)
        ensures
            r == self@.full_disk,
    {
        self.full_disk
    }

    /// The corruption probability in force, if one was set.
    pub fn corruption_rate(&self) -> (r: Option<R>)
        ensures
            r == self@.corruption_rate,
    {
        self.corruption_rate
    }

    /// Whether a fault other than a probability is in force.
    pub fn fixed_faults_active(&self) -> (r: bool)
        ensures
            r == self@.fixed_faults_active(),
    {
        self.partition_groups.len() > 0 || self.delay.is_some() || self.clock_skews.len() > 0
            || self.clock_offsets.len() > 0 || self.crashed_nodes.len() > 0 || self.full_disk
    }
}

/// After a heal no fault is in force, whatever was in force before.
pub proof fn law_heal_clears_every_fault<R>(v: FaultStateView<R>)
    ensures
        v.applied(Fault::Heal) == FaultStateView::<R>::healthy(),
        !v.applied(Fault::Heal).fixed_faults_active(),
        v.applied(Fault::Heal).drop_rate is None,
        v.applied(Fault::Heal).duplicate_rate is None,
        partition_allows(v.applied(Fault::Heal).partition_groups, 0, 1),
{
    let h = FaultStateView::<R>::healthy();
    assert(h.clock_skews.dom() =~= Set::<NodeId>::empty());
    assert(h.clock_offsets.dom() =~= Set::<NodeId>::empty());
}

/// Clock jumps of a node add up; other nodes' clocks do not move.
pub proof fn law_clock_jumps_add_up<R>(v: FaultStateView<R>, node: NodeId, a: i64, b: i64, other: NodeId)
    requires
        v.can_apply(Fault::ClockJump { node, delta: a }),
        v.applied(Fault::ClockJump { node, delta: a }).can_apply(Fault::ClockJump { node, delta: b }),
        other != node,
    ensures
        v.applied(Fault::ClockJump { node, delta: a }).applied(Fault::ClockJump { node, delta: b }).offset_of(node)
            == v.offset_of(node) + a + b,
        v.applied(Fault::ClockJump { node, delta: a }).applied(Fault::ClockJump { node, delta: b }).offset_of(other)
            == v.offset_of(other),
{
}

/// Crashing a node and restarting it leaves it running and the other
/// nodes as they were.
pub proof fn law_crash_then_restart<R>(v: FaultStateView<R>, node: NodeId)
    ensures
        v.applied(Fault::Crash { node }).applied(Fault::Restart { node }).crashed_nodes
            == v.crashed_nodes.remove(node),
        !v.applied(Fault::Crash { node }).applied(Fault::Restart { node }).crashed_nodes.contains(node),
        v.applied(Fault::Crash { node }).crashed_nodes.contains(node),
{
    assert(v.crashed_nodes.insert(node).remove(node) =~= v.crashed_nodes.remove(node));
}

/// Whether two nodes can communicate does not depend on which one sends.
pub proof fn law_partition_is_symmetric(groups: Seq<Seq<NodeId>>, a: NodeId, b: NodeId)
    ensures
        partition_allows(groups, a, b) == partition_allows(groups, b, a),
{
}

/// A partition replaces whatever partition was in force: afterwards two
/// nodes can communicate exactly when no groups were given or one of the
/// given groups holds both, whatever the state before.
pub proof fn law_partition_replaces_partition<R>(v: FaultStateView<R>, groups: Vec<Vec<NodeId>>, a: NodeId, b: NodeId)
    ensures
        v.applied(Fault::Partition { groups }).partition_groups.len() == groups@.len(),
        forall|i: int| 0 <= i < groups@.len()
            ==> #[trigger] v.applied(Fault::Partition { groups }).partition_groups[i] == groups@[i]@,
        partition_allows(v.applied(Fault::Partition { groups }).partition_groups, a, b)
            == (groups@.len() == 0
            || exists|i: int| 0 <= i < groups@.len() && (#[trigger] groups@[i])@.contains(a) && groups@[i]@.contains(b)),
{
    let g = v.applied(Fault::Partition { groups }).partition_groups;
    if groups@.len() > 0 {
        if partition_allows(g, a, b) {
            let i = choose|i: int| 0 <= i < g.len() && (#[trigger] g[i]).contains(a) && g[i].contains(b);
            assert(groups@[i]@.contains(a) && groups@[i]@.contains(b));
        }
        if exists|i: int| 0 <= i < groups@.len() && (#[trigger] groups@[i])@.contains(a) && groups@[i]@.contains(b) {
            let i = choose|i: int| 0 <= i < groups@.len() && (#[trigger] groups@[i])@.contains(a) && groups@[i]@.contains(b);
            assert(g[i].contains(a) && g[i].contains(b));
        }
    }
}

/// Of two partitions applied in turn, the second alone decides: the state
/// is as if only the second had been applied to the state before the first.
pub proof fn law_later_partition_wins<R>(v: FaultStateView<R>, first: Vec<Vec<NodeId>>, second: Vec<Vec<NodeId>>)
    ensures
        v.applied(Fault::Partition { groups: first }).applied(Fault::Partition { groups: second })
            == v.applied(Fault::Partition { groups: second }),
{
}

} // verus!
