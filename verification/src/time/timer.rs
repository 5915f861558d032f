//! Timer wheel for scheduling wake-ups at specific instants.
use std::task::Waker;
use vstd::prelude::*;
use crate::time::instant::Instant;

verus! {

/// Unique identifier for a timer.
pub type TimerId = u64;

#[verifier::external_type_specification]
#[verifier::external_body]
pub struct ExWaker(Waker);

/// A pending timer: when it fires, which timer it is, and whom to wake.
#[derive(Debug)]
pub struct TimerEntry {
    pub deadline: Instant,
    pub id: TimerId,
    pub waker: Waker,
}

/// Timer `a` fires strictly before timer `b`: earlier deadline, or the same
/// deadline and scheduled earlier.
pub open spec fn fires_before(a: TimerEntry, b: TimerEntry) -> bool {
    a.deadline@ < b.deadline@ || (a.deadline@ == b.deadline@ && a.id < b.id)
}

/// The pending timers are in firing order.
pub open spec fn in_firing_order(s: Seq<TimerEntry>) -> bool {
    forall|i: int, j: int| 0 <= i < j < s.len() ==> fires_before(#[trigger] s[i], #[trigger] s[j])
}

/// No two pending timers share an id.
pub open spec fn ids_distinct(s: Seq<TimerEntry>) -> bool {
    forall|i: int, j: int| 0 <= i < s.len() && 0 <= j < s.len() && i != j ==> #[trigger] s[i].id != #[trigger] s[j].id
}

/// Every pending timer's id was handed out before `next`.
pub open spec fn ids_below(s: Seq<TimerEntry>, next: TimerId) -> bool {
    forall|i: int| 0 <= i < s.len() ==> #[trigger] s[i].id < next
}

/// A timer that `cancel` took out is pending no more: with distinct ids,
/// no timer left has its id, so cancelling it again returns false and it
/// never fires.
pub proof fn law_cancelled_timer_is_gone(before: Seq<TimerEntry>, i: int)
    requires
        ids_distinct(before),
        0 <= i < before.len(),
    ensures
        forall|j: int| 0 <= j < before.remove(i).len() ==> #[trigger] before.remove(i)[j].id != before[i].id,
{
    assert forall|j: int| 0 <= j < before.remove(i).len() implies #[trigger] before.remove(i)[j].id != before[i].id by {
        if j < i {
            assert(before.remove(i)[j] == before[j]);
        } else {
            assert(before.remove(i)[j] == before[j + 1]);
        }
    }
}

/// Timers that `fire_expired` woke are pending no more: with distinct ids,
/// none of the timers left has the id of a fired one, so cancelling a fired
/// timer returns false and it does not fire twice.
pub proof fn law_fired_timers_are_gone(before: Seq<TimerEntry>, n: int)
    requires
        ids_distinct(before),
        0 <= n <= before.len(),
    ensures
        forall|a: int, j: int| 0 <= a < n && 0 <= j < before.skip(n).len()
            ==> #[trigger] before.skip(n)[j].id != #[trigger] before[a].id,
{
    assert forall|a: int, j: int| 0 <= a < n && 0 <= j < before.skip(n).len()
        implies #[trigger] before.skip(n)[j].id != #[trigger] before[a].id by {
        assert(before.skip(n)[j] == before[n + j]);
    }
}

/// The id `schedule` hands out is fresh: every id handed out before is
/// below the counter it takes (no operation lowers the counter), so it
/// differs from all of them and from every pending timer's id.
pub proof fn law_scheduled_id_is_fresh(pending: Seq<TimerEntry>, next: TimerId, earlier: TimerId)
    requires
        ids_below(pending, next),
        earlier < next,
    ensures
        earlier != next,
        forall|j: int| 0 <= j < pending.len() ==> #[trigger] pending[j].id != next,
{
    assert forall|j: int| 0 <= j < pending.len() implies #[trigger] pending[j].id != next by {
        assert(pending[j].id < next);
    }
}

/// A timer wheel that tracks deadlines and their associated wakers.
///
/// The pending timers are kept in firing order: by deadline, and in the
/// order they were scheduled for equal deadlines.
#[derive(Debug)]
pub struct TimerWheel {
    entries: Vec<TimerEntry>,
    next_id: TimerId,
}

impl View for TimerWheel {
    type V = Seq<TimerEntry>;

    closed spec fn view(&self) -> Seq<TimerEntry> {
        self.entries@
    }
}

impl TimerWheel {
    /// The pending timers are in firing order and every id was handed out
    /// before `next_id`.
    pub closed spec fn wf(&self) -> bool {
        &&& in_firing_order(self.entries@)
        &&& forall|i: int| 0 <= i < self.entries@.len() ==> #[trigger] self.entries@[i].id < self.next_id
        &&& forall|i: int, j: int| 0 <= i < self.entries@.len() && 0 <= j < self.entries@.len() && i != j
            ==> #[trigger] self.entries@[i].id != #[trigger] self.entries@[j].id
    }

    /// The id the next `schedule` hands out.
    pub closed spec fn next_timer_id(&self) -> TimerId {
        self.next_id
    }

    /// Ids of the pending timers, with their deadlines.
    pub open spec fn pending(&self) -> Map<TimerId, u64> {
        Map::new(
            |id: TimerId| exists|i: int| 0 <= i < self@.len() && #[trigger] self@[i].id == id,
            |id: TimerId| self@[choose|i: int| 0 <= i < self@.len() && #[trigger] self@[i].id == id].deadline@,
        )
    }

    /// Creates a new empty timer wheel.
    pub fn new() -> (r: Self)
        ensures
            r.wf(),
            r@.len() == 0,
            r.next_timer_id() == 0,
            ids_distinct(r@),
    {
        TimerWheel { entries: Vec::new(), next_id: 0 }
    }

    /// Schedules `waker` to be woken at `deadline` and returns the new
    /// timer's id. The timer is placed after every pending timer whose
    /// deadline is not later, and before the others.
    pub fn schedule(&mut self, deadline: Instant, waker: Waker) -> (id: TimerId)
        requires
            old(self).wf(),
            old(self).next_timer_id() < u64::MAX,
        ensures
            final(self).wf(),
            ids_distinct(final(self)@),
            ids_below(final(self)@, final(self).next_timer_id()),
            id == old(self).next_timer_id(),
            final(self).next_timer_id() == id + 1,
            forall|j: int| 0 <= j < old(self)@.len() ==> (#[trigger] old(self)@[j]).id != id,
            final(self)@.len() == old(self)@.len() + 1,
            final(self)@[0].deadline@ == (if old(self)@.len() == 0 || deadline@ < old(self)@[0].deadline@ {
                deadline@
            } else {
                old(self)@[0].deadline@
            }),
            exists|k: int|
                0 <= k <= old(self)@.len()
                && (forall|i: int| 0 <= i < k ==> (#[trigger] old(self)@[i]).deadline@ <= deadline@)
                && (forall|i: int| k <= i < old(self)@.len() ==> (#[trigger] old(self)@[i]).deadline@ > deadline@)
                && final(self)@ == old(self)@.insert(k, TimerEntry { deadline, id, waker }),
    {
        let id = self.next_id;
        self.next_id = self.next_id + 1;
        let mut k: usize = 0;
        while k < self.entries.len() && self.entries[k].deadline.as_nanos() <= deadline.as_nanos()
            invariant
                0 <= k <= self.entries@.len(),
                forall|i: int| 0 <= i < k ==> (#[trigger] self.entries@[i]).deadline@ <= deadline@,
            decreases self.entries@.len() - k,
        {
            k = k + 1;
        }
        proof {
            if k < self.entries@.len() {
                assert forall|i: int| k <= i < self.entries@.len() implies (#[trigger] self.entries@[i]).deadline@ > deadline@ by {
                    if i > k {
                        assert(fires_before(self.entries@[k as int], self.entries@[i]));
                    }
                }
            }
        }
        let ghost before = self.entries@;
        self.entries.insert(k, TimerEntry { deadline, id, waker });
        proof {
            let s = self.entries@;
            assert(s == before.insert(k as int, TimerEntry { deadline, id, waker }));
            assert forall|i: int, j: int| 0 <= i < j < s.len() implies fires_before(#[trigger] s[i], #[trigger] s[j]) by {
                if i < k && j > k {
                    assert(s[j] == before[j - 1]);
                    if j - 1 > i {
                        assert(fires_before(before[i], before[j - 1]));
                    }
                } else if i < k && j == k {
                } else if i == k {
                    assert(s[j] == before[j - 1]);
                } else if j < k {
                    assert(fires_before(before[i], before[j]));
                } else {
                    assert(fires_before(before[i - 1], before[j - 1]));
                }
            }
            assert forall|i: int| 0 <= i < s.len() implies #[trigger] s[i].id < self.next_id by {
                if i < k {
                    assert(s[i] == before[i]);
                } else if i > k {
                    assert(s[i] == before[i - 1]);
                }
            }
            assert forall|i: int, j: int| 0 <= i < s.len() && 0 <= j < s.len() && i != j
                implies #[trigger] s[i].id != #[trigger] s[j].id by {
                let bi = if i < k { i } else { i - 1 };
                let bj = if j < k { j } else { j - 1 };
                if i != k && j != k {
                    assert(s[i] == before[bi]);
                    assert(s[j] == before[bj]);
                } else if i == k {
                    assert(s[j] == before[bj]);
                } else {
                    assert(s[i] == before[bi]);
                }
            }
            assert(before == old(self)@);
            assert(0 <= k <= before.len()
                && (forall|i: int| 0 <= i < k ==> (#[trigger] before[i]).deadline@ <= deadline@)
                && (forall|i: int| k <= i < before.len() ==> (#[trigger] before[i]).deadline@ > deadline@)
                && s == before.insert(k as int, TimerEntry { deadline, id, waker }));
            assert forall|j: int| 0 <= j < before.len() implies (#[trigger] before[j]).id != id by {
                assert(before[j].id < id);
            }
            if k == 0 {
                assert(s[0].deadline == deadline);
                if before.len() > 0 {
                    assert(before[0].deadline@ > deadline@);
                }
            } else {
                assert(s[0] == before[0]);
                assert(before[0].deadline@ <= deadline@);
            }
        }
        id
    }

    /// Cancels a pending timer. Returns true if the timer was pending (and is
    /// now removed), false if it already fired or never existed.
    pub fn cancel(&mut self, id: TimerId) -> (r: bool)
        requires
            old(self).wf(),
        ensures
            final(self).wf(),
            ids_distinct(final(self)@),
            ids_below(final(self)@, final(self).next_timer_id()),
            final(self).next_timer_id() == old(self).next_timer_id(),
            r == exists|i: int| 0 <= i < old(self)@.len() && (#[trigger] old(self)@[i]).id == id,
            !r ==> final(self)@ == old(self)@,
            r ==> exists|i: int| 0 <= i < old(self)@.len() && (#[trigger] old(self)@[i]).id == id
                && final(self)@ == old(self)@.remove(i),
            forall|j: int| 0 <= j < final(self)@.len() ==> (#[trigger] final(self)@[j]).id != id,
    {
        let mut i: usize = 0;
        while i < self.entries.len()
            invariant
                0 <= i <= self.entries@.len(),
                self.wf(),
                self.entries@ == old(self).entries@,
                self.next_id == old(self).next_id,
                forall|j: int| 0 <= j < i ==> (#[trigger] self.entries@[j]).id != id,
            decreases self.entries@.len() - i,
        {
            if self.entries[i].id == id {
                let ghost before = self.entries@;
                let _removed = self.entries.remove(i);
                proof {
                    let s = self.entries@;
                    assert(s == before.remove(i as int));
                    assert forall|a: int, b: int| 0 <= a < b < s.len() implies fires_before(#[trigger] s[a], #[trigger] s[b]) by {
                        let ba = if a < i { a } else { a + 1 };
                        let bb = if b < i { b } else { b + 1 };
                        assert(s[a] == before[ba]);
                        assert(s[b] == before[bb]);
                        assert(fires_before(before[ba], before[bb]));
                    }
                    assert forall|a: int| 0 <= a < s.len() implies #[trigger] s[a].id < self.next_id by {
                        let ba = if a < i { a } else { a + 1 };
                        assert(s[a] == before[ba]);
                    }
                    assert forall|a: int, b: int| 0 <= a < s.len() && 0 <= b < s.len() && a != b
                        implies #[trigger] s[a].id != #[trigger] s[b].id by {
                        let ba = if a < i { a } else { a + 1 };
                        let bb = if b < i { b } else { b + 1 };
                        assert(s[a] == before[ba]);
                        assert(s[b] == before[bb]);
                    }
                    assert(before[i as int].id == id);
                    assert(before == old(self)@);
                    assert(0 <= i < old(self)@.len() && old(self)@[i as int].id == id
                        && self@ == old(self)@.remove(i as int));
                    law_cancelled_timer_is_gone(before, i as int);
                }
                return true;
            }
            i = i + 1;
        }
        false
    }

    /// Fires every timer whose deadline is at or before `now`: removes them
    /// and returns their wakers in firing order.
    pub fn fire_expired(&mut self, now: Instant) -> (r: Vec<Waker>)
        requires
            old(self).wf(),
        ensures
            final(self).wf(),
            ids_distinct(final(self)@),
            ids_below(final(self)@, final(self).next_timer_id()),
            final(self).next_timer_id() == old(self).next_timer_id(),
            r@.len() <= old(self)@.len(),
            forall|i: int| 0 <= i < r@.len() ==> (#[trigger] old(self)@[i]).deadline@ <= now@,
            forall|i: int| r@.len() <= i < old(self)@.len() ==> (#[trigger] old(self)@[i]).deadline@ > now@,
            forall|i: int| 0 <= i < r@.len() ==> #[trigger] r@[i] == old(self)@[i].waker,
            final(self)@ == old(self)@.skip(r@.len() as int),
            forall|a: int, j: int| 0 <= a < r@.len() && 0 <= j < final(self)@.len()
                ==> (#[trigger] final(self)@[j]).id != (#[trigger] old(self)@[a]).id,
    {
        let ghost orig = self.entries@;
        let mut wakers: Vec<Waker> = Vec::new();
        while self.entries.len() > 0 && self.entries[0].deadline.as_nanos() <= now.as_nanos()
            invariant
                self.wf(),
                self.next_id == old(self).next_id,
                wakers@.len() <= orig.len(),
                self.entries@ == orig.skip(wakers@.len() as int),
                forall|i: int| 0 <= i < wakers@.len() ==> (#[trigger] orig[i]).deadline@ <= now@,
                forall|i: int| 0 <= i < wakers@.len() ==> #[trigger] wakers@[i] == orig[i].waker,
            decreases self.entries@.len(),
        {
            let ghost before = self.entries@;
            let e = self.entries.remove(0);
            proof {
                let s = self.entries@;
                assert(s == before.remove(0));
                assert(before[0] == orig[wakers@.len() as int]);
                assert(s == orig.skip(wakers@.len() as int + 1));
                assert forall|a: int, b: int| 0 <= a < b < s.len() implies fires_before(#[trigger] s[a], #[trigger] s[b]) by {
                    assert(fires_before(before[a + 1], before[b + 1]));
                }
                assert forall|a: int| 0 <= a < s.len() implies #[trigger] s[a].id < self.next_id by {
                    assert(s[a] == before[a + 1]);
                }
                assert forall|a: int, b: int| 0 <= a < s.len() && 0 <= b < s.len() && a != b
                    implies #[trigger] s[a].id != #[trigger] s[b].id by {
                    assert(s[a] == before[a + 1]);
                    assert(s[b] == before[b + 1]);
                }
            }
            wakers.push(e.waker);
        }
        proof {
            let k = wakers@.len() as int;
            assert forall|i: int| k <= i < orig.len() implies (#[trigger] orig[i]).deadline@ > now@ by {
                assert(orig[k] == self.entries@[0]);
                if i > k {
                    assert(self.entries@[i - k] == orig[i]);
                    assert(fires_before(self.entries@[0], self.entries@[i - k]));
                }
            }
            law_fired_timers_are_gone(orig, k);
        }
        wakers
    }

    /// Returns the deadline of the first timer to fire, or `None` if no
    /// timer is pending.
    pub fn next_deadline(&self) -> (r: Option<Instant>)
        requires
            self.wf(),
        ensures
            r is None <==> self@.len() == 0,
            r matches Some(d) ==> d == self@[0].deadline
                && forall|i: int| 0 <= i < self@.len() ==> d@ <= (#[trigger] self@[i]).deadline@,
    {
        if self.entries.len() == 0 {
            None
        } else {
            proof {
                assert forall|i: int| 0 <= i < self@.len() implies self@[0].deadline@ <= (#[trigger] self@[i]).deadline@ by {
                    if i > 0 {
                        assert(fires_before(self.entries@[0], self.entries@[i]));
                    }
                }
            }
            Some(self.entries[0].deadline)
        }
    }

    /// Returns the number of pending timers.
    pub fn len(&self) -> (r: usize)
        ensures
            r == self@.len(),
    {
        self.entries.len()
    }

    /// Returns true if no timers are scheduled.
    pub fn is_empty(&self) -> (r: bool)
        ensures
            r == (self@.len() == 0),
    {
        self.entries.len() == 0
    }
}

impl Default for TimerWheel {
    fn default() -> (r: Self)
        ensures
            r.wf(),
            r@.len() == 0,
            r.next_timer_id() == 0,
            ids_distinct(r@),
    {
        TimerWheel::new()
    }
}

} // verus!
