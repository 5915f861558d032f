//! Stepping through a recorded schedule: a position in the list of
//! events, a playback state, and bookmarked positions kept in order.
use vstd::prelude::*;
use crate::recording::{Event, EventType};

verus! {

/// Where a replay stands.
#[derive(Debug, Clone, Copy, PartialEq, Eq, Structural)]
pub enum ReplayState {
    /// At the beginning, not started.
    Stopped,
    /// Moving forward.
    Playing,
    /// Holding at the current position.
    Paused,
    /// Past the last event.
    Finished,
}

/// A replay controller as plain values.
pub struct ReplayView {
    pub events: Seq<Event>,
    pub position: nat,
    pub state: ReplayState,
    pub bookmarks: Seq<usize>,
}

/// Each element below the next one.
pub open spec fn strictly_increasing(s: Seq<usize>) -> bool {
    forall|i: int, j: int| 0 <= i < j < s.len() ==> s[i] < s[j]
}

/// What each state says of the position in a list of `len` events.
pub open spec fn state_agrees(state: ReplayState, position: nat, len: nat) -> bool {
    match state {
        ReplayState::Stopped => position == 0,
        ReplayState::Playing => position < len,
        ReplayState::Paused => position < len,
        ReplayState::Finished => position == len,
    }
}

/// How many elements of `s` lie below `x`.
pub open spec fn count_below(s: Seq<usize>, x: usize) -> nat
    decreases s.len(),
{
    if s.len() == 0 {
        0
    } else {
        count_below(s.drop_last(), x) + if s.last() < x { 1nat } else { 0nat }
    }
}

impl ReplayView {
    /// The position lies within the events, the state agrees with it, and
    /// the bookmarks are distinct positions within the events, in order.
    pub open spec fn ok(self) -> bool {
        &&& self.events.len() <= usize::MAX
        &&& self.position <= self.events.len()
        &&& state_agrees(self.state, self.position, self.events.len())
        &&& strictly_increasing(self.bookmarks)
        &&& forall|i: int| 0 <= i < self.bookmarks.len() ==> self.bookmarks[i] <= self.events.len()
    }

    /// The controller moved to `p`, or to the end if `p` lies past it.
    pub open spec fn jumped(self, p: int) -> ReplayView {
        let q: nat = if p < 0 { 0 } else if p >= self.events.len() { self.events.len() } else { p as nat };
        ReplayView {
            position: q,
            state: if q >= self.events.len() { ReplayState::Finished } else { ReplayState::Paused },
            ..self
        }
    }

    /// After `play`.
    pub open spec fn played(self) -> ReplayView {
        ReplayView {
            state: if self.position >= self.events.len() {
                ReplayState::Finished
            } else {
                ReplayState::Playing
            },
            ..self
        }
    }

    /// After `pause`.
    pub open spec fn paused(self) -> ReplayView {
        ReplayView {
            state: if self.state == ReplayState::Playing { ReplayState::Paused } else { self.state },
            ..self
        }
    }

    /// After `stop`.
    pub open spec fn stopped(self) -> ReplayView {
        ReplayView { position: 0, state: ReplayState::Stopped, ..self }
    }

    /// After `step_forward`.
    pub open spec fn stepped_forward(self) -> ReplayView {
        if self.position < self.events.len() {
            ReplayView {
                position: self.position + 1,
                state: if self.position + 1 >= self.events.len() {
                    ReplayState::Finished
                } else {
                    ReplayState::Paused
                },
                ..self
            }
        } else {
            self
        }
    }

    /// After `step_backward`.
    pub open spec fn stepped_back(self) -> ReplayView {
        if self.position > 0 {
            ReplayView { position: (self.position - 1) as nat, state: ReplayState::Paused, ..self }
        } else {
            self
        }
    }

    /// After `add_bookmark`: the current position joins the bookmarks at
    /// its place in order, unless it is there already.
    pub open spec fn bookmarked(self) -> ReplayView {
        if self.bookmarks.contains(self.position as usize) {
            self
        } else {
            ReplayView {
                bookmarks: self.bookmarks.insert(
                    count_below(self.bookmarks, self.position as usize) as int,
                    self.position as usize,
                ),
                ..self
            }
        }
    }

    /// After `remove_bookmark`: every bookmark at the current position goes.
    pub open spec fn unbookmarked(self) -> ReplayView {
        let p = self.position;
        ReplayView { bookmarks: self.bookmarks.filter(other_than(p)), ..self }
    }
}

/// A controller for stepping through recorded events.
pub struct ReplayController {
    events: Vec<Event>,
    position: usize,
    state: ReplayState,
    bookmarks: Vec<usize>,
}

impl View for ReplayController {
    type V = ReplayView;

    closed spec fn view(&self) -> ReplayView {
        ReplayView {
            events: self.events@,
            position: self.position as nat,
            state: self.state,
            bookmarks: self.bookmarks@,
        }
    }
}

impl ReplayController {
    /// The controller's view is consistent.
    pub closed spec fn wf(&self) -> bool {
        self@.ok()
    }

    /// A controller at the start of `events`, stopped, with no bookmarks.
    pub fn new(events: Vec<Event>) -> (r: Self)
        ensures
            r.wf(),
            r@.events == events@,
            r@.position == 0,
            r@.state == ReplayState::Stopped,
            r@.bookmarks == Seq::<usize>::empty(),
    {
        let count: usize = events.len();
        proof {
            assert(events@.len() == count);
        }
        ReplayController { events, position: 0, state: ReplayState::Stopped, bookmarks: Vec::new() }
    }

    /// The current state.
    pub fn state(&self) -> (r: ReplayState)
        ensures
            r == self@.state,
    {
        self.state
    }

    /// The current position: how many events lie behind.
    pub fn position(&self) -> (r: usize)
        ensures
            r == self@.position,
    {
        self.position
    }

    /// How many events the replay has.
    pub fn total_events(&self) -> (r: usize)
        ensures
            r == self@.events.len(),
    {
        self.events.len()
    }

    /// The event at the current position, if any.
    pub fn current_event(&self) -> (r: Option<&Event>)
        ensures
            r == (if self@.position < self@.events.len() {
                Some(&self@.events[self@.position as int])
            } else {
                None
            }),
    {
        if self.position < self.events.len() {
            Some(&self.events[self.position])
        } else {
            None
        }
    }

    /// Starts or resumes playback; at the end, the replay is finished.
    pub fn play(&mut self)
        requires
            old(self).wf(),
        ensures
            final(self).wf(),
            final(self)@ == old(self)@.played(),
    {
        if self.position >= self.events.len() {
            self.state = ReplayState::Finished;
        } else {
            self.state = ReplayState::Playing;
        }
    }

    /// Pauses playback; does nothing unless playing.
    pub fn pause(&mut self)
        requires
            old(self).wf(),
        ensures
            final(self).wf(),
            final(self)@ == old(self)@.paused(),
    {
        if self.state == ReplayState::Playing {
            self.state = ReplayState::Paused;
        }
    }

    /// Stops and goes back to the beginning.
    pub fn stop(&mut self)
        requires
            old(self).wf(),
        ensures
            final(self).wf(),
            final(self)@ == old(self)@.stopped(),
    {
        self.position = 0;
        self.state = ReplayState::Stopped;
    }

    /// Moves one event forward and hands back the event passed; at the end,
    /// nothing changes and nothing comes back.
    pub fn step_forward(&mut self) -> (r: Option<&Event>)
        requires
            old(self).wf(),
        ensures
            final(self).wf(),
            final(self)@ == old(self)@.stepped_forward(),
            r == (if old(self)@.position < old(self)@.events.len() {
                Some(&old(self)@.events[old(self)@.position as int])
            } else {
                None
            }),
    {
        if self.position < self.events.len() {
            let p = self.position;
            self.position = p + 1;
            if self.position >= self.events.len() {
                self.state = ReplayState::Finished;
            } else {
                self.state = ReplayState::Paused;
            }
            Some(&self.events[p])
        } else {
            None
        }
    }

    /// Moves one event back and hands back the event now current; at the
    /// beginning, nothing changes and nothing comes back.
    pub fn step_backward(&mut self) -> (r: Option<&Event>)
        requires
            old(self).wf(),
        ensures
            final(self).wf(),
            final(self)@ == old(self)@.stepped_back(),
            r == (if old(self)@.position > 0 {
                Some(&old(self)@.events[old(self)@.position - 1])
            } else {
                None
            }),
    {
        if self.position > 0 {
            self.position = self.position - 1;
            self.state = ReplayState::Paused;
            Some(&self.events[self.position])
        } else {
            None
        }
    }

    /// Moves to `position`, or to the end if it lies past it.
    pub fn jump_to(&mut self, position: usize)
        requires
            old(self).wf(),
        ensures
            final(self).wf(),
            final(self)@ == old(self)@.jumped(position as int),
    {
        let len = self.events.len();
        self.position = if position < len { position } else { len };
        if self.position >= len {
            self.state = ReplayState::Finished;
        } else {
            self.state = ReplayState::Paused;
        }
    }

    /// The first position whose event happened at `timestamp` or later, or
    /// the end if there is none.
    pub fn position_at_time(&self, timestamp: u64) -> (r: usize)
        ensures
            r <= self@.events.len(),
            forall|j: int| 0 <= j < r ==> self@.events[j].timestamp < timestamp,
            r < self@.events.len() ==> self@.events[r as int].timestamp >= timestamp,
    {
        let mut i: usize = 0;
        while i < self.events.len()
            invariant
                i <= self.events@.len(),
                forall|j: int| 0 <= j < i ==> self.events@[j].timestamp < timestamp,
            decreases self.events@.len() - i,
        {
            if self.events[i].timestamp >= timestamp {
                return i;
            }
            i = i + 1;
        }
        i
    }

    /// Moves to the first event that happened at `timestamp` or later, or
    /// to the end if there is none.
    pub fn jump_to_time(&mut self, timestamp: u64)
        requires
            old(self).wf(),
        ensures
            final(self).wf(),
            final(self)@ == old(self)@.jumped(final(self)@.position as int),
            forall|j: int| 0 <= j < final(self)@.position ==> old(self)@.events[j].timestamp < timestamp,
            final(self)@.position < old(self)@.events.len()
                ==> old(self)@.events[final(self)@.position as int].timestamp >= timestamp,
    {
        let p = self.position_at_time(timestamp);
        self.jump_to(p);
    }

    /// The position of the first injected fault, if any.
    pub fn first_failure(&self) -> (r: Option<usize>)
        ensures
            match r {
                Some(i) => {
                    &&& i < self@.events.len()
                    &&& self@.events[i as int].event_type == EventType::FaultInjected
                    &&& forall|j: int| 0 <= j < i ==> self@.events[j].event_type != EventType::FaultInjected
                },
                None => forall|j: int|
                    0 <= j < self@.events.len() ==> self@.events[j].event_type != EventType::FaultInjected,
            },
    {
        let mut i: usize = 0;
        while i < self.events.len()
            invariant
                i <= self.events@.len(),
                forall|j: int| 0 <= j < i ==> self.events@[j].event_type != EventType::FaultInjected,
            decreases self.events@.len() - i,
        {
            if self.events[i].event_type == EventType::FaultInjected {
                return Some(i);
            }
            i = i + 1;
        }
        None
    }

    /// Moves to the first injected fault and says whether there is one;
    /// without one, nothing changes.
    pub fn jump_to_first_failure(&mut self) -> (r: bool)
        requires
            old(self).wf(),
        ensures
            final(self).wf(),
            r == exists|j: int|
                0 <= j < old(self)@.events.len() && old(self)@.events[j].event_type
                    == EventType::FaultInjected,
            !r ==> final(self)@ == old(self)@,
            r ==> {
                &&& final(self)@ == old(self)@.jumped(final(self)@.position as int)
                &&& final(self)@.position < old(self)@.events.len()
                &&& old(self)@.events[final(self)@.position as int].event_type == EventType::FaultInjected
                &&& forall|j: int|
                    0 <= j < final(self)@.position ==> old(self)@.events[j].event_type
                        != EventType::FaultInjected
            },
    {
        match self.first_failure() {
            Some(p) => {
                self.jump_to(p);
                true
            },
            None => false,
        }
    }

    /// Bookmarks the current position; a position is bookmarked once.
    pub fn add_bookmark(&mut self)
        requires
            old(self).wf(),
        ensures
            final(self).wf(),
            final(self)@ == old(self)@.bookmarked(),
    {
        let p = self.position;
        let n = self.bookmarks.len();
        let mut k: usize = 0;
        while k < n
            invariant
                self@ == old(self)@,
                n == self.bookmarks@.len(),
                k <= n,
                forall|j: int| 0 <= j < k ==> self.bookmarks@[j] < p,
            ensures
                k <= n,
                forall|j: int| 0 <= j < k ==> self.bookmarks@[j] < p,
                k < n ==> self.bookmarks@[k as int] >= p,
            decreases n - k,
        {
            if self.bookmarks[k] >= p {
                break;
            }
            k = k + 1;
        }
        let ghost s = self.bookmarks@;
        proof {
            lemma_count_below_prefix(s, p, k as int);
        }
        if k < n && self.bookmarks[k] == p {
            proof {
                assert(s.contains(p));
            }
            return;
        }
        proof {
            assert(!s.contains(p)) by {
                if s.contains(p) {
                    let j = choose|j: int| 0 <= j < s.len() && s[j] == p;
                    if j >= k {
                        assert(s[k as int] <= s[j]);
                    }
                }
            }
        }
        self.bookmarks.insert(k, p);
        proof {
            let t = self.bookmarks@;
            assert(t == s.insert(k as int, p));
            assert forall|i: int, j: int| 0 <= i < j < t.len() implies t[i] < t[j] by {
                if j < k {
                } else if j == k {
                } else if i < k {
                    assert(s[k as int] <= s[j - 1]);
                } else if i == k {
                    assert(s[k as int] <= s[j - 1]);
                    assert(s[k as int] != p);
                } else {
                }
            }
        }
    }

    /// Takes the bookmark off the current position, if there is one.
    pub fn remove_bookmark(&mut self)
        requires
            old(self).wf(),
        ensures
            final(self).wf(),
            final(self)@ == old(self)@.unbookmarked(),
    {
        let p = self.position;
        let ghost s = self.bookmarks@;
        let ghost len = self.events@.len();
        let n = self.bookmarks.len();
        let mut kept: Vec<usize> = Vec::new();
        let mut i: usize = 0;
        proof {
            assert(s.take(0) =~= Seq::<usize>::empty());
            reveal(Seq::filter);
            assert(s.take(0).filter(other_than(p as nat)) =~= Seq::<usize>::empty());
        }
        while i < n
            invariant
                n == s.len(),
                s == self.bookmarks@,
                i <= n,
                strictly_increasing(s),
                forall|j: int| 0 <= j < s.len() ==> s[j] <= len,
                kept@ == s.take(i as int).filter(other_than(p as nat)),
                strictly_increasing(kept@),
                forall|j: int| 0 <= j < kept@.len() ==> kept@[j] <= len,
                forall|j: int, m: int| 0 <= j < kept@.len() && i <= m < n ==> kept@[j] < s[m],
            decreases n - i,
        {
            let b = self.bookmarks[i];
            proof {
                reveal(Seq::filter);
                assert(s.take(i + 1).drop_last() =~= s.take(i as int));
            }
            if b != p {
                kept.push(b);
            }
            i = i + 1;
        }
        proof {
            assert(s.take(n as int) =~= s);
        }
        self.bookmarks = kept;
    }

    /// The bookmarked positions, in increasing order.
    pub fn bookmarks(&self) -> (r: &[usize])
        ensures
            r@ == self@.bookmarks,
    {
        self.bookmarks.as_slice()
    }

    /// Moves to the nearest bookmark after the current position and says
    /// whether there is one; without one, nothing changes.
    pub fn jump_to_next_bookmark(&mut self) -> (r: bool)
        requires
            old(self).wf(),
        ensures
            final(self).wf(),
            r == exists|j: int|
                0 <= j < old(self)@.bookmarks.len() && old(self)@.bookmarks[j] > old(self)@.position,
            !r ==> final(self)@ == old(self)@,
            r ==> {
                &&& final(self)@ == old(self)@.jumped(final(self)@.position as int)
                &&& old(self)@.bookmarks.contains(final(self)@.position as usize)
                &&& final(self)@.position > old(self)@.position
                &&& forall|j: int|
                    0 <= j < old(self)@.bookmarks.len() && old(self)@.bookmarks[j] > old(self)@.position
                        ==> old(self)@.bookmarks[j] >= final(self)@.position
            },
    {
        let p = self.position;
        let n = self.bookmarks.len();
        let mut k: usize = 0;
        while k < n
            invariant
                self@ == old(self)@,
                old(self).wf(),
                p == old(self)@.position,
                n == self.bookmarks@.len(),
                k <= n,
                forall|j: int| 0 <= j < k ==> self.bookmarks@[j] <= p,
            decreases n - k,
        {
            if self.bookmarks[k] > p {
                let b = self.bookmarks[k];
                proof {
                    let s = self.bookmarks@;
                    assert forall|j: int| 0 <= j < s.len() && s[j] > p implies s[j] >= b by {
                        if j < k {
                        }
                    }
                }
                self.jump_to(b);
                return true;
            }
            k = k + 1;
        }
        false
    }

    /// Moves to the nearest bookmark before the current position and says
    /// whether there is one; without one, nothing changes.
    pub fn jump_to_prev_bookmark(&mut self) -> (r: bool)
        requires
            old(self).wf(),
        ensures
            final(self).wf(),
            r == exists|j: int|
                0 <= j < old(self)@.bookmarks.len() && old(self)@.bookmarks[j] < old(self)@.position,
            !r ==> final(self)@ == old(self)@,
            r ==> {
                &&& final(self)@ == old(self)@.jumped(final(self)@.position as int)
                &&& old(self)@.bookmarks.contains(final(self)@.position as usize)
                &&& final(self)@.position < old(self)@.position
                &&& forall|j: int|
                    0 <= j < old(self)@.bookmarks.len() && old(self)@.bookmarks[j] < old(self)@.position
                        ==> old(self)@.bookmarks[j] <= final(self)@.position
            },
    {
        let p = self.position;
        let mut k: usize = self.bookmarks.len();
        while k > 0
            invariant
                self@ == old(self)@,
                old(self).wf(),
                p == old(self)@.position,
                k <= self.bookmarks@.len(),
                forall|j: int| k <= j < self.bookmarks@.len() ==> self.bookmarks@[j] >= p,
            decreases k,
        {
            if self.bookmarks[k - 1] < p {
                let b = self.bookmarks[k - 1];
                proof {
                    let s = self.bookmarks@;
                    assert forall|j: int| 0 <= j < s.len() && s[j] < p implies s[j] <= b by {
                        if j > k - 1 {
                        }
                    }
                }
                self.jump_to(b);
                return true;
            }
            k = k - 1;
        }
        false
    }

    /// The events from `start` up to `end`, both cut to the end of the
    /// list; empty where `start` does not come before `end`.
    pub fn events_in_range(&self, start: usize, end: usize) -> (r: &[Event])
        ensures
            ({
                let len = self@.events.len();
                let s = if start < len { start as int } else { len as int };
                let e = if end < len { end as int } else { len as int };
                r@ == (if s < e { self@.events.subrange(s, e) } else { Seq::<Event>::empty() })
            }),
    {
        let all = self.events.as_slice();
        let len = self.events.len();
        let s = if start < len { start } else { len };
        let e = if end < len { end } else { len };
        if s < e {
            vstd::slice::slice_subrange(all, s, e)
        } else {
            let r = vstd::slice::slice_subrange(all, 0, 0);
            proof {
                assert(r@ =~= Seq::<Event>::empty());
            }
            r
        }
    }

    /// All the events.
    pub fn all_events(&self) -> (r: &[Event])
        ensures
            r@ == self@.events,
    {
        self.events.as_slice()
    }

    /// Whether the replay is at the beginning.
    pub fn is_at_start(&self) -> (r: bool)
        ensures
            r == (self@.position == 0),
    {
        self.position == 0
    }

    /// Whether the replay is past the last event.
    pub fn is_at_end(&self) -> (r: bool)
        ensures
            r == (self@.position >= self@.events.len()),
    {
        self.position >= self.events.len()
    }
}

/// A list all of whose elements pass `pred` passes through a filter whole.
proof fn lemma_filter_keeps_all(t: Seq<usize>, pred: spec_fn(usize) -> bool)
    requires
        forall|i: int| 0 <= i < t.len() ==> pred(t[i]),
    ensures
        t.filter(pred) == t,
    decreases t.len(),
{
    reveal(Seq::filter);
    if t.len() > 0 {
        lemma_filter_keeps_all(t.drop_last(), pred);
        assert(t.drop_last().push(t.last()) =~= t);
    }
}

/// Stepping forward and then back returns to the same position, and
/// stepping back and then forward too; neither touches the events or the
/// bookmarks.
pub proof fn law_steps_undo_each_other(v: ReplayView)
    requires
        v.ok(),
    ensures
        v.position < v.events.len() ==> v.stepped_forward().stepped_back().position == v.position,
        v.position > 0 ==> v.stepped_back().stepped_forward().position == v.position,
        v.stepped_forward().events == v.events && v.stepped_forward().bookmarks == v.bookmarks,
        v.stepped_back().events == v.events && v.stepped_back().bookmarks == v.bookmarks,
{
}

/// Bookmarking a position that was not bookmarked and then taking the
/// bookmark off gives back the controller as it was.
pub proof fn law_bookmark_then_unbookmark(v: ReplayView)
    requires
        v.ok(),
        !v.bookmarks.contains(v.position as usize),
    ensures
        v.bookmarked().unbookmarked() == v,
{
    let s = v.bookmarks;
    let p = v.position as usize;
    lemma_count_below_le(s, p);
    assert forall|i: int| 0 <= i < s.len() implies (other_than(v.position))(s[i]) by {
        assert(s[i] != p);
    }
    lemma_filter_insert(s, count_below(s, p) as int, p, other_than(v.position));
    assert(v.bookmarked().unbookmarked().bookmarks == s);
}

/// Inserting an element that fails `pred` into a list whose elements all
/// pass it, and filtering, gives back the list.
proof fn lemma_filter_insert(s: Seq<usize>, k: int, x: usize, pred: spec_fn(usize) -> bool)
    requires
        0 <= k <= s.len(),
        !pred(x),
        forall|i: int| 0 <= i < s.len() ==> pred(s[i]),
    ensures
        s.insert(k, x).filter(pred) == s,
    decreases s.len(),
{
    let t = s.insert(k, x);
    if k == s.len() {
        assert(t.drop_last() =~= s);
        assert(t.filter(pred) == s.filter(pred)) by {
            reveal(Seq::filter);
        }
        lemma_filter_keeps_all(s, pred);
    } else {
        let d = s.drop_last();
        lemma_filter_insert(d, k, x, pred);
        assert(t.drop_last() =~= d.insert(k, x));
        assert(t.last() == s.last());
        assert(t.filter(pred) == d.insert(k, x).filter(pred).push(s.last())) by {
            reveal(Seq::filter);
        }
        assert(d.push(s.last()) =~= s);
    }
}

/// Bookmarking twice is bookmarking once; after a bookmark is taken off,
/// the current position is not bookmarked.
pub proof fn law_bookmarks_settle(v: ReplayView)
    requires
        v.ok(),
    ensures
        v.bookmarked().bookmarked() == v.bookmarked(),
        v.bookmarked().bookmarks.contains(v.position as usize),
        !v.unbookmarked().bookmarks.contains(v.position as usize),
{
    let s = v.bookmarks;
    let p = v.position as usize;
    if !s.contains(p) {
        lemma_count_below_le(s, p);
        let k = count_below(s, p) as int;
        assert(s.insert(k, p)[k] == p);
    }
    let f = s.filter(other_than(v.position));
    if f.contains(p) {
        let j = choose|j: int| 0 <= j < f.len() && f[j] == p;
        s.lemma_filter_pred(other_than(v.position), j);
    }
}

/// A one-element list whose element fails `pred` filters to nothing.
proof fn lemma_filter_drops_single(x: usize, pred: spec_fn(usize) -> bool)
    requires
        !pred(x),
    ensures
        seq![x].filter(pred) == Seq::<usize>::empty(),
{
    reveal_with_fuel(Seq::filter, 2);
    assert(seq![x].drop_last() =~= Seq::<usize>::empty());
}

/// There are never more elements below `x` than elements.
proof fn lemma_count_below_le(s: Seq<usize>, x: usize)
    ensures
        count_below(s, x) <= s.len(),
    decreases s.len(),
{
    if s.len() > 0 {
        lemma_count_below_le(s.drop_last(), x);
    }
}

/// The positions other than `p`.
pub open spec fn other_than(p: nat) -> spec_fn(usize) -> bool {
    |b: usize| b != p
}

/// In a list in increasing order, the elements below `x` are the first
/// `k` when the `k`-th is the first that is not.
pub proof fn lemma_count_below_prefix(s: Seq<usize>, x: usize, k: int)
    requires
        strictly_increasing(s),
        0 <= k <= s.len(),
        forall|j: int| 0 <= j < k ==> s[j] < x,
        k < s.len() ==> s[k] >= x,
    ensures
        count_below(s, x) == k,
    decreases s.len(),
{
    if s.len() > 0 {
        if k == s.len() {
            lemma_count_below_prefix(s.drop_last(), x, k - 1);
        } else {
            if k < s.len() - 1 {
                assert(s[k] < s[s.len() - 1]);
            }
            lemma_count_below_prefix(s.drop_last(), x, k);
        }
    }
}

} // verus!
