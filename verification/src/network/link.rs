//! What a point-to-point link keeps: the messages in flight with their
//! delivery times, and the bandwidth budget of the current one-second
//! window.
use vstd::prelude::*;
use crate::network::message::{InFlightMessage, Message, MessageView};
use crate::time::Instant;

verus! {

/// A message in flight, as plain values.
pub struct InFlightView {
    pub msg: MessageView,
    pub deliver_at: u64,
}

impl View for InFlightMessage {
    type V = InFlightView;

    open spec fn view(&self) -> InFlightView {
        InFlightView { msg: self.msg@, deliver_at: self.deliver_at@ }
    }
}

/// The views of a list of messages in flight.
pub open spec fn flight_views(s: Seq<InFlightMessage>) -> Seq<InFlightView> {
    s.map_values(|m: InFlightMessage| m@)
}

/// The messages of `s` due by `now`, in order.
pub open spec fn due_by(s: Seq<InFlightView>, now: u64) -> Seq<InFlightView>
    decreases s.len(),
{
    if s.len() == 0 {
        Seq::empty()
    } else if s.last().deliver_at <= now {
        due_by(s.drop_last(), now).push(s.last())
    } else {
        due_by(s.drop_last(), now)
    }
}

/// The messages of `s` not yet due at `now`, in order.
pub open spec fn pending_after(s: Seq<InFlightView>, now: u64) -> Seq<InFlightView>
    decreases s.len(),
{
    if s.len() == 0 {
        Seq::empty()
    } else if s.last().deliver_at <= now {
        pending_after(s.drop_last(), now)
    } else {
        pending_after(s.drop_last(), now).push(s.last())
    }
}

/// The earliest delivery time of `s`, if any.
pub open spec fn earliest(s: Seq<InFlightView>) -> Option<u64>
    decreases s.len(),
{
    if s.len() == 0 {
        None
    } else {
        match earliest(s.drop_last()) {
            Some(t) => Some(if s.last().deliver_at < t { s.last().deliver_at } else { t }),
            None => Some(s.last().deliver_at),
        }
    }
}

/// The messages of a list, as plain values.
pub open spec fn message_views(s: Seq<Message>) -> Seq<MessageView> {
    s.map_values(|m: Message| m@)
}

/// The messages of a list of messages in flight.
pub open spec fn messages_of(s: Seq<InFlightView>) -> Seq<MessageView> {
    s.map_values(|m: InFlightView| m.msg)
}

/// The messages in flight on a link, in the order they were sent.
pub struct InFlightQueue {
    in_flight: Vec<InFlightMessage>,
}

impl View for InFlightQueue {
    type V = Seq<InFlightView>;

    closed spec fn view(&self) -> Seq<InFlightView> {
        flight_views(self.in_flight@)
    }
}

impl InFlightQueue {
    /// An empty queue.
    pub fn new() -> (r: Self)
        ensures
            r@ == Seq::<InFlightView>::empty(),
    {
        let r = InFlightQueue { in_flight: Vec::new() };
        proof {
            assert(flight_views(r.in_flight@) =~= Seq::<InFlightView>::empty());
        }
        r
    }

    /// Puts a message in flight, after those already there.
    pub fn push(&mut self, msg: InFlightMessage)
        ensures
            final(self)@ == old(self)@.push(msg@),
    {
        let ghost before = self.in_flight@;
        self.in_flight.push(msg);
        proof {
            assert(flight_views(self.in_flight@) =~= flight_views(before).push(msg@));
        }
    }

    /// Delivers all messages that should arrive by `now`: returns them in
    /// the order sent and keeps the others, in the same order.
    pub fn deliver(&mut self, now: Instant) -> (r: Vec<Message>)
        ensures
            message_views(r@) == messages_of(due_by(old(self)@, now@)),
            final(self)@ == pending_after(old(self)@, now@),
    {
        let ghost s = self@;
        let mut all: Vec<InFlightMessage> = Vec::new();
        std::mem::swap(&mut all, &mut self.in_flight);
        let mut delivered: Vec<Message> = Vec::new();
        let mut kept: Vec<InFlightMessage> = Vec::new();
        let ghost all0 = all@;
        proof {
            assert(flight_views(all0) == s);
            assert(s.take(0) =~= Seq::<InFlightView>::empty());
            assert(message_views(delivered@) =~= Seq::<MessageView>::empty());
            assert(flight_views(kept@) =~= Seq::<InFlightView>::empty());
        }
        let n = all.len();
        let mut i: usize = 0;
        while i < n
            invariant
                n == all0.len(),
                i <= n,
                all@ == all0.skip(i as int),
                s == flight_views(all0),
                message_views(delivered@) == messages_of(due_by(s.take(i as int), now@)),
                flight_views(kept@) == pending_after(s.take(i as int), now@),
            decreases n - i,
        {
            let ghost rest = all@;
            let m = all.remove(0);
            proof {
                assert(rest[0] == all0[i as int]);
                assert(all@ =~= all0.skip(i as int + 1));
                let q = s.take(i as int + 1);
                assert(q.drop_last() =~= s.take(i as int));
                assert(q.last() == m@);
            }
            if m.deliver_at.0 <= now.0 {
                let ghost d0 = delivered@;
                delivered.push(m.msg);
                proof {
                    assert(message_views(delivered@) =~= message_views(d0).push(delivered@.last()@));
                    assert(messages_of(due_by(s.take(i as int), now@).push(s[i as int])) =~= messages_of(
                        due_by(s.take(i as int), now@),
                    ).push(s[i as int].msg));
                }
            } else {
                let ghost k0 = kept@;
                kept.push(m);
                proof {
                    assert(flight_views(kept@) =~= flight_views(k0).push(kept@.last()@));
                }
            }
            i = i + 1;
        }
        proof {
            assert(s.take(n as int) =~= s);
        }
        self.in_flight = kept;
        delivered
    }

    /// The messages that would be delivered by `now`, in the order sent.
    pub fn peek_deliverable(&self, now: Instant) -> (r: Vec<&Message>)
        ensures
            r@.len() == due_by(self@, now@).len(),
            forall|i: int| 0 <= i < r@.len() ==> (#[trigger] r@[i])@ == due_by(self@, now@)[i].msg,
    {
        let ghost s = self@;
        let mut out: Vec<&Message> = Vec::new();
        let mut i: usize = 0;
        proof {
            assert(s.take(0) =~= Seq::<InFlightView>::empty());
        }
        while i < self.in_flight.len()
            invariant
                s == self@,
                s == flight_views(self.in_flight@),
                i <= self.in_flight@.len(),
                out@.len() == due_by(s.take(i as int), now@).len(),
                forall|k: int| 0 <= k < out@.len() ==> (#[trigger] out@[k])@ == due_by(s.take(i as int), now@)[k].msg,
            decreases self.in_flight@.len() - i,
        {
            let m = &self.in_flight[i];
            proof {
                let q = s.take(i as int + 1);
                assert(q.drop_last() =~= s.take(i as int));
                assert(q.last() == m@);
            }
            if m.deliver_at.0 <= now.0 {
                out.push(&m.msg);
            }
            i = i + 1;
        }
        proof {
            assert(s.take(self.in_flight@.len() as int) =~= s);
        }
        out
    }

    /// The number of messages in flight.
    pub fn in_flight_count(&self) -> (r: usize)
        ensures
            r == self@.len(),
    {
        self.in_flight.len()
    }

    /// Whether no message is in flight.
    pub fn is_empty(&self) -> (r: bool)
        ensures
            r == (self@.len() == 0),
    {
        self.in_flight.len() == 0
    }

    /// The earliest delivery time, if any message is in flight.
    pub fn next_delivery_time(&self) -> (r: Option<Instant>)
        ensures
            match r {
                Some(t) => earliest(self@) == Some(t@),
                None => earliest(self@) is None,
            },
    {
        let ghost s = self@;
        let mut best: Option<Instant> = None;
        let mut i: usize = 0;
        proof {
            assert(s.take(0) =~= Seq::<InFlightView>::empty());
        }
        while i < self.in_flight.len()
            invariant
                s == self@,
                s == flight_views(self.in_flight@),
                i <= self.in_flight@.len(),
                match best {
                    Some(t) => earliest(s.take(i as int)) == Some(t@),
                    None => earliest(s.take(i as int)) is None,
                },
            decreases self.in_flight@.len() - i,
        {
            let t = self.in_flight[i].deliver_at;
            proof {
                let q = s.take(i as int + 1);
                assert(q.drop_last() =~= s.take(i as int));
                assert(q.last().deliver_at == t@);
            }
            best = match best {
                Some(b) => if t.0 < b.0 { Some(t) } else { Some(b) },
                None => Some(t),
            };
            i = i + 1;
        }
        proof {
            assert(s.take(self.in_flight@.len() as int) =~= s);
        }
        best
    }

    /// Drops every message in flight.
    pub fn clear(&mut self)
        ensures
            final(self)@ == Seq::<InFlightView>::empty(),
    {
        self.in_flight = Vec::new();
        proof {
            assert(flight_views(self.in_flight@) =~= Seq::<InFlightView>::empty());
        }
    }
}

/// The length of a bandwidth window, in nanoseconds: one second.
pub const WINDOW_NANOS: u64 = 1_000_000_000;

/// The bandwidth budget of a link: bytes per second (0: unlimited), bytes
/// sent in the current window, and when that window started.
#[derive(Debug, Clone, Copy, PartialEq, Eq, Structural)]
pub struct BandwidthWindow {
    pub bandwidth_bps: u64,
    pub bytes_in_window: u64,
    pub window_start: Option<Instant>,
}

/// The window after a message of `size` bytes at `now` asks to pass, and
/// whether it passes within the budget: a window a second old or more, or
/// none yet, starts over at `now`; a message that would take the window
/// over the budget does not count toward it.
pub open spec fn admitted(w: BandwidthWindow, size: u64, now: u64) -> (BandwidthWindow, bool) {
    if w.bandwidth_bps == 0 {
        (w, true)
    } else {
        let fresh = match w.window_start {
            Some(start) => start@ <= now && now - start@ >= WINDOW_NANOS,
            None => true,
        };
        let w1 = if fresh {
            BandwidthWindow { window_start: Some(Instant(now)), bytes_in_window: if w.window_start is Some { 0 } else { w.bytes_in_window }, ..w }
        } else {
            w
        };
        if w1.bytes_in_window + size > w1.bandwidth_bps {
            (w1, false)
        } else {
            (BandwidthWindow { bytes_in_window: (w1.bytes_in_window + size) as u64, ..w1 }, true)
        }
    }
}

impl BandwidthWindow {
    /// An unlimited link with no window yet.
    pub fn new() -> (r: Self)
        ensures
            r.bandwidth_bps == 0,
            r.bytes_in_window == 0,
            r.window_start is None,
    {
        BandwidthWindow { bandwidth_bps: 0, bytes_in_window: 0, window_start: None }
    }

    /// Lets a message of `size` bytes at `now` ask to pass; returns whether
    /// it passes within the budget.
    pub fn try_send(&mut self, size: u64, now: Instant) -> (r: bool)
        ensures
            (*final(self), r) == admitted(*old(self), size, now@),
    {
        if self.bandwidth_bps == 0 {
            return true;
        }
        match self.window_start {
            Some(start) => {
                if start.0 <= now.0 && now.0 - start.0 >= WINDOW_NANOS {
                    self.window_start = Some(now);
                    self.bytes_in_window = 0;
                }
            },
            None => {
                self.window_start = Some(now);
            },
        }
        if self.bytes_in_window > self.bandwidth_bps || size > self.bandwidth_bps - self.bytes_in_window {
            false
        } else {
            self.bytes_in_window = self.bytes_in_window + size;
            true
        }
    }

    /// Starts over: no window, nothing sent.
    pub fn reset(&mut self)
        ensures
            final(self).bandwidth_bps == old(self).bandwidth_bps,
            final(self).bytes_in_window == 0,
            final(self).window_start is None,
    {
        self.bytes_in_window = 0;
        self.window_start = None;
    }
}

/// Messages in flight come out in the order they went in: all those due by
/// a time, then the rest, are the same messages as before, none lost.
pub proof fn law_delivery_loses_nothing(s: Seq<InFlightView>, now: u64)
    ensures
        due_by(s, now).len() + pending_after(s, now).len() == s.len(),
        forall|i: int| 0 <= i < due_by(s, now).len() ==> (#[trigger] due_by(s, now)[i]).deliver_at <= now,
        forall|i: int| 0 <= i < pending_after(s, now).len() ==> (#[trigger] pending_after(s, now)[i]).deliver_at > now,
    decreases s.len(),
{
    if s.len() > 0 {
        law_delivery_loses_nothing(s.drop_last(), now);
        let d0 = due_by(s.drop_last(), now);
        let p0 = pending_after(s.drop_last(), now);
        assert forall|i: int| 0 <= i < due_by(s, now).len() implies (#[trigger] due_by(s, now)[i]).deliver_at <= now by {
            if i < d0.len() {
                assert(due_by(s, now)[i] == d0[i]);
            }
        }
        assert forall|i: int| 0 <= i < pending_after(s, now).len() implies (#[trigger] pending_after(s, now)[i]).deliver_at
            > now by {
            if i < p0.len() {
                assert(pending_after(s, now)[i] == p0[i]);
            }
        }
    }
}

} // verus!
