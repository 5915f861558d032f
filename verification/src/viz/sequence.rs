//! Message sequence diagram of a recorded run.
use std::collections::HashSet;
use vstd::prelude::*;
use crate::recording::format::{Event, EventPayload};
use crate::util::fmt::{dec, push_dec};
use std::collections::HashMap;
use crate::util::vec_map::{MapKey, VecMap};
use crate::util::wrap::lemma_wrap_step;

verus! {

broadcast use vstd::std_specs::hash::group_hash_axioms;

/// A send waiting for its receive: its ends and its size.
#[derive(Debug, Clone, Copy, PartialEq, Eq, Structural)]
pub struct SendKey {
    pub from: u32,
    pub to: u32,
    pub size: usize,
}

impl MapKey for SendKey {
    fn same(&self, other: &Self) -> (r: bool) {
        self.from == other.from && self.to == other.to && self.size == other.size
    }
}

/// What a sequence message holds, as plain values.
pub struct SeqMsgView {
    pub from: u32,
    pub to: u32,
    pub send_time: u64,
    pub recv_time: Option<u64>,
    pub size: usize,
    pub label: Seq<char>,
}

/// A message in the sequence diagram.
#[derive(Debug)]
pub struct SequenceMessage {
    /// Source task ID.
    pub from: u32,
    /// Destination task ID.
    pub to: u32,
    /// Send timestamp.
    pub send_time: u64,
    /// Receive timestamp (if received).
    pub recv_time: Option<u64>,
    /// Message size in bytes.
    pub size: usize,
    /// Message label.
    pub label: String,
}

impl View for SequenceMessage {
    type V = SeqMsgView;

    open spec fn view(&self) -> SeqMsgView {
        SeqMsgView {
            from: self.from,
            to: self.to,
            send_time: self.send_time,
            recv_time: self.recv_time,
            size: self.size,
            label: self.label@,
        }
    }
}

impl Clone for SequenceMessage {
    fn clone(&self) -> (r: Self)
        ensures
            r@ == self@,
    {
        SequenceMessage {
            from: self.from,
            to: self.to,
            send_time: self.send_time,
            recv_time: self.recv_time,
            size: self.size,
            label: self.label.clone(),
        }
    }
}

/// The views of a list of messages.
pub open spec fn msg_views(s: Seq<SequenceMessage>) -> Seq<SeqMsgView> {
    s.map_values(|m: SequenceMessage| m@)
}

/// The message a receive completes: sent at the matching pending send's
/// time (zero when none is pending), received now.
pub open spec fn received(pending: Map<SendKey, u64>, src: u32, dst: u32, size: usize, now: u64) -> SeqMsgView {
    let key = SendKey { from: src, to: dst, size };
    SeqMsgView {
        from: src,
        to: dst,
        send_time: if pending.contains_key(key) { pending[key] } else { 0 },
        recv_time: Some(now),
        size,
        label: dec(size as nat) + " bytes"@,
    }
}

/// Whether task `t` sends or receives message `m`.
pub open spec fn involves(m: SequenceMessage, t: u32) -> bool {
    m.from == t || m.to == t
}

/// Whether task `t` sends or receives one of the messages.
pub open spec fn takes_part(s: Seq<SequenceMessage>, t: u32) -> bool {
    exists|i: int| 0 <= i < s.len() && involves(#[trigger] s[i], t)
}

/// Taking one more message in adds its two ends.
proof fn lemma_takes_part_step(s: Seq<SequenceMessage>, i: int, t: u32)
    requires
        0 <= i < s.len(),
    ensures
        takes_part(s.take(i + 1), t) <==> (takes_part(s.take(i), t) || involves(s[i], t)),
{
    let p = s.take(i);
    let q = s.take(i + 1);
    if takes_part(q, t) {
        let j = choose|j: int| 0 <= j < q.len() && involves(#[trigger] q[j], t);
        if j < i {
            assert(p[j] == q[j]);
        }
    }
    if takes_part(p, t) {
        let j = choose|j: int| 0 <= j < p.len() && involves(#[trigger] p[j], t);
        assert(q[j] == p[j]);
    }
    if involves(s[i], t) {
        assert(q[i] == s[i]);
    }
}

/// The total size of the messages.
pub open spec fn size_total(s: Seq<SequenceMessage>) -> nat
    decreases s.len(),
{
    if s.len() == 0 { 0 } else { size_total(s.drop_last()) + (s.last().size as nat) }
}

/// A received message's latency (zero if it arrived before it was sent).
pub open spec fn latency(m: SequenceMessage) -> u64 {
    match m.recv_time {
        Some(r) => if r >= m.send_time { (r - m.send_time) as u64 } else { 0 },
        None => 0,
    }
}

/// The total latency of the received messages.
pub open spec fn latency_total(s: Seq<SequenceMessage>) -> nat
    decreases s.len(),
{
    if s.len() == 0 { 0 } else { latency_total(s.drop_last()) + (latency(s.last()) as nat) }
}

/// How many of the messages were received.
pub open spec fn received_count(s: Seq<SequenceMessage>) -> nat
    decreases s.len(),
{
    if s.len() == 0 {
        0
    } else {
        received_count(s.drop_last()) + if s.last().recv_time is Some { 1nat } else { 0nat }
    }
}

/// The modulus of `u64` arithmetic.
pub open spec fn u64_modulus() -> int {
    0x1_0000_0000_0000_0000
}

/// Sequence diagram builder.
pub struct SequenceDiagram {
    participants: HashMap<u32, String>,
    messages: Vec<SequenceMessage>,
    pending: VecMap<SendKey, u64>,
}

impl SequenceDiagram {
    /// The participants' names by task id.
    pub closed spec fn names(&self) -> Map<u32, Seq<char>> {
        self.participants@.map_values(|s: String| s@)
    }

    /// The messages so far, in the order they were received.
    pub closed spec fn message_list(&self) -> Seq<SequenceMessage> {
        self.messages@
    }

    /// Sends not received yet: (from, to, size) to send time.
    pub closed spec fn pending_sends(&self) -> Map<SendKey, u64> {
        self.pending@
    }

    /// Create a new sequence diagram.
    pub fn new() -> (r: Self)
        ensures
            r.names() == Map::<u32, Seq<char>>::empty(),
            r.message_list() == Seq::<SequenceMessage>::empty(),
            r.pending_sends() == Map::<SendKey, u64>::empty(),
    {
        let r = SequenceDiagram { participants: HashMap::new(), messages: Vec::new(), pending: VecMap::new() };
        proof {
            assert(r.names() =~= Map::<u32, Seq<char>>::empty());
        }
        r
    }

    /// Add an event: a spawn names a participant, a send waits to be
    /// received, and a receive completes the matching send (same ends, same
    /// size) into a message.
    pub fn add_event(&mut self, event: &Event)
        ensures
            event.payload matches EventPayload::TaskSpawn { name, .. } ==> {
                &&& final(self).names() == old(self).names().insert(event.task_id, name@)
                &&& final(self).message_list() == old(self).message_list()
                &&& final(self).pending_sends() == old(self).pending_sends()
            },
            event.payload matches EventPayload::NetSend { dst, data } ==> {
                &&& final(self).names() == old(self).names()
                &&& final(self).message_list() == old(self).message_list()
                &&& final(self).pending_sends() == old(self).pending_sends().insert(
                    SendKey { from: event.task_id, to: dst, size: data@.len() as usize },
                    event.timestamp,
                )
            },
            event.payload matches EventPayload::NetRecv { src, data } ==> {
                &&& final(self).names() == old(self).names()
                &&& msg_views(final(self).message_list()) == msg_views(old(self).message_list()).push(
                    received(old(self).pending_sends(), src, event.task_id, data@.len() as usize, event.timestamp),
                )
                &&& final(self).pending_sends() == old(self).pending_sends().remove(
                    SendKey { from: src, to: event.task_id, size: data@.len() as usize },
                )
            },
            !(event.payload is TaskSpawn || event.payload is NetSend || event.payload is NetRecv) ==> {
                &&& final(self).names() == old(self).names()
                &&& final(self).message_list() == old(self).message_list()
                &&& final(self).pending_sends() == old(self).pending_sends()
            },
    {
        match &event.payload {
            EventPayload::TaskSpawn { name, .. } => {
                self.participants.insert(event.task_id, name.clone());
                proof {
                    assert(self.names() =~= old(self).names().insert(event.task_id, name@));
                }
            },
            EventPayload::NetSend { dst, data } => {
                self.pending.insert(SendKey { from: event.task_id, to: *dst, size: data.len() }, event.timestamp);
            },
            EventPayload::NetRecv { src, data } => {
                let key = SendKey { from: *src, to: event.task_id, size: data.len() };
                let send_time = self.pending.remove(&key);
                let mut label = String::new();
                push_dec(&mut label, data.len() as u64);
                label.append(" bytes");
                let msg = SequenceMessage {
                    from: *src,
                    to: event.task_id,
                    send_time: match send_time {
                        Some(t) => t,
                        None => 0,
                    },
                    recv_time: Some(event.timestamp),
                    size: data.len(),
                    label,
                };
                let ghost mv = msg@;
                self.messages.push(msg);
                proof {
                    assert(mv == received(old(self).pending_sends(), *src, event.task_id, data@.len() as usize, event.timestamp));
                    assert(msg_views(self.messages@) =~= msg_views(old(self).messages@).push(mv));
                }
            },
            _ => {},
        }
    }

    /// The participants' names by task id.
    pub fn participants(&self) -> (r: &HashMap<u32, String>)
        ensures
            r@.map_values(|s: String| s@) == self.names(),
    {
        &self.participants
    }

    /// All messages, in the order they were received.
    pub fn messages(&self) -> (r: &[SequenceMessage])
        ensures
            r@ == self.message_list(),
    {
        self.messages.as_slice()
    }

    /// Get the message count.
    pub fn message_count(&self) -> (r: usize)
        ensures
            r == self.message_list().len(),
    {
        self.messages.len()
    }

    /// Get the participant count.
    pub fn participant_count(&self) -> (r: usize)
        ensures
            r == self.names().dom().len(),
    {
        proof {
            assert(self.names().dom() =~= self.participants@.dom());
        }
        self.participants.len()
    }

    /// The tasks that send or receive some message.
    pub fn active_participants(&self) -> (r: HashSet<u32>)
        ensures
            forall|t: u32| r@.contains(t) <==> takes_part(self.message_list(), t),
    {
        let mut active: HashSet<u32> = HashSet::new();
        let mut i: usize = 0;
        while i < self.messages.len()
            invariant
                i <= self.messages@.len(),
                forall|t: u32| active@.contains(t) <==> takes_part(self.messages@.take(i as int), t),
            decreases self.messages@.len() - i,
        {
            active.insert(self.messages[i].from);
            active.insert(self.messages[i].to);
            proof {
                assert forall|t: u32| active@.contains(t) <==> takes_part(self.messages@.take(i as int + 1), t) by {
                    lemma_takes_part_step(self.messages@, i as int, t);
                }
            }
            i = i + 1;
        }
        proof {
            assert(self.messages@.take(self.messages@.len() as int) =~= self.messages@);
        }
        active
    }

    /// The total size of the messages; the sum wraps around as unchecked
    /// additions do in release builds.
    pub fn total_bytes(&self) -> (r: usize)
        ensures
            r == (size_total(self.message_list()) as int) % (usize::MAX as int + 1),
    {
        let mut total: usize = 0;
        let mut i: usize = 0;
        proof {
            assert(self.messages@.take(0) =~= Seq::<SequenceMessage>::empty());
            vstd::arithmetic::div_mod::lemma_small_mod(0, usize::MAX as nat + 1);
        }
        while i < self.messages.len()
            invariant
                i <= self.messages@.len(),
                total == (size_total(self.messages@.take(i as int)) as int) % (usize::MAX as int + 1),
            decreases self.messages@.len() - i,
        {
            let x = self.messages[i].size;
            proof {
                assert(self.messages@.take(i as int + 1).drop_last() =~= self.messages@.take(i as int));
                lemma_wrap_step(size_total(self.messages@.take(i as int)) as int, total as int, x as int, usize::MAX as int + 1);
            }
            total = total.wrapping_add(x);
            i = i + 1;
        }
        proof {
            assert(self.messages@.take(self.messages@.len() as int) =~= self.messages@);
        }
        total
    }

    /// Messages sent or received by a task, in order.
    pub fn messages_for_task(&self, task_id: u32) -> (r: Vec<&SequenceMessage>)
        ensures
            r@.map_values(|m: &SequenceMessage| *m) == self.message_list().filter(
                |m: SequenceMessage| m.from == task_id || m.to == task_id,
            ),
    {
        let mut out: Vec<&SequenceMessage> = Vec::new();
        let mut i: usize = 0;
        let ghost pred = |m: SequenceMessage| m.from == task_id || m.to == task_id;
        while i < self.messages.len()
            invariant
                i <= self.messages@.len(),
                pred == (|m: SequenceMessage| m.from == task_id || m.to == task_id),
                out@.map_values(|m: &SequenceMessage| *m) == self.messages@.take(i as int).filter(pred),
            decreases self.messages@.len() - i,
        {
            let m = &self.messages[i];
            proof {
                let q = self.messages@.take(i as int + 1);
                assert(q.drop_last() =~= self.messages@.take(i as int));
                reveal(Seq::filter);
                assert(q =~= self.messages@.take(i as int).push(self.messages@[i as int]));
            }
            if m.from == task_id || m.to == task_id {
                let ghost before = out@;
                out.push(m);
                proof {
                    assert(out@.map_values(|m: &SequenceMessage| *m) =~= before.map_values(|m: &SequenceMessage| *m).push(*m));
                }
            }
            i = i + 1;
        }
        proof {
            assert(self.messages@.take(self.messages@.len() as int) =~= self.messages@);
        }
        out
    }

    /// The average latency of the received messages, or `None` when no
    /// message was received; the sum wraps around as unchecked additions do
    /// in release builds.
    pub fn avg_latency_ns(&self) -> (r: Option<u64>)
        ensures
            received_count(self.message_list()) == 0 ==> r is None,
            received_count(self.message_list()) > 0 ==> r == Some(
                (((latency_total(self.message_list()) as int) % u64_modulus()) / (received_count(self.message_list()) as int)) as u64,
            ),
    {
        let mut sum: u64 = 0;
        let mut count: u64 = 0;
        let mut i: usize = 0;
        while i < self.messages.len()
            invariant
                i <= self.messages@.len(),
                sum == (latency_total(self.messages@.take(i as int)) as int) % u64_modulus(),
                count == received_count(self.messages@.take(i as int)),
                count <= i,
            decreases self.messages@.len() - i,
        {
            let m = &self.messages[i];
            proof {
                assert(self.messages@.take(i as int + 1).drop_last() =~= self.messages@.take(i as int));
                assert(self.messages@.take(i as int + 1).last() == *m);
            }
            match m.recv_time {
                Some(r) => {
                    let l = r.saturating_sub(m.send_time);
                    proof {
                        lemma_wrap_step(latency_total(self.messages@.take(i as int)) as int, sum as int, l as int, u64_modulus());
                    }
                    sum = sum.wrapping_add(l);
                    count = count + 1;
                },
                None => {},
            }
            i = i + 1;
        }
        proof {
            assert(self.messages@.take(self.messages@.len() as int) =~= self.messages@);
        }
        if count == 0 {
            None
        } else {
            Some(sum / count)
        }
    }
}

impl Default for SequenceDiagram {
    fn default() -> (r: Self)
        ensures
            r.names() == Map::<u32, Seq<char>>::empty(),
            r.message_list() == Seq::<SequenceMessage>::empty(),
            r.pending_sends() == Map::<SendKey, u64>::empty(),
    {
        Self::new()
    }
}

} // verus!
