//! Node abstraction for cluster simulation.
use std::collections::VecDeque;
use std::sync::mpsc::Sender;
use vstd::prelude::*;
use crate::network::message::Message as NetMessage;
use crate::runtime::task::TaskHandle;
use crate::time::instant::Instant;
use crate::util::bytes::copy_bytes;
use std::collections::HashMap;
use crate::{NodeId, TaskId};

verus! {

broadcast use vstd::std_specs::hash::group_hash_axioms;

/// State of a simulated node.
#[derive(Debug, Clone, Copy, PartialEq, Eq, Structural)]
pub enum NodeState {
    /// Node is running normally.
    Running,
    /// Node has crashed.
    Crashed,
    /// Node is paused (for debugging).
    Paused,
}

/// A message that can be sent between nodes, implemented by users.
pub trait Message: Send + Sync + 'static {
    /// The response type for this message.
    type Response: Send + 'static;

    /// Serialize to bytes.
    fn to_bytes(&self) -> Vec<u8>;

    /// Deserialize from bytes.
    fn from_bytes(bytes: &[u8]) -> Option<Self> where Self: Sized;
}

/// Handler for incoming messages, implemented by users.
pub trait MessageHandler: Send + Sync {
    /// What the handler answers to `data` from `from`; `None`: no answer.
    /// A handler that never answers need not say so.
    open spec fn answer(&self, from: NodeId, data: Seq<u8>) -> Option<Seq<u8>> {
        None
    }

    /// Handle an incoming message and return response bytes: the handler's
    /// answer.
    fn handle(&self, from: NodeId, data: &[u8]) -> (r: Option<Vec<u8>>)
        ensures
            match r {
                Some(v) => self.answer(from, data@) == Some(v@),
                None => self.answer(from, data@) is None,
            };
}

/// The answers of a handler, as a function of sender and data.
pub type AnswerFn = spec_fn(NodeId, Seq<u8>) -> Option<Seq<u8>>;

/// What an internal message holds, as plain values.
pub struct InternalView {
    pub from: NodeId,
    pub to: NodeId,
    pub data: Seq<u8>,
    pub timestamp: u64,
    pub request_id: u64,
}

/// Internal message with metadata.
#[derive(Debug)]
pub struct InternalMessage {
    pub from: NodeId,
    pub to: NodeId,
    pub data: Vec<u8>,
    pub timestamp: Instant,
    pub request_id: u64,
}

impl View for InternalMessage {
    type V = InternalView;

    open spec fn view(&self) -> InternalView {
        InternalView {
            from: self.from,
            to: self.to,
            data: self.data@,
            timestamp: self.timestamp@,
            request_id: self.request_id,
        }
    }
}

impl Clone for InternalMessage {
    fn clone(&self) -> (r: Self)
        ensures
            r@ == self@,
    {
        InternalMessage {
            from: self.from,
            to: self.to,
            data: copy_bytes(&self.data),
            timestamp: self.timestamp,
            request_id: self.request_id,
        }
    }
}

/// The views of a sequence of messages.
pub open spec fn views(s: Seq<InternalMessage>) -> Seq<InternalView> {
    s.map_values(|m: InternalMessage| m@)
}

/// The reply a node with id `id` sends to `msg` when its handler answers `data`.
pub open spec fn reply_view(id: NodeId, msg: InternalView, data: Seq<u8>) -> InternalView {
    InternalView { from: id, to: msg.from, data, timestamp: msg.timestamp, request_id: msg.request_id }
}

/// The replies a node with id `id` sends for `msgs`, in order, when its
/// handler answers the i-th message with `answers[i]` (`None`: no reply).
pub open spec fn replies(id: NodeId, msgs: Seq<InternalView>, answers: Seq<Option<Seq<u8>>>) -> Seq<InternalView>
    decreases msgs.len(),
{
    if msgs.len() == 0 || answers.len() != msgs.len() {
        Seq::empty()
    } else {
        let before = replies(id, msgs.drop_last(), answers.drop_last());
        match answers.last() {
            Some(d) => before.push(reply_view(id, msgs.last(), d)),
            None => before,
        }
    }
}

/// The answers of `f` to a list of messages, in order.
pub open spec fn answers_of(f: AnswerFn, msgs: Seq<InternalView>) -> Seq<Option<Seq<u8>>> {
    msgs.map_values(|m: InternalView| f(m.from, m.data))
}

/// A request whose response a sender still waits for.
struct PendingRequest {
    response_tx: Sender<Vec<u8>>,
}

/// The sending half of a std channel.
#[verifier::external_type_specification]
#[verifier::external_body]
#[verifier::reject_recursive_types(T)]
pub struct ExSender<T>(Sender<T>);

/// Calls `Sender::send`. It fails when the receiving half is gone, which is
/// up to the waiting side: nothing is stated of the result.
#[verifier::external_body]
fn hand_over(tx: &Sender<Vec<u8>>, bytes: Vec<u8>) -> (r: bool) {
    tx.send(bytes).is_ok()
}

/// Calls `Box::new` and puts the box, made a trait object, in `slot`. The
/// boxed handler is the one given, so it answers as that handler does.
#[verifier::external_body]
fn install_handler<H: MessageHandler + 'static>(slot: &mut Option<Box<dyn MessageHandler>>, handler: H)
    ensures
        *final(slot) is Some,
        forall|f: NodeId, d: Seq<u8>| #[trigger] ((*final(slot))->0).answer(f, d) == handler.answer(f, d),
{
    *slot = Some(Box::new(handler));
}

/// A node as plain values.
#[verifier::ext_equal]
pub struct NodeView {
    pub id: NodeId,
    pub state: NodeState,
    pub inbox: Seq<InternalView>,
    pub outbox: Seq<InternalView>,
    pub tasks: Seq<TaskId>,
    pub pending: Set<u64>,
    pub next_request_id: u64,
    /// The answers of the handler, if one is set.
    pub handler: Option<AnswerFn>,
}

/// A simulated node in the cluster.
pub struct Node {
    id: NodeId,
    state: NodeState,
    inbox: VecDeque<InternalMessage>,
    outbox: VecDeque<InternalMessage>,
    handler: Option<Box<dyn MessageHandler>>,
    tasks: Vec<TaskHandle>,
    pending_requests: HashMap<u64, PendingRequest>,
    next_request_id: u64,
}

/// The ids of a list of task handles.
pub open spec fn task_ids(s: Seq<TaskHandle>) -> Seq<TaskId> {
    s.map_values(|t: TaskHandle| t.task_id())
}

impl View for Node {
    type V = NodeView;

    closed spec fn view(&self) -> NodeView {
        NodeView {
            id: self.id,
            state: self.state,
            inbox: views(self.inbox@),
            outbox: views(self.outbox@),
            tasks: task_ids(self.tasks@),
            pending: self.pending_requests@.dom(),
            next_request_id: self.next_request_id,
            handler: match &self.handler {
                Some(h) => Some(|from: NodeId, data: Seq<u8>| h.answer(from, data)),
                None => None,
            },
        }
    }
}

/// The message a running node puts in its outbox for `send_raw` and requests.
pub open spec fn outgoing(from: NodeId, to: NodeId, data: Seq<u8>, request_id: u64) -> InternalView {
    InternalView { from, to, data, timestamp: 0, request_id }
}

impl Node {
    /// Create a new node with the given ID: running, with empty queues.
    pub fn new(id: NodeId) -> (r: Self)
        ensures
            r@ == (NodeView {
                id,
                state: NodeState::Running,
                inbox: Seq::empty(),
                outbox: Seq::empty(),
                tasks: Seq::empty(),
                pending: Set::empty(),
                next_request_id: 0,
                handler: None,
            }),
    {
        let r = Node {
            id,
            state: NodeState::Running,
            inbox: VecDeque::new(),
            outbox: VecDeque::new(),
            handler: None,
            tasks: Vec::new(),
            pending_requests: HashMap::new(),
            next_request_id: 0,
        };
        proof {
            assert(views(r.inbox@) =~= Seq::empty());
            assert(views(r.outbox@) =~= Seq::empty());
            assert(task_ids(r.tasks@) =~= Seq::empty());
            assert(r.pending_requests@.dom() =~= Set::empty());
        }
        r
    }

    /// Get the node's ID.
    pub fn id(&self) -> (r: NodeId)
        ensures
            r == self@.id,
    {
        self.id
    }

    /// Get the node's current state.
    pub fn state(&self) -> (r: NodeState)
        ensures
            r == self@.state,
    {
        self.state
    }

    /// Check if the node is running.
    pub fn is_running(&self) -> (r: bool)
        ensures
            r == (self@.state == NodeState::Running),
    {
        self.state == NodeState::Running
    }

    /// Check if the node is crashed.
    pub fn is_crashed(&self) -> (r: bool)
        ensures
            r == (self@.state == NodeState::Crashed),
    {
        self.state == NodeState::Crashed
    }

    /// Check if the node is alive (running or paused).
    pub fn is_alive(&self) -> (r: bool)
        ensures
            r == (self@.state != NodeState::Crashed),
    {
        self.state != NodeState::Crashed
    }

    /// Set the message handler.
    pub fn set_handler<H: MessageHandler + 'static>(&mut self, handler: H)
        ensures
            final(self)@.handler is Some,
            forall|f: NodeId, d: Seq<u8>| #[trigger] (final(self)@.handler->0)(f, d) == handler.answer(f, d),
            final(self)@ == (NodeView { handler: final(self)@.handler, ..old(self)@ }),
    {
        install_handler(&mut self.handler, handler);
    }

    /// Records a task spawned on this node: the handle the simulation gave
    /// it, or, outside a simulation, a fresh handle numbered by the count of
    /// tasks so far. Returns the recorded handle.
    pub fn record_spawn(&mut self, spawned: Option<TaskHandle>) -> (r: TaskHandle)
        ensures
            spawned matches Some(h) ==> r.task_id() == h.task_id(),
            spawned is None ==> r.task_id() == old(self)@.tasks.len() as u32,
            final(self)@ == (NodeView { tasks: old(self)@.tasks.push(r.task_id()), ..old(self)@ }),
    {
        let handle = match spawned {
            Some(h) => h,
            None => TaskHandle::new(self.tasks.len() as u32),
        };
        let kept = handle.clone();
        self.tasks.push(kept);
        proof {
            assert(task_ids(self.tasks@) =~= old(self)@.tasks.push(handle.task_id()));
        }
        handle
    }

    /// Deliver a response to a pending request, which stops pending. Returns
    /// false where no such request is pending.
    pub fn deliver_response(&mut self, request_id: u64, response: Vec<u8>) -> (r: bool)
        ensures
            !old(self)@.pending.contains(request_id) ==> !r,
            final(self)@ == (NodeView { pending: old(self)@.pending.remove(request_id), ..old(self)@ }),
    {
        let removed = self.pending_requests.remove(&request_id);
        match removed {
            Some(pending) => hand_over(&pending.response_tx, response),
            None => false,
        }
    }

    /// Starts a request to `to` from a running node: the message goes to the
    /// outbox under a fresh request id, and `reply` waits for the response.
    /// A node that is not running sends nothing and returns `None`.
    pub fn register_request(&mut self, to: NodeId, data: Vec<u8>, reply: Sender<Vec<u8>>) -> (r: Option<u64>)
        requires
            old(self)@.next_request_id < u64::MAX,
        ensures
            old(self)@.state != NodeState::Running ==> r is None && final(self)@ == old(self)@,
            old(self)@.state == NodeState::Running ==> r == Some(old(self)@.next_request_id) && final(self)@ == (NodeView {
                outbox: old(self)@.outbox.push(outgoing(old(self)@.id, to, data@, old(self)@.next_request_id)),
                pending: old(self)@.pending.insert(old(self)@.next_request_id),
                next_request_id: (old(self)@.next_request_id + 1) as u64,
                ..old(self)@
            }),
    {
        if self.state != NodeState::Running {
            return None;
        }
        let request_id = self.next_request_id;
        self.send_raw(to, data);
        self.pending_requests.insert(request_id, PendingRequest { response_tx: reply });
        proof {
            assert(self.pending_requests@.dom() =~= old(self)@.pending.insert(request_id));
        }
        Some(request_id)
    }

    /// Stops waiting for the response to a request (its sender timed out).
    pub fn forget_request(&mut self, request_id: u64)
        ensures
            final(self)@ == (NodeView { pending: old(self)@.pending.remove(request_id), ..old(self)@ }),
    {
        let _ = self.pending_requests.remove(&request_id);
    }

    /// Send raw bytes to another node: a running node puts them in its
    /// outbox under a fresh request id; other nodes send nothing.
    pub fn send_raw(&mut self, to: NodeId, data: Vec<u8>)
        requires
            old(self)@.next_request_id < u64::MAX,
        ensures
            old(self)@.state != NodeState::Running ==> final(self)@ == old(self)@,
            old(self)@.state == NodeState::Running ==> final(self)@ == (NodeView {
                outbox: old(self)@.outbox.push(outgoing(old(self)@.id, to, data@, old(self)@.next_request_id)),
                next_request_id: (old(self)@.next_request_id + 1) as u64,
                ..old(self)@
            }),
    {
        if self.state != NodeState::Running {
            return;
        }
        let request_id = self.next_request_id;
        self.next_request_id = self.next_request_id + 1;
        let msg = InternalMessage { from: self.id, to, data, timestamp: Instant::from_nanos(0), request_id };
        self.outbox.push_back(msg);
        proof {
            assert(views(self.outbox@) =~= old(self)@.outbox.push(outgoing(self.id, to, data@, request_id)));
        }
    }

    /// Crash the node: its queues and pending requests are lost.
    pub fn crash(&mut self)
        ensures
            final(self)@ == (NodeView {
                state: NodeState::Crashed,
                inbox: Seq::empty(),
                outbox: Seq::empty(),
                pending: Set::empty(),
                ..old(self)@
            }),
    {
        self.state = NodeState::Crashed;
        self.inbox.clear();
        self.outbox.clear();
        self.pending_requests.clear();
        proof {
            assert(views(self.inbox@) =~= Seq::empty());
            assert(views(self.outbox@) =~= Seq::empty());
            assert(self.pending_requests@.dom() =~= Set::empty());
        }
    }

    /// Restart a crashed node; other nodes are unchanged.
    pub fn restart(&mut self)
        ensures
            old(self)@.state == NodeState::Crashed ==> final(self)@ == (NodeView { state: NodeState::Running, ..old(self)@ }),
            old(self)@.state != NodeState::Crashed ==> final(self)@ == old(self)@,
    {
        if self.state == NodeState::Crashed {
            self.state = NodeState::Running;
        }
    }

    /// Pause a running node; other nodes are unchanged.
    pub fn pause(&mut self)
        ensures
            old(self)@.state == NodeState::Running ==> final(self)@ == (NodeView { state: NodeState::Paused, ..old(self)@ }),
            old(self)@.state != NodeState::Running ==> final(self)@ == old(self)@,
    {
        if self.state == NodeState::Running {
            self.state = NodeState::Paused;
        }
    }

    /// Resume a paused node; other nodes are unchanged.
    pub fn resume(&mut self)
        ensures
            old(self)@.state == NodeState::Paused ==> final(self)@ == (NodeView { state: NodeState::Running, ..old(self)@ }),
            old(self)@.state != NodeState::Paused ==> final(self)@ == old(self)@,
    {
        if self.state == NodeState::Paused {
            self.state = NodeState::Running;
        }
    }

    /// Enqueue an internal message; only a running node accepts it.
    pub fn enqueue_internal(&mut self, msg: InternalMessage)
        ensures
            old(self)@.state == NodeState::Running ==> final(self)@ == (NodeView { inbox: old(self)@.inbox.push(msg@), ..old(self)@ }),
            old(self)@.state != NodeState::Running ==> final(self)@ == old(self)@,
    {
        if self.state == NodeState::Running {
            let ghost m = msg@;
            self.inbox.push_back(msg);
            proof {
                assert(views(self.inbox@) =~= old(self)@.inbox.push(m));
            }
        }
    }

    /// Enqueue a network message; only a running node accepts it. It arrives
    /// with request id 0 and its sending time as timestamp.
    pub fn enqueue(&mut self, msg: NetMessage)
        ensures
            old(self)@.state == NodeState::Running ==> final(self)@ == (NodeView {
                inbox: old(self)@.inbox.push(InternalView {
                    from: msg@.from,
                    to: msg@.to,
                    data: msg@.data,
                    timestamp: msg@.sent_at,
                    request_id: 0,
                }),
                ..old(self)@
            }),
            old(self)@.state != NodeState::Running ==> final(self)@ == old(self)@,
    {
        if self.state == NodeState::Running {
            let m = InternalMessage { from: msg.from, to: msg.to, data: msg.data, timestamp: msg.sent_at, request_id: 0 };
            self.enqueue_internal(m);
        }
    }

    /// Dequeue the oldest message of a running node's inbox.
    pub fn dequeue(&mut self) -> (r: Option<InternalMessage>)
        ensures
            old(self)@.state == NodeState::Running && old(self)@.inbox.len() > 0 ==> (r matches Some(m) && m@
                == old(self)@.inbox[0]) && final(self)@ == (NodeView { inbox: old(self)@.inbox.drop_first(), ..old(self)@ }),
            !(old(self)@.state == NodeState::Running && old(self)@.inbox.len() > 0) ==> r is None && final(self)@
                == old(self)@,
    {
        if self.state == NodeState::Running {
            let r = self.inbox.pop_front();
            proof {
                if old(self).inbox@.len() > 0 {
                    assert(views(self.inbox@) =~= old(self)@.inbox.drop_first());
                }
            }
            r
        } else {
            None
        }
    }

    /// Process the inbox of a running node with a handler: every message is
    /// taken out and, where the handler answers, the answer goes back to its
    /// sender through the outbox.
    pub fn process_messages(&mut self)
        ensures
            !(old(self)@.state == NodeState::Running && old(self)@.handler is Some) ==> final(self)@ == old(self)@,
            old(self)@.state == NodeState::Running && old(self)@.handler is Some ==> final(self)@ == (NodeView {
                inbox: Seq::empty(),
                outbox: old(self)@.outbox + replies(
                    old(self)@.id,
                    old(self)@.inbox,
                    answers_of(old(self)@.handler->0, old(self)@.inbox),
                ),
                ..old(self)@
            }),
    {
        if self.state != NodeState::Running {
            return;
        }
        let ghost inbox0 = old(self)@.inbox;
        let ghost outbox0 = old(self)@.outbox;
        let ghost mut answers: Seq<Option<Seq<u8>>> = Seq::empty();
        match &self.handler {
            None => {
                return;
            },
            Some(handler) => {
                let ghost f = old(self)@.handler->0;
                proof {
                    assert(answers =~= answers_of(f, inbox0.take(0)));
                }
                while self.inbox.len() > 0
                    invariant
                        answers.len() <= inbox0.len(),
                        f == old(self)@.handler->0,
                        old(self).handler == Some(*handler),
                        self.handler == old(self).handler,
                        inbox0 == old(self)@.inbox,
                        answers == answers_of(f, inbox0.take(answers.len() as int)),
                        views(self.inbox@) == inbox0.skip(answers.len() as int),
                        views(self.outbox@) == outbox0 + replies(self.id, inbox0.take(answers.len() as int), answers),
                        self.id == old(self).id,
                        self.state == old(self).state,
                        self.tasks == old(self).tasks,
                        self.pending_requests == old(self).pending_requests,
                        self.next_request_id == old(self).next_request_id,
                        self.handler is Some,
                    decreases self.inbox@.len(),
                {
                    let ghost k = answers.len() as int;
                    let ghost before = self.inbox@;
                    let popped = self.inbox.pop_front();
                    let msg = match popped {
                        Some(m) => m,
                        None => {
                            return;
                        },
                    };
                    proof {
                        assert(views(before).len() == before.len());
                        assert(k < inbox0.len());
                        assert(views(before)[0] == before[0]@);
                        assert(inbox0.skip(k)[0] == inbox0[k]);
                        assert(msg@ == inbox0[k]);
                        assert(self.inbox@ =~= before.drop_first());
                        assert(views(self.inbox@) =~= views(before).drop_first());
                        assert(views(self.inbox@) =~= inbox0.skip(k + 1));
                        assert(inbox0.take(k + 1).drop_last() =~= inbox0.take(k));
                    }
                    let answer = handler.handle(msg.from, msg.data.as_slice());
                    match answer {
                        Some(data) => {
                            let ghost d = data@;
                            let reply = InternalMessage {
                                from: self.id,
                                to: msg.from,
                                data,
                                timestamp: msg.timestamp,
                                request_id: msg.request_id,
                            };
                            let ghost ob = self.outbox@;
                            self.outbox.push_back(reply);
                            proof {
                                let prev = answers;
                                answers = answers.push(Some(d));
                                assert(answers.drop_last() =~= prev);
                                assert(answers =~= answers_of(f, inbox0.take(k + 1)));
                                assert(inbox0.take(k + 1).last() == inbox0[k]);
                                assert(replies(self.id, inbox0.take(k + 1), answers) == replies(self.id, inbox0.take(k), prev).push(
                                    reply_view(self.id, inbox0[k], d)));
                                assert(views(self.outbox@) =~= views(ob).push(reply_view(self.id, inbox0[k], d)));
                                assert(views(self.outbox@) =~= outbox0 + replies(self.id, inbox0.take(k + 1), answers));
                            }
                        },
                        None => {
                            proof {
                                let prev = answers;
                                answers = answers.push(None);
                                assert(answers.drop_last() =~= prev);
                                assert(answers =~= answers_of(f, inbox0.take(k + 1)));
                                assert(replies(self.id, inbox0.take(k + 1), answers) =~= replies(self.id, inbox0.take(k), prev));
                            }
                        },
                    }
                }
                proof {
                    assert(inbox0.take(answers.len() as int) =~= inbox0);
                    assert(answers == answers_of(f, inbox0));
                    assert(views(self.inbox@) =~= Seq::empty());
                    assert(self@ =~= (NodeView {
                        inbox: Seq::empty(),
                        outbox: outbox0 + replies(old(self)@.id, inbox0, answers),
                        ..old(self)@
                    }));
                }
            },
        }
    }

    /// Take all messages from the outbox, oldest first.
    pub fn drain_outbox(&mut self) -> (r: Vec<InternalMessage>)
        ensures
            views(r@) == old(self)@.outbox,
            final(self)@ == (NodeView { outbox: Seq::empty(), ..old(self)@ }),
    {
        let mut out: Vec<InternalMessage> = Vec::new();
        let ghost outbox0 = old(self)@.outbox;
        while self.outbox.len() > 0
            invariant
                views(out@) + views(self.outbox@) == outbox0,
                self.id == old(self).id,
                self.state == old(self).state,
                self.inbox == old(self).inbox,
                self.handler == old(self).handler,
                self.tasks == old(self).tasks,
                self.pending_requests == old(self).pending_requests,
                self.next_request_id == old(self).next_request_id,
            decreases self.outbox@.len(),
        {
            let ghost before_out = out@;
            let ghost before_box = self.outbox@;
            match self.outbox.pop_front() {
                Some(m) => {
                    out.push(m);
                    proof {
                        assert(views(out@) =~= views(before_out).push(views(before_box)[0]));
                        assert(views(self.outbox@) =~= views(before_box).drop_first());
                        assert(views(out@) + views(self.outbox@) =~= views(before_out) + views(before_box));
                    }
                },
                None => {},
            }
        }
        proof {
            assert(views(self.outbox@) =~= Seq::empty());
            assert(views(out@) =~= outbox0);
        }
        out
    }

    /// Check if the node has messages waiting in either queue.
    pub fn has_pending(&self) -> (r: bool)
        ensures
            r == (self@.inbox.len() > 0 || self@.outbox.len() > 0),
    {
        self.inbox.len() > 0 || self.outbox.len() > 0
    }

    /// Get the number of pending inbox messages.
    pub fn inbox_len(&self) -> (r: usize)
        ensures
            r == self@.inbox.len(),
    {
        self.inbox.len()
    }

    /// Get the number of pending outbox messages.
    pub fn outbox_len(&self) -> (r: usize)
        ensures
            r == self@.outbox.len(),
    {
        self.outbox.len()
    }

    /// Get the number of spawned tasks.
    pub fn task_count(&self) -> (r: usize)
        ensures
            r == self@.tasks.len(),
    {
        self.tasks.len()
    }

    /// The number of spawned tasks whose handles report completion. The
    /// completion flags are shared with the tasks, so only the bound is stated.
    pub fn completed_task_count(&self) -> (r: usize)
        ensures
            r <= self@.tasks.len(),
    {
        let mut count: usize = 0;
        let mut i: usize = 0;
        while i < self.tasks.len()
            invariant
                i <= self.tasks@.len(),
                count <= i,
            decreases self.tasks@.len() - i,
        {
            if self.tasks[i].is_complete() {
                count = count + 1;
            }
            i = i + 1;
        }
        count
    }
}

/// Simple byte message implementation.
#[derive(Debug)]
pub struct ByteMessage(pub Vec<u8>);

impl Clone for ByteMessage {
    fn clone(&self) -> (r: Self)
        ensures
            r.0@ == self.0@,
    {
        ByteMessage(copy_bytes(&self.0))
    }
}

impl Message for ByteMessage {
    type Response = ByteMessage;

    fn to_bytes(&self) -> (r: Vec<u8>)
        ensures
            r@ == self.0@,
    {
        copy_bytes(&self.0)
    }

    fn from_bytes(bytes: &[u8]) -> (r: Option<Self>)
        ensures
            r matches Some(m) && m.0@ == bytes@,
    {
        Some(ByteMessage(vstd::slice::slice_to_vec(bytes)))
    }
}

/// Echo handler that returns received messages.
pub struct EchoHandler;

impl MessageHandler for EchoHandler {
    open spec fn answer(&self, from: NodeId, data: Seq<u8>) -> Option<Seq<u8>> {
        Some(data)
    }

    fn handle(&self, from: NodeId, data: &[u8]) -> (r: Option<Vec<u8>>)
        ensures
            r matches Some(v) && v@ == data@,
    {
        Some(vstd::slice::slice_to_vec(data))
    }
}

} // verus!
