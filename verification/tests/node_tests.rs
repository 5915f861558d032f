use chronos::cluster::node::{ByteMessage, EchoHandler, InternalMessage, Message, MessageHandler, Node, NodeState};
use chronos::network::Message as NetMessage;
use chronos::time::Instant;
use chronos::NodeId;
use std::sync::mpsc;

fn test_message(from: NodeId, to: NodeId) -> NetMessage {
    NetMessage::with_id(0, from, to, vec![1, 2, 3], Instant::from_nanos(0))
}

#[test]
fn test_node_new() {
    let node = Node::new(1);
    assert_eq!(node.id(), 1);
    assert_eq!(node.state(), NodeState::Running);
    assert!(node.is_running());
    assert!(node.is_alive());
}

#[test]
fn test_node_crash() {
    let mut node = Node::new(1);
    node.enqueue(test_message(0, 1));

    node.crash();

    assert!(node.is_crashed());
    assert!(!node.is_alive());
    assert_eq!(node.inbox_len(), 0);
}

#[test]
fn test_node_restart() {
    let mut node = Node::new(1);
    node.crash();
    node.restart();

    assert!(node.is_running());
}

#[test]
fn test_node_pause_resume() {
    let mut node = Node::new(1);

    node.pause();
    assert_eq!(node.state(), NodeState::Paused);
    assert!(node.is_alive());

    node.resume();
    assert!(node.is_running());
}

#[test]
fn test_node_enqueue_dequeue() {
    let mut node = Node::new(1);
    let msg = test_message(0, 1);

    node.enqueue(msg.clone());
    assert_eq!(node.inbox_len(), 1);

    let received = node.dequeue().unwrap();
    assert_eq!(received.from, msg.from);
    assert_eq!(node.inbox_len(), 0);
}

#[test]
fn test_crashed_node_drops_messages() {
    let mut node = Node::new(1);
    node.crash();

    node.enqueue(test_message(0, 1));
    assert_eq!(node.inbox_len(), 0);

    assert!(node.dequeue().is_none());
}

#[test]
fn test_node_send_raw() {
    let mut node = Node::new(1);

    node.send_raw(2, vec![1, 2, 3]);
    node.send_raw(3, vec![4, 5, 6]);

    assert_eq!(node.outbox_len(), 2);

    let messages = node.drain_outbox();
    assert_eq!(messages.len(), 2);
    assert_eq!(node.outbox_len(), 0);
}

#[test]
fn test_crashed_node_no_send() {
    let mut node = Node::new(1);
    node.crash();

    node.send_raw(2, vec![1, 2, 3]);
    assert_eq!(node.outbox_len(), 0);
}

#[test]
fn test_echo_handler() {
    let mut node = Node::new(1);
    node.set_handler(EchoHandler);

    node.enqueue_internal(InternalMessage {
        from: 2,
        to: 1,
        data: vec![1, 2, 3],
        timestamp: Instant::from_nanos(0),
        request_id: 1,
    });

    node.process_messages();

    assert_eq!(node.outbox_len(), 1);
    let response = node.drain_outbox().pop().unwrap();
    assert_eq!(response.data, vec![1, 2, 3]);
    assert_eq!(response.to, 2);
}

#[test]
fn test_node_spawn() {
    let mut node = Node::new(1);

    let _handle = node.record_spawn(None);

    assert_eq!(node.task_count(), 1);
}

#[test]
fn placeholder_handles_are_numbered_by_task_count() {
    let mut node = Node::new(4);
    let first = node.record_spawn(None);
    let second = node.record_spawn(None);
    assert_eq!(first.id(), 0);
    assert_eq!(second.id(), 1);
    assert_eq!(node.completed_task_count(), 0);
    first.mark_complete();
    assert_eq!(node.completed_task_count(), 1);
}

#[test]
fn send_raw_stamps_sender_and_fresh_request_ids() {
    let mut node = Node::new(7);
    node.send_raw(2, vec![9]);
    node.send_raw(3, vec![8]);
    let out = node.drain_outbox();
    assert_eq!((out[0].from, out[0].to, out[0].request_id, out[0].data.clone()), (7, 2, 0, vec![9]));
    assert_eq!((out[1].from, out[1].to, out[1].request_id, out[1].data.clone()), (7, 3, 1, vec![8]));
    assert_eq!(out[1].timestamp.as_nanos(), 0);
}

#[test]
fn paused_node_keeps_queues_but_refuses_work() {
    let mut node = Node::new(1);
    node.enqueue(test_message(0, 1));
    node.pause();
    node.enqueue(test_message(0, 1));
    assert_eq!(node.inbox_len(), 1);
    assert!(node.dequeue().is_none());
    assert!(node.has_pending());
    node.resume();
    assert!(node.dequeue().is_some());
    assert!(!node.has_pending());
}

#[test]
fn restart_and_resume_only_act_on_their_state() {
    let mut node = Node::new(1);
    node.restart();
    assert_eq!(node.state(), NodeState::Running);
    node.pause();
    node.restart();
    assert_eq!(node.state(), NodeState::Paused);
    node.crash();
    node.resume();
    node.pause();
    assert_eq!(node.state(), NodeState::Crashed);
}

#[test]
fn process_without_handler_keeps_inbox() {
    let mut node = Node::new(1);
    node.enqueue(test_message(0, 1));
    node.process_messages();
    assert_eq!(node.inbox_len(), 1);
    assert_eq!(node.outbox_len(), 0);
}

struct Silent;

impl MessageHandler for Silent {
    fn handle(&self, _from: NodeId, _data: &[u8]) -> Option<Vec<u8>> {
        None
    }
}

#[test]
fn handler_without_answer_empties_inbox_only() {
    let mut node = Node::new(1);
    node.set_handler(Silent);
    node.enqueue(test_message(0, 1));
    node.enqueue(test_message(5, 1));
    node.process_messages();
    assert_eq!(node.inbox_len(), 0);
    assert_eq!(node.outbox_len(), 0);
}

#[test]
fn echo_replies_keep_order_and_request_ids() {
    let mut node = Node::new(1);
    node.set_handler(EchoHandler);
    for (from, id) in [(2u32, 10u64), (3, 11)] {
        node.enqueue_internal(InternalMessage {
            from,
            to: 1,
            data: vec![from as u8],
            timestamp: Instant::from_nanos(55),
            request_id: id,
        });
    }
    node.process_messages();
    let out = node.drain_outbox();
    assert_eq!(out.len(), 2);
    assert_eq!((out[0].to, out[0].request_id, out[0].data.clone()), (2, 10, vec![2]));
    assert_eq!((out[1].to, out[1].request_id, out[1].timestamp.as_nanos()), (3, 11, 55));
}

#[test]
fn responses_reach_the_waiting_side_once() {
    let mut node = Node::new(1);
    let (tx, rx) = mpsc::channel();
    let id = node.register_request(2, vec![1], tx).unwrap();
    assert_eq!(node.outbox_len(), 1);
    assert!(node.deliver_response(id, vec![42]));
    assert_eq!(rx.try_recv().unwrap(), vec![42]);
    assert!(!node.deliver_response(id, vec![43]));
}

#[test]
fn crashed_node_starts_no_request() {
    let mut node = Node::new(1);
    node.crash();
    let (tx, _rx) = mpsc::channel();
    assert_eq!(node.register_request(2, vec![1], tx), None);
    assert_eq!(node.outbox_len(), 0);
}

#[test]
fn forgotten_request_gets_no_response() {
    let mut node = Node::new(1);
    let (tx, _rx) = mpsc::channel();
    let id = node.register_request(2, vec![1], tx).unwrap();
    node.forget_request(id);
    assert!(!node.deliver_response(id, vec![1]));
}

#[test]
fn byte_message_round_trips() {
    let m = ByteMessage(vec![1, 2, 3]);
    let bytes = m.to_bytes();
    assert_eq!(bytes, vec![1, 2, 3]);
    let back = ByteMessage::from_bytes(&bytes).unwrap();
    assert_eq!(back.0, vec![1, 2, 3]);
}
