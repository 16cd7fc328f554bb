use maelstrom_node::broadcast::{Broadcast, BroadcastHandler, BroadcastServer};
use maelstrom_node::node::{AppError, Node};
use maelstrom_node::protocol::{Message, MessageBody, MessageType};
use maelstrom_node::server::{initialise, InitStep};

fn request(src: &str, message_type: MessageType, msg_id: Option<usize>) -> Message {
    let mut body = MessageBody::bare(message_type);
    body.msg_id = msg_id;
    Message { src: src.to_string(), dest: "n1".to_string(), body }
}

fn node() -> Node {
    let mut node = Node::new();
    let mut init = request("c1", MessageType::init, Some(1));
    init.body.node_id = Some("n1".to_string());
    init.body.node_ids = Some(vec!["n1".to_string(), "n2".to_string(), "n3".to_string()]);
    assert!(matches!(initialise(&mut node, &init), InitStep::Initialised(_)));
    node
}

fn broadcast(src: &str, msg_id: usize, value: &str) -> Message {
    let mut m = request(src, MessageType::broadcast, Some(msg_id));
    m.body.message = Some(value.to_string());
    m
}

fn with_neighbours(neighbours: &[&str]) -> BroadcastServer {
    let mut server = BroadcastServer::new();
    server.neighbours = neighbours.iter().map(|s| s.to_string()).collect();
    server
}

#[test]
fn topology_without_entry_means_no_neighbours() {
    let node = node();
    let mut server = with_neighbours(&["n2"]);
    let mut topology = request("c1", MessageType::topology, Some(2));
    topology.body.topology = Some(vec![("n2".to_string(), vec!["n1".to_string()])]);
    assert!(server.handle_topology(&node, &topology).is_ok());
    assert!(server.neighbours.is_empty());
}

#[test]
fn topology_picks_this_nodes_entry() {
    let node = node();
    let mut server = BroadcastServer::new();
    let mut topology = request("c1", MessageType::topology, Some(2));
    topology.body.topology = Some(vec![
        ("n2".to_string(), vec!["n1".to_string()]),
        ("n1".to_string(), vec!["n3".to_string(), "n2".to_string()]),
    ]);
    assert!(server.handle_topology(&node, &topology).is_ok());
    assert_eq!(server.neighbours, vec!["n3".to_string(), "n2".to_string()]);
}

#[test]
fn topology_missing_field() {
    let node = node();
    let mut server = with_neighbours(&["n2"]);
    let topology = request("c1", MessageType::topology, Some(2));
    match server.handle_topology(&node, &topology) {
        Err(AppError::MissingField(path)) => assert_eq!(path, "body.topology"),
        _ => panic!("a topology without the map must fail"),
    }
    assert_eq!(server.neighbours, vec!["n2".to_string()]);
}

#[test]
fn broadcast_missing_value() {
    let mut node = node();
    let mut server = with_neighbours(&["n2"]);
    let mut handler = BroadcastHandler::new();
    handler.init(0);
    let counter = node.next_message_id;
    let replies = handler.handle_request(&mut server, &mut node, &request("c1", MessageType::broadcast, Some(5)), 10);
    assert_eq!(replies.len(), 1);
    assert_eq!(replies[0].body.code, Some(12));
    assert_eq!(replies[0].body.in_reply_to, Some(5));
    assert_eq!(replies[0].body.text.as_deref(), Some("body.message"));
    assert!(server.messages.is_empty());
    assert!(handler.engine.pending.is_empty());
    assert_eq!(node.next_message_id, counter);
}

#[test]
fn broadcast_skips_the_sender() {
    let mut node = node();
    let mut server = with_neighbours(&["n2", "n3"]);
    let mut handler = BroadcastHandler::new();
    handler.init(0);
    let replies = handler.handle_request(&mut server, &mut node, &broadcast("n2", 5, "{\"k\": 1}"), 10);
    assert_eq!(replies[0].body.message_type, MessageType::broadcast_ok);
    assert_eq!(replies[0].dest, "n2");
    assert_eq!(handler.engine.pending.len(), 1);
    let queued = &handler.engine.pending[0];
    assert_eq!(queued.broadcast.dest, "n3");
    assert_eq!(queued.broadcast.body.message.as_deref(), Some("{\"k\": 1}"));
    assert_eq!(queued.attempts, 0);
    assert_eq!(queued.due, 10);
}

#[test]
fn reads_only_grow() {
    let mut node = node();
    let mut server = with_neighbours(&[]);
    let mut handler = BroadcastHandler::new();
    handler.init(0);
    let first = server.handle_read();
    assert!(first.messages.is_empty());
    handler.handle_request(&mut server, &mut node, &broadcast("c1", 2, "1"), 10);
    let second = server.handle_read();
    handler.handle_request(&mut server, &mut node, &broadcast("c1", 3, "2"), 11);
    handler.handle_request(&mut server, &mut node, &broadcast("c1", 4, "1"), 12);
    let third = server.handle_read();
    assert!(first.messages.iter().all(|v| second.messages.contains(v)));
    assert!(second.messages.iter().all(|v| third.messages.contains(v)));
    assert_eq!(third.messages, vec!["1".to_string(), "2".to_string()]);
    let replies = third.to_messages(&mut node, "c1", 5);
    assert_eq!(replies[0].body.message_type, MessageType::read_ok);
    assert_eq!(replies[0].body.messages, Some(vec!["1".to_string(), "2".to_string()]));
    assert_eq!(replies[0].body.in_reply_to, Some(5));
}

#[test]
fn payloads_compare_by_exact_text() {
    let mut node = node();
    let mut server = with_neighbours(&[]);
    let mut handler = BroadcastHandler::new();
    handler.init(0);
    handler.handle_request(&mut server, &mut node, &broadcast("c1", 2, "1.0"), 10);
    handler.handle_request(&mut server, &mut node, &broadcast("c1", 3, "1"), 10);
    assert_eq!(server.messages, vec!["1.0".to_string(), "1".to_string()]);
    assert!(server.has_seen(&"1".to_string()));
    assert!(!server.has_seen(&"2".to_string()));
}

#[test]
fn acknowledgement_records_in_reply_to() {
    let mut server = BroadcastServer::new();
    let mut ack = request("n2", MessageType::broadcast_ok, Some(8));
    ack.body.in_reply_to = Some(3);
    server.handle_acknowledgement(&ack);
    assert!(server.acknowledged_broadcasts.contains(&3));
    assert!(!server.acknowledged_broadcasts.contains(&8));
    let bare = request("n2", MessageType::broadcast_ok, Some(9));
    server.handle_acknowledgement(&bare);
    assert_eq!(server.acknowledged_broadcasts.len(), 1);
}

#[test]
fn broadcast_message_has_a_fresh_id() {
    let mut node = node();
    let before = node.next_message_id;
    let target = Broadcast { node: "n2".to_string(), message: "[1,2]".to_string() };
    let m = target.to_message(&mut node);
    assert_eq!(m.body.msg_id, Some(before));
    assert_eq!(m.body.in_reply_to, None);
    assert_eq!(m.dest, "n2");
    assert_eq!(m.src, "n1");
    assert_eq!(m.body.message.as_deref(), Some("[1,2]"));
    assert_eq!(node.next_message_id, before + 1);
}
