use std::collections::HashSet;

use maelstrom_node::broadcast::{BroadcastHandler, BroadcastServer};
use maelstrom_node::echo::echo;
use maelstrom_node::gossip::MAX_ATTEMPTS;
use maelstrom_node::node::Node;
use maelstrom_node::protocol::{Message, MessageBody, MessageType};
use maelstrom_node::server::{initialise, route, InitStep, Route};

fn request(src: &str, dest: &str, message_type: MessageType, msg_id: Option<usize>) -> Message {
    let mut body = MessageBody::bare(message_type);
    body.msg_id = msg_id;
    Message { src: src.to_string(), dest: dest.to_string(), body }
}

fn init_request(msg_id: usize, node_id: &str, node_ids: &[&str]) -> Message {
    let mut m = request("c1", node_id, MessageType::init, Some(msg_id));
    m.body.node_id = Some(node_id.to_string());
    m.body.node_ids = Some(node_ids.iter().map(|s| s.to_string()).collect());
    m
}

fn initialised_node(node_ids: &[&str]) -> Node {
    let mut node = Node::new();
    match initialise(&mut node, &init_request(1, "n1", node_ids)) {
        InitStep::Initialised(_) => node,
        _ => panic!("init was not accepted"),
    }
}

/// A node with neighbours n2 and n3 that has handled one broadcast of 42
/// from c1 handled at time 2000.
struct Cluster {
    node: Node,
    server: BroadcastServer,
    handler: BroadcastHandler,
}

fn after_fan_out() -> (Cluster, Vec<Message>) {
    let mut node = initialised_node(&["n1", "n2", "n3"]);
    let mut server = BroadcastServer::new();
    let mut handler = BroadcastHandler::new();
    handler.init(1000);
    let mut topology = request("c1", "n1", MessageType::topology, Some(3));
    topology.body.topology = Some(vec![(
        "n1".to_string(),
        vec!["n2".to_string(), "n3".to_string()],
    )]);
    let ok = server.handle_topology(&node, &topology).ok().expect("topology accepted");
    let replies = ok.to_messages(&mut node, "c1", 3);
    assert_eq!(replies.len(), 1);
    assert_eq!(replies[0].body.message_type, MessageType::topology_ok);
    assert_eq!(replies[0].body.in_reply_to, Some(3));

    let mut broadcast = request("c1", "n1", MessageType::broadcast, Some(4));
    broadcast.body.message = Some("42".to_string());
    let replies = handler.handle_request(&mut server, &mut node, &broadcast, 2000);
    (Cluster { node, server, handler }, replies)
}

#[test]
fn init_then_echo() {
    let mut node = Node::new();
    let init = init_request(1, "n1", &["n1"]);
    let reply = match initialise(&mut node, &init) {
        InitStep::Initialised(m) => m,
        _ => panic!("init was not accepted"),
    };
    assert_eq!(reply.body.message_type, MessageType::init_ok);
    assert_eq!(reply.body.in_reply_to, Some(1));
    assert_eq!(reply.src, "n1");
    assert_eq!(reply.dest, "c1");

    let mut echo_request = request("c1", "n1", MessageType::echo, Some(2));
    echo_request.body.echo = Some("hi".to_string());
    let id = match route(&node, &echo_request, true) {
        Route::Handle(id) => id,
        _ => panic!("echo was not dispatched"),
    };
    assert_eq!(id, 2);
    let response = echo(&node, &echo_request).ok().expect("echo accepted");
    let replies = response.to_messages(&mut node, "c1", id);
    assert_eq!(replies.len(), 1);
    assert_eq!(replies[0].body.message_type, MessageType::echo_ok);
    assert_eq!(replies[0].body.in_reply_to, Some(2));
    assert_eq!(replies[0].body.echo.as_deref(), Some("hi"));
    assert_eq!(replies[0].src, "n1");
}

#[test]
fn topology_then_broadcast_fan_out() {
    let (mut cluster, replies) = after_fan_out();
    assert_eq!(replies.len(), 1);
    assert_eq!(replies[0].body.message_type, MessageType::broadcast_ok);
    assert_eq!(replies[0].dest, "c1");
    assert_eq!(replies[0].body.in_reply_to, Some(4));

    let sent = cluster.handler.engine.tick(2000, &cluster.server.acknowledged_broadcasts);
    assert_eq!(sent.len(), 2);
    let dests: Vec<&str> = sent.iter().map(|m| m.dest.as_str()).collect();
    assert_eq!(dests, vec!["n2", "n3"]);
    for m in &sent {
        assert_eq!(m.body.message_type, MessageType::broadcast);
        assert_eq!(m.body.message.as_deref(), Some("42"));
        assert_eq!(m.src, "n1");
        assert_eq!(m.body.in_reply_to, None);
    }
    let ids: HashSet<usize> = sent.iter().map(|m| m.body.msg_id.unwrap()).collect();
    assert_eq!(ids.len(), 2);
    assert!(!ids.contains(&replies[0].body.msg_id.unwrap()));
    assert!(cluster.node.next_message_id > *ids.iter().max().unwrap());
}

#[test]
fn duplicate_broadcast_suppression() {
    let (mut cluster, _) = after_fan_out();
    let pending_before = cluster.handler.engine.pending.len();
    let mut again = request("n2", "n1", MessageType::broadcast, Some(7));
    again.body.message = Some("42".to_string());
    let replies = cluster.handler.handle_request(&mut cluster.server, &mut cluster.node, &again, 2500);
    assert_eq!(replies.len(), 1);
    assert_eq!(replies[0].body.message_type, MessageType::broadcast_ok);
    assert_eq!(replies[0].dest, "n2");
    assert_eq!(replies[0].body.in_reply_to, Some(7));
    assert_eq!(cluster.handler.engine.pending.len(), pending_before);
    assert_eq!(cluster.server.messages, vec!["42".to_string()]);
}

#[test]
fn ack_retires_retransmission() {
    let (mut cluster, _) = after_fan_out();
    let first = cluster.handler.engine.tick(2000, &cluster.server.acknowledged_broadcasts);
    let to_n2 = first.iter().find(|m| m.dest == "n2").unwrap().body.msg_id.unwrap();
    let to_n3 = first.iter().find(|m| m.dest == "n3").unwrap().body.msg_id.unwrap();

    let mut ack = request("n2", "n1", MessageType::broadcast_ok, Some(1));
    ack.body.in_reply_to = Some(to_n2);
    cluster.server.handle_acknowledgement(&ack);

    let mut now = 2000;
    let mut resent_to_n3 = 0;
    for _ in 0..40 {
        now += 1_000_000;
        let sent = cluster.handler.engine.tick(now, &cluster.server.acknowledged_broadcasts);
        assert!(sent.iter().all(|m| m.body.msg_id != Some(to_n2)));
        resent_to_n3 += sent.iter().filter(|m| m.body.msg_id == Some(to_n3)).count();
    }
    assert!(resent_to_n3 > 0);
}

#[test]
fn retry_cap() {
    let (mut cluster, _) = after_fan_out();
    let none = HashSet::new();
    let mut now: u64 = 2000;
    let mut times: Vec<u64> = Vec::new();
    let mut target = None;
    loop {
        let sent = cluster.handler.engine.tick(now, &none);
        for m in &sent {
            if m.dest == "n2" {
                target.get_or_insert(m.body.msg_id.unwrap());
                assert_eq!(Some(m.body.msg_id.unwrap()), target);
                times.push(now);
            }
        }
        match cluster.handler.engine.next_wake() {
            Some(t) => now = t.max(now),
            None => break,
        }
        if times.len() > 40 {
            break;
        }
    }
    assert_eq!(times.len() as u32, MAX_ATTEMPTS + 1);
    for k in 1..times.len() {
        let gap = times[k] - times[k - 1];
        assert!(gap >= (1u64 << (k - 1)) * 2 * 1000);
    }
    assert!(cluster.handler.engine.pending.is_empty());
}

#[test]
fn second_init_rejected() {
    let node = initialised_node(&["n1"]);
    let second = init_request(9, "n1", &["n1"]);
    match route(&node, &second, true) {
        Route::Reply(m) => {
            assert_eq!(m.body.message_type, MessageType::error);
            assert_eq!(m.body.code, Some(22));
            assert_eq!(m.body.in_reply_to, Some(9));
            assert_eq!(m.body.msg_id, None);
        }
        _ => panic!("a second init must be answered with an error"),
    }
}
