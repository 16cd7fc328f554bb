use std::collections::VecDeque;

use maelstrom_node::broadcast::{BroadcastHandler, BroadcastServer};
use maelstrom_node::node::Node;
use maelstrom_node::protocol::{Message, MessageBody, MessageType};
use maelstrom_node::server::{initialise, InitStep};

struct Member {
    node: Node,
    server: BroadcastServer,
    handler: BroadcastHandler,
}

fn member(id: &str, neighbours: &[&str]) -> Member {
    let mut node = Node::new();
    let mut body = MessageBody::bare(MessageType::init);
    body.msg_id = Some(1);
    body.node_id = Some(id.to_string());
    body.node_ids = Some(vec!["n1".to_string(), "n2".to_string(), "n3".to_string()]);
    let init = Message { src: "c0".to_string(), dest: id.to_string(), body };
    assert!(matches!(initialise(&mut node, &init), InitStep::Initialised(_)));
    let mut server = BroadcastServer::new();
    server.neighbours = neighbours.iter().map(|s| s.to_string()).collect();
    let mut handler = BroadcastHandler::new();
    handler.init(0);
    Member { node, server, handler }
}

fn index(id: &str) -> usize {
    match id {
        "n1" => 0,
        "n2" => 1,
        "n3" => 2,
        _ => panic!("not a member: {}", id),
    }
}

#[test]
fn broadcast_converges_on_a_line() {
    let mut members = vec![member("n1", &["n2"]), member("n2", &["n1", "n3"]), member("n3", &["n2"])];
    let mut network: VecDeque<Message> = VecDeque::new();
    let submissions = [("n1", "10"), ("n3", "\"x\""), ("n2", "[1]")];
    for (k, (to, value)) in submissions.iter().enumerate() {
        let mut body = MessageBody::bare(MessageType::broadcast);
        body.msg_id = Some(100 + k);
        body.message = Some(value.to_string());
        network.push_back(Message { src: "c1".to_string(), dest: to.to_string(), body });
    }
    let mut now: u64 = 1;
    for _ in 0..1000 {
        while let Some(m) = network.pop_front() {
            if m.dest.starts_with('c') {
                continue;
            }
            let Member { node, server, handler } = &mut members[index(&m.dest)];
            match m.body.message_type {
                MessageType::broadcast => {
                    for reply in handler.handle_request(server, node, &m, now) {
                        network.push_back(reply);
                    }
                }
                MessageType::broadcast_ok => server.handle_acknowledgement(&m),
                other => panic!("unexpected message type {:?}", other),
            }
        }
        now += 1;
        let mut idle = true;
        for member in members.iter_mut() {
            let sent = member.handler.engine.tick(now, &member.server.acknowledged_broadcasts);
            idle &= sent.is_empty() && member.handler.engine.pending.is_empty();
            network.extend(sent);
        }
        if idle && network.is_empty() {
            break;
        }
        now += 5000;
    }
    let mut expected = vec!["10".to_string(), "\"x\"".to_string(), "[1]".to_string()];
    expected.sort();
    for member in &members {
        let mut seen = member.server.messages.clone();
        seen.sort();
        assert_eq!(seen, expected);
    }
}
