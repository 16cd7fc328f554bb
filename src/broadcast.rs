use std::collections::HashSet;

use vstd::prelude::*;

use crate::gossip::{GossipEngine, PendingView};
use crate::node::{AppError, Node};
use crate::protocol::{
    bare_body, copy_strings, reply_body, BodyView, Message, MessageBody, MessageType, MessageView,
};

verus! {

broadcast use vstd::std_specs::hash::group_hash_axioms;

/// The state shared by the broadcast workload's handlers.
pub struct BroadcastServer {
    /// The neighbours named for this node by the latest topology.
    pub neighbours: Vec<String>,
    /// The JSON texts of every value seen so far, each once, in the order of arrival.
    pub messages: Vec<String>,
    /// The identifiers of outbound broadcasts that a neighbour acknowledged.
    pub acknowledged_broadcasts: HashSet<usize>,
}

impl BroadcastServer {
    /// The set of values seen so far.
    pub open spec fn seen(&self) -> Set<Seq<char>> {
        self.messages.deep_view().to_set()
    }

    /// Each value is recorded once.
    pub open spec fn wf(&self) -> bool {
        self.messages.deep_view().no_duplicates()
    }

    /// Nothing seen earlier is missing now, and no acknowledgement is lost.
    pub open spec fn grows_from(&self, earlier: &BroadcastServer) -> bool {
        &&& earlier.seen().subset_of(self.seen())
        &&& earlier.acknowledged_broadcasts@.subset_of(self.acknowledged_broadcasts@)
    }

    /// A server with no neighbours, no values and no acknowledgements.
    pub fn new() -> (r: BroadcastServer)
        ensures
            r.wf(),
            r.neighbours@.len() == 0,
            r.messages@.len() == 0,
            r.acknowledged_broadcasts@ == Set::<usize>::empty(),
    {
        BroadcastServer {
            neighbours: Vec::new(),
            messages: Vec::new(),
            acknowledged_broadcasts: HashSet::new(),
        }
    }

    /// Whether the value with this JSON text has been seen.
    pub fn has_seen(&self, text: &String) -> (r: bool)
        ensures
            r == self.seen().contains(text@),
    {
        let mut i: usize = 0;
        while i < self.messages.len()
            invariant
                i <= self.messages@.len(),
                forall|k: int| 0 <= k < i ==> self.messages@[k]@ != text@,
            decreases self.messages@.len() - i,
        {
            if self.messages[i] == *text {
                assert(self.messages.deep_view()[i as int] == text@);
                return true;
            }
            i = i + 1;
        }
        assert(!self.messages.deep_view().contains(text@));
        false
    }

    /// Records an acknowledgement: the request's `in_reply_to` names the
    /// outbound broadcast that the sender received. A request without one
    /// acknowledges nothing.
    pub fn handle_acknowledgement(&mut self, request: &Message)
        ensures
            final(self).neighbours == old(self).neighbours,
            final(self).messages == old(self).messages,
            final(self).acknowledged_broadcasts@ == match request.body.in_reply_to {
                Some(m) => old(self).acknowledged_broadcasts@.insert(m),
                None => old(self).acknowledged_broadcasts@,
            },
            final(self).grows_from(old(self)),
    {
        if let Some(m) = request.body.in_reply_to {
            self.acknowledged_broadcasts.insert(m);
        }
    }
}

/// Growth is transitive: what was seen or acknowledged at any earlier point
/// of a run is still seen or acknowledged.
pub proof fn lemma_grows_transitive(a: &BroadcastServer, b: &BroadcastServer, c: &BroadcastServer)
    requires
        b.grows_from(a),
        c.grows_from(b),
    ensures
        c.grows_from(a),
{
}

/// Read monotonicity: a later read lists every value an earlier read listed.
pub proof fn lemma_read_monotonic(earlier: &BroadcastServer, later: &BroadcastServer, v: Seq<char>)
    requires
        later.grows_from(earlier),
        earlier.messages.deep_view().contains(v),
    ensures
        later.messages.deep_view().contains(v),
{
    assert(earlier.seen().contains(v));
    assert(later.seen().contains(v));
}

/// The neighbours listed for `node_id` by the first entry that names it, or
/// none when no entry does.
pub open spec fn neighbours_in(topology: Seq<(Seq<char>, Seq<Seq<char>>)>, node_id: Seq<char>) -> Seq<
    Seq<char>,
>
    decreases topology.len(),
{
    if topology.len() == 0 {
        Seq::empty()
    } else if topology[0].0 == node_id {
        topology[0].1
    } else {
        neighbours_in(topology.drop_first(), node_id)
    }
}

/// The neighbours to tell of a new value: all but the one it came from.
pub open spec fn gossip_targets(neighbours: Seq<Seq<char>>, caller: Seq<char>) -> Seq<Seq<char>>
    decreases neighbours.len(),
{
    if neighbours.len() == 0 {
        Seq::empty()
    } else {
        let rest = gossip_targets(neighbours.drop_last(), caller);
        if neighbours.last() != caller {
            rest.push(neighbours.last())
        } else {
            rest
        }
    }
}

/// An outbound broadcast of the value with JSON text `payload`.
pub open spec fn broadcast_body(msg_id: usize, payload: Seq<char>) -> BodyView {
    BodyView { msg_id: Some(msg_id), message: Some(payload), ..bare_body(MessageType::broadcast) }
}

/// The entries queued when a new value is told to `targets`, with message
/// identifiers drawn in order from `first_id`.
pub open spec fn fanout(
    targets: Seq<Seq<char>>,
    src: Seq<char>,
    first_id: int,
    payload: Seq<char>,
    now: u64,
) -> Seq<PendingView> {
    Seq::new(
        targets.len(),
        |k: int|
            PendingView {
                broadcast: MessageView {
                    src,
                    dest: targets[k],
                    body: broadcast_body((first_id + k) as usize, payload),
                },
                attempts: 0,
                due: now,
            },
    )
}

/// A value to be told to one neighbour.
pub struct Broadcast {
    /// The neighbour.
    pub node: String,
    /// The JSON text of the value.
    pub message: String,
}

impl Broadcast {
    /// The outbound message, with a fresh message identifier.
    pub fn to_message(&self, node: &mut Node) -> (r: Message)
        requires
            old(node).next_message_id < usize::MAX,
        ensures
            r@ == (MessageView {
                src: old(node).node_id@,
                dest: self.node@,
                body: broadcast_body(old(node).next_message_id, self.message@),
            }),
            final(node).next_message_id == old(node).next_message_id + 1,
            final(node).node_id == old(node).node_id,
            final(node).node_ids == old(node).node_ids,
            final(node).initialized == old(node).initialized,
    {
        let mut body = MessageBody::bare(MessageType::broadcast);
        body.msg_id = Some(node.get_and_increment_message_id());
        body.message = Some(self.message.clone());
        Message { src: node.node_id.clone(), dest: self.node.clone(), body }
    }
}

/// The neighbours of `node_id` in a topology.
fn lookup_neighbours(topology: &Vec<(String, Vec<String>)>, node_id: &String) -> (r: Vec<String>)
    ensures
        r.deep_view() == neighbours_in(topology.deep_view(), node_id@),
{
    let ghost t = topology.deep_view();
    assert(t.subrange(0, t.len() as int) =~= t);
    let mut i: usize = 0;
    while i < topology.len()
        invariant
            i <= t.len(),
            t == topology.deep_view(),
            neighbours_in(t, node_id@) == neighbours_in(t.subrange(i as int, t.len() as int), node_id@),
        decreases t.len() - i,
    {
        let ghost rest = t.subrange(i as int, t.len() as int);
        assert(rest[0] == t[i as int]);
        assert(rest.drop_first() =~= t.subrange(i as int + 1, t.len() as int));
        if topology[i].0 == *node_id {
            return copy_strings(&topology[i].1);
        }
        i = i + 1;
    }
    assert(t.subrange(i as int, t.len() as int).len() == 0);
    Vec::new()
}

/// Filtering never lengthens the list of neighbours.
proof fn lemma_targets_len(neighbours: Seq<Seq<char>>, caller: Seq<char>)
    ensures
        gossip_targets(neighbours, caller).len() <= neighbours.len(),
    decreases neighbours.len(),
{
    if neighbours.len() > 0 {
        lemma_targets_len(neighbours.drop_last(), caller);
    }
}

/// The acknowledgement of a topology.
pub struct TopologyOk;

impl TopologyOk {
    /// One `topology_ok` reply to the caller, with a fresh message identifier.
    pub fn to_messages(&self, node: &mut Node, caller: &str, in_reply_to: usize) -> (r: Vec<Message>)
        requires
            old(node).next_message_id < usize::MAX,
        ensures
            r@.len() == 1,
            r@[0]@ == (MessageView {
                src: old(node).node_id@,
                dest: caller@,
                body: reply_body(MessageType::topology_ok, old(node).next_message_id, in_reply_to),
            }),
            final(node).next_message_id == old(node).next_message_id + 1,
            final(node).node_id == old(node).node_id,
            final(node).node_ids == old(node).node_ids,
            final(node).initialized == old(node).initialized,
    {
        let id = node.get_and_increment_message_id();
        let reply = Message::reply(node.node_id.as_str(), caller, MessageType::topology_ok, id, in_reply_to);
        vec![reply]
    }
}

/// The values present on a node, as their JSON texts.
pub struct ReadOk {
    pub messages: Vec<String>,
}

/// A `read_ok` reply listing the JSON texts `messages`.
pub open spec fn read_ok_body(msg_id: usize, in_reply_to: usize, messages: Seq<Seq<char>>) -> BodyView {
    BodyView { messages: Some(messages), ..reply_body(MessageType::read_ok, msg_id, in_reply_to) }
}

impl ReadOk {
    /// One `read_ok` reply to the caller, with a fresh message identifier.
    pub fn to_messages(&self, node: &mut Node, caller: &str, in_reply_to: usize) -> (r: Vec<Message>)
        requires
            old(node).next_message_id < usize::MAX,
        ensures
            r@.len() == 1,
            r@[0]@ == (MessageView {
                src: old(node).node_id@,
                dest: caller@,
                body: read_ok_body(old(node).next_message_id, in_reply_to, self.messages.deep_view()),
            }),
            final(node).next_message_id == old(node).next_message_id + 1,
            final(node).node_id == old(node).node_id,
            final(node).node_ids == old(node).node_ids,
            final(node).initialized == old(node).initialized,
    {
        let id = node.get_and_increment_message_id();
        let mut reply = Message::reply(node.node_id.as_str(), caller, MessageType::read_ok, id, in_reply_to);
        reply.body.messages = Some(copy_strings(&self.messages));
        vec![reply]
    }
}

impl BroadcastServer {
    /// Replaces the neighbours with those the request's topology lists for
    /// this node (none when it lists none).
    pub fn handle_topology(&mut self, node: &Node, request: &Message) -> (r: Result<TopologyOk, AppError>)
        ensures
            request.body.topology is None ==> (r matches Err(AppError::MissingField(path))
                && path@ == "body.topology"@) && final(self).neighbours == old(self).neighbours,
            request.body.topology matches Some(t) ==> r is Ok && final(self).neighbours.deep_view()
                == neighbours_in(t.deep_view(), node.node_id@),
            final(self).messages == old(self).messages,
            final(self).acknowledged_broadcasts == old(self).acknowledged_broadcasts,
            final(self).grows_from(old(self)),
    {
        match &request.body.topology {
            None => Err(AppError::MissingField("body.topology".to_owned())),
            Some(topology) => {
                self.neighbours = lookup_neighbours(topology, &node.node_id);
                Ok(TopologyOk)
            },
        }
    }

    /// A snapshot of every value seen so far.
    pub fn handle_read(&self) -> (r: ReadOk)
        ensures
            r.messages.deep_view() == self.messages.deep_view(),
    {
        ReadOk { messages: copy_strings(&self.messages) }
    }
}

/// The broadcast workload's module: it records new values, tells the
/// neighbours through the gossip engine and acknowledges the request.
pub struct BroadcastHandler {
    pub engine: GossipEngine,
}

impl BroadcastHandler {
    /// The engine is well formed and every identifier it has queued was drawn
    /// from the node's counter, so identifiers drawn later are fresh.
    pub open spec fn wf(&self, node: &Node) -> bool {
        &&& self.engine.wf()
        &&& forall|m: usize| #[trigger]
            self.engine.transmissions@.contains_key(m) ==> m < node.next_message_id
    }

    /// A handler whose engine has not been started.
    pub fn new() -> (r: BroadcastHandler)
        ensures
            forall|node: &Node| r.wf(node),
            r.engine.wf(),
            !r.engine.running,
            r.engine.pending_view().len() == 0,
    {
        BroadcastHandler { engine: GossipEngine::new() }
    }

    /// Starts the gossip engine afresh at `now`.
    pub fn init(&mut self, now: u64)
        requires
            old(self).engine.wf(),
        ensures
            forall|node: &Node| old(self).wf(node) ==> final(self).wf(node),
            final(self).engine.wf(),
            final(self).engine.running,
            final(self).engine.start == now,
            final(self).engine.pending_view().len() == 0,
    {
        self.engine.init(now);
    }

    /// Stops the gossip engine and drops whatever it had queued.
    pub fn shutdown(&mut self)
        requires
            old(self).engine.wf(),
        ensures
            forall|node: &Node| old(self).wf(node) ==> final(self).wf(node),
            final(self).engine.wf(),
            !final(self).engine.running,
            final(self).engine.pending_view().len() == 0,
    {
        self.engine.shutdown();
    }

    /// Handles a `broadcast` request at time `now`. A request without a
    /// value gets a missing-field error. A value seen before is only
    /// acknowledged. A new value is recorded, queued for every neighbour but
    /// the sender, and acknowledged. The replies to send now are returned.
    pub fn handle_request(
        &mut self,
        server: &mut BroadcastServer,
        node: &mut Node,
        request: &Message,
        now: u64,
    ) -> (r: Vec<Message>)
        requires
            old(self).wf(old(node)),
            old(server).wf(),
            request.body.msg_id is Some,
            old(node).next_message_id + old(server).neighbours@.len() < usize::MAX,
        ensures
            final(self).wf(final(node)),
            final(server).wf(),
            final(server).grows_from(old(server)),
            final(server).neighbours == old(server).neighbours,
            final(server).acknowledged_broadcasts == old(server).acknowledged_broadcasts,
            final(node).node_id == old(node).node_id,
            final(node).node_ids == old(node).node_ids,
            final(node).initialized == old(node).initialized,
            final(self).engine.start == old(self).engine.start,
            final(self).engine.running == old(self).engine.running,
            r@.len() == 1,
            request.body.message is None ==> r@[0]@ == (MessageView {
                src: old(node).node_id@,
                dest: request.src@,
                body: crate::protocol::error_body(request.body.msg_id.unwrap(), 12, "body.message"@),
            }) && final(server).messages == old(server).messages && final(self).engine.pending_view()
                == old(self).engine.pending_view() && final(node).next_message_id
                == old(node).next_message_id,
            request.body.message matches Some(v) ==> {
                &&& r@[0]@ == (MessageView {
                    src: old(node).node_id@,
                    dest: request.src@,
                    body: reply_body(
                        MessageType::broadcast_ok,
                        old(node).next_message_id,
                        request.body.msg_id.unwrap(),
                    ),
                })
                &&& final(server).seen() == old(server).seen().insert(v@)
                &&& old(server).seen().contains(v@) ==> {
                    &&& final(server).messages == old(server).messages
                    &&& final(self).engine.pending_view() == old(self).engine.pending_view()
                    &&& final(node).next_message_id == old(node).next_message_id + 1
                }
                &&& !old(server).seen().contains(v@) ==> {
                    let targets = gossip_targets(old(server).neighbours.deep_view(), request.src@);
                    &&& final(server).messages.deep_view() == old(server).messages.deep_view().push(v@)
                    &&& final(self).engine.pending_view() == old(self).engine.pending_view() + fanout(
                        targets,
                        old(node).node_id@,
                        old(node).next_message_id + 1,
                        v@,
                        now,
                    )
                    &&& final(node).next_message_id == old(node).next_message_id + 1 + targets.len()
                }
            },
    {
        let caller = &request.src;
        let in_reply_to = request.body.msg_id.unwrap();
        let value = match &request.body.message {
            None => {
                let error = AppError::MissingField("body.message".to_owned());
                let reply = error.to_message(node.node_id.as_str(), caller.as_str(), in_reply_to);
                return vec![reply];
            },
            Some(value) => value,
        };
        let ack_id = node.get_and_increment_message_id();
        let acknowledgement = Message::reply(
            node.node_id.as_str(),
            caller.as_str(),
            MessageType::broadcast_ok,
            ack_id,
            in_reply_to,
        );
        if server.has_seen(value) {
            // already received by other means
            assert(server.seen().insert(value@) =~= server.seen());
            return vec![acknowledgement];
        }
        let ghost old_messages = server.messages.deep_view();
        server.messages.push(value.clone());
        proof {
            assert(server.messages.deep_view() =~= old_messages.push(value@));
            broadcast use vstd::seq_lib::group_seq_properties;
            assert(server.messages.deep_view().to_set() =~= old_messages.to_set().insert(value@));
        }
        let ghost neighbours = server.neighbours.deep_view();
        let ghost p0 = self.engine.pending_view();
        let ghost first = node.next_message_id as int;
        let ghost src = node.node_id@;
        let mut i: usize = 0;
        while i < server.neighbours.len()
            invariant
                i <= neighbours.len(),
                neighbours == server.neighbours.deep_view(),
                self.engine.wf(),
                forall|m: usize| #[trigger]
                    self.engine.transmissions@.contains_key(m) ==> m < node.next_message_id,
                node.next_message_id == first + gossip_targets(neighbours.subrange(0, i as int), caller@).len(),
                first + neighbours.len() <= usize::MAX,
                node.node_id@ == src,
                node.node_id == old(node).node_id,
                node.node_ids == old(node).node_ids,
                node.initialized == old(node).initialized,
                self.engine.start == old(self).engine.start,
                self.engine.running == old(self).engine.running,
                self.engine.pending_view() == p0 + fanout(
                    gossip_targets(neighbours.subrange(0, i as int), caller@),
                    src,
                    first,
                    value@,
                    now,
                ),
            decreases neighbours.len() - i,
        {
            let ghost before = gossip_targets(neighbours.subrange(0, i as int), caller@);
            proof {
                lemma_targets_len(neighbours.subrange(0, i as int), caller@);
                assert(neighbours.subrange(0, i as int + 1).drop_last() =~= neighbours.subrange(0, i as int));
            }
            if !(server.neighbours[i] == *caller) {
                let target = Broadcast { node: server.neighbours[i].clone(), message: value.clone() };
                let outbound = target.to_message(node);
                self.engine.gossip(outbound, now);
                proof {
                    assert(gossip_targets(neighbours.subrange(0, i as int + 1), caller@) == before.push(neighbours[i as int]));
                    assert(fanout(before.push(neighbours[i as int]), src, first, value@, now) =~= fanout(before, src, first, value@, now).push(
                        PendingView { broadcast: outbound@, attempts: 0, due: now },
                    ));
                    assert(self.engine.pending_view() =~= p0 + fanout(
                        before.push(neighbours[i as int]),
                        src,
                        first,
                        value@,
                        now,
                    ));
                }
            } else {
                assert(gossip_targets(neighbours.subrange(0, i as int + 1), caller@) == before);
            }
            i = i + 1;
        }
        assert(neighbours.subrange(0, neighbours.len() as int) =~= neighbours);
        vec![acknowledgement]
    }
}

} // verus!
