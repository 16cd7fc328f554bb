use vstd::prelude::*;

use crate::broadcast::{fanout, gossip_targets, BroadcastServer};
use crate::gossip::PendingView;

verus! {

/// A cluster of broadcast nodes as the broadcast handler sees it: the values
/// each node has seen, the gossip queued but not yet delivered, and the
/// payloads that clients have submitted.
pub struct ClusterView {
    pub seen: Map<Seq<char>, Set<Seq<char>>>,
    /// Gossip from a node to a neighbour, with the value: `(from, to, value)`.
    pub in_flight: Set<(Seq<char>, Seq<char>, Seq<char>)>,
    pub payloads: Set<Seq<char>>,
}

/// One delivery of a `broadcast` request to a node.
pub enum Delivery {
    /// A client outside the cluster submits a value.
    FromClient { to: Seq<char>, client: Seq<char>, value: Seq<char> },
    /// Queued gossip reaches its neighbour.
    Gossip { from: Seq<char>, to: Seq<char>, value: Seq<char> },
}

/// The cluster before any broadcast: every node has seen nothing.
pub open spec fn empty_cluster(nodes: Set<Seq<char>>) -> ClusterView {
    ClusterView {
        seen: Map::new(|n: Seq<char>| nodes.contains(n), |n: Seq<char>| Set::empty()),
        in_flight: Set::empty(),
        payloads: Set::empty(),
    }
}

/// The gossip that node `to` queues on a broadcast of `value` from `from`:
/// none when it has seen the value, else one for each neighbour but `from`.
pub open spec fn queued(
    s: ClusterView,
    neighbours: Map<Seq<char>, Seq<Seq<char>>>,
    to: Seq<char>,
    from: Seq<char>,
    value: Seq<char>,
) -> Set<(Seq<char>, Seq<char>, Seq<char>)> {
    Set::new(
        |t: (Seq<char>, Seq<char>, Seq<char>)|
            !s.seen[to].contains(value) && t.0 == to && t.2 == value && gossip_targets(
                neighbours[to],
                from,
            ).contains(t.1),
    )
}

/// Node `to` handles a broadcast of `value` from `from`: it records the value
/// and, when the value is new, queues it for every neighbour but `from`.
pub open spec fn deliver(
    s: ClusterView,
    neighbours: Map<Seq<char>, Seq<Seq<char>>>,
    to: Seq<char>,
    from: Seq<char>,
    value: Seq<char>,
) -> ClusterView {
    ClusterView {
        seen: s.seen.insert(to, s.seen[to].insert(value)),
        in_flight: s.in_flight.remove((from, to, value)).union(queued(s, neighbours, to, from, value)),
        payloads: s.payloads,
    }
}

/// Whether a delivery can happen now: clients are outside the cluster and
/// gossip is delivered only once it is queued.
pub open spec fn enabled(s: ClusterView, nodes: Set<Seq<char>>, d: Delivery) -> bool {
    match d {
        Delivery::FromClient { to, client, value } => nodes.contains(to) && !nodes.contains(client),
        Delivery::Gossip { from, to, value } => s.in_flight.contains((from, to, value)),
    }
}

/// The cluster after a delivery.
pub open spec fn step(s: ClusterView, neighbours: Map<Seq<char>, Seq<Seq<char>>>, d: Delivery) -> ClusterView {
    match d {
        Delivery::FromClient { to, client, value } => {
            let t = deliver(s, neighbours, to, client, value);
            ClusterView { payloads: s.payloads.insert(value), ..t }
        },
        Delivery::Gossip { from, to, value } => deliver(s, neighbours, to, from, value),
    }
}

/// The cluster after a run of deliveries from the initial state.
pub open spec fn run(
    nodes: Set<Seq<char>>,
    neighbours: Map<Seq<char>, Seq<Seq<char>>>,
    deliveries: Seq<Delivery>,
) -> ClusterView
    decreases deliveries.len(),
{
    if deliveries.len() == 0 {
        empty_cluster(nodes)
    } else {
        step(run(nodes, neighbours, deliveries.drop_last()), neighbours, deliveries.last())
    }
}

/// Every delivery of the run was enabled when it happened.
pub open spec fn valid_run(
    nodes: Set<Seq<char>>,
    neighbours: Map<Seq<char>, Seq<Seq<char>>>,
    deliveries: Seq<Delivery>,
) -> bool
    decreases deliveries.len(),
{
    deliveries.len() == 0 || (valid_run(nodes, neighbours, deliveries.drop_last()) && enabled(
        run(nodes, neighbours, deliveries.drop_last()),
        nodes,
        deliveries.last(),
    ))
}

/// Every node lists only nodes as neighbours.
pub open spec fn closed_topology(nodes: Set<Seq<char>>, neighbours: Map<Seq<char>, Seq<Seq<char>>>) -> bool {
    forall|n: Seq<char>, k: int|
        nodes.contains(n) && 0 <= k < neighbours[n].len() ==> nodes.contains(#[trigger] neighbours[n][k])
}

/// A walk along neighbour links.
pub open spec fn is_path(neighbours: Map<Seq<char>, Seq<Seq<char>>>, path: Seq<Seq<char>>) -> bool {
    &&& path.len() >= 1
    &&& forall|k: int| 0 <= k < path.len() - 1 ==> neighbours[#[trigger] path[k]].contains(path[k + 1])
}

/// Every node reaches every other along neighbour links.
pub open spec fn connected(nodes: Set<Seq<char>>, neighbours: Map<Seq<char>, Seq<Seq<char>>>) -> bool {
    forall|a: Seq<char>, b: Seq<char>|
        nodes.contains(a) && nodes.contains(b) ==> exists|path: Seq<Seq<char>>|
            is_path(neighbours, path) && path[0] == a && path.last() == b
}

/// What holds at every point of a valid run.
pub open spec fn cluster_invariant(s: ClusterView, nodes: Set<Seq<char>>, neighbours: Map<Seq<char>, Seq<Seq<char>>>) -> bool {
    &&& s.seen.dom() == nodes
    &&& forall|n: Seq<char>| #[trigger] nodes.contains(n) ==> s.seen[n].subset_of(s.payloads)
    &&& forall|v: Seq<char>| #[trigger] s.payloads.contains(v) ==> exists|n: Seq<char>|
        nodes.contains(n) && s.seen[n].contains(v)
    &&& forall|t: (Seq<char>, Seq<char>, Seq<char>)| #[trigger]
        s.in_flight.contains(t) ==> nodes.contains(t.0) && nodes.contains(t.1) && s.seen[t.0].contains(
            t.2,
        )
    &&& forall|n: Seq<char>, v: Seq<char>, k: int|
        #![trigger s.seen[n].contains(v), neighbours[n][k]]
        nodes.contains(n) && s.seen[n].contains(v) && 0 <= k < neighbours[n].len() ==> s.seen[neighbours[n][k]].contains(v)
            || s.in_flight.contains((n, neighbours[n][k], v))
}

/// A neighbour other than the sender is a gossip target, and every target is
/// a neighbour.
proof fn lemma_targets_members(neighbours: Seq<Seq<char>>, from: Seq<char>, m: Seq<char>)
    ensures
        gossip_targets(neighbours, from).contains(m) <==> neighbours.contains(m) && m != from,
    decreases neighbours.len(),
{
    if neighbours.len() > 0 {
        let rest = neighbours.drop_last();
        let last = neighbours.last();
        let earlier = gossip_targets(rest, from);
        lemma_targets_members(rest, from, m);
        assert(neighbours =~= rest.push(last));
        if neighbours.contains(m) && m != from {
            let k = choose|k: int| 0 <= k < neighbours.len() && neighbours[k] == m;
            if k < rest.len() {
                assert(rest[k] == m);
                assert(rest.contains(m));
            }
        }
        if rest.contains(m) {
            let k = choose|k: int| 0 <= k < rest.len() && rest[k] == m;
            assert(neighbours[k] == m);
        }
        if last != from {
            let all = earlier.push(last);
            assert(gossip_targets(neighbours, from) == all);
            if all.contains(m) {
                let k = choose|k: int| 0 <= k < all.len() && all[k] == m;
                if k < earlier.len() {
                    assert(earlier[k] == m);
                    assert(earlier.contains(m));
                } else {
                    assert(neighbours[neighbours.len() - 1] == m);
                }
            }
            if m == last {
                assert(all[earlier.len() as int] == m);
            }
            if earlier.contains(m) {
                let k = choose|k: int| 0 <= k < earlier.len() && earlier[k] == m;
                assert(all[k] == m);
            }
        } else {
            assert(gossip_targets(neighbours, from) == earlier);
            if m == last {
                assert(m == from);
            }
        }
        if neighbours.contains(m) && m != last {
            let k = choose|k: int| 0 <= k < neighbours.len() && neighbours[k] == m;
            assert(k < rest.len());
            assert(rest[k] == m);
        }
    }
}

proof fn lemma_step_keeps_invariant(
    s: ClusterView,
    nodes: Set<Seq<char>>,
    neighbours: Map<Seq<char>, Seq<Seq<char>>>,
    d: Delivery,
)
    requires
        cluster_invariant(s, nodes, neighbours),
        closed_topology(nodes, neighbours),
        enabled(s, nodes, d),
    ensures
        cluster_invariant(step(s, neighbours, d), nodes, neighbours),
{
    let (to, from, value) = match d {
        Delivery::FromClient { to, client, value } => (to, client, value),
        Delivery::Gossip { from, to, value } => (to, from, value),
    };
    let t = step(s, neighbours, d);
    assert(nodes.contains(to));
    assert(t.seen.dom() =~= nodes);
    assert forall|n: Seq<char>| #[trigger] nodes.contains(n) implies t.seen[n].subset_of(t.payloads) by {
        if n == to {
            match d {
                Delivery::FromClient { .. } => {},
                Delivery::Gossip { .. } => {
                    assert(s.seen[from].contains(value));
                },
            }
        }
    }
    assert forall|v: Seq<char>| #[trigger] t.payloads.contains(v) implies exists|n: Seq<char>|
        nodes.contains(n) && t.seen[n].contains(v) by {
        if v == value {
            assert(t.seen[to].contains(v));
        } else {
            let n = choose|n: Seq<char>| nodes.contains(n) && s.seen[n].contains(v);
            assert(t.seen[n].contains(v));
        }
    }
    assert forall|x: (Seq<char>, Seq<char>, Seq<char>)| #[trigger]
        t.in_flight.contains(x) implies nodes.contains(x.0) && nodes.contains(x.1) && t.seen[x.0].contains(
        x.2,
    ) by {
        if !s.in_flight.contains(x) {
            assert(x.0 == to && x.2 == value);
            lemma_targets_members(neighbours[to], from, x.1);
            let k = choose|k: int| 0 <= k < neighbours[to].len() && neighbours[to][k] == x.1;
            assert(nodes.contains(neighbours[to][k]));
        }
    }
    assert forall|n: Seq<char>, v: Seq<char>, k: int|
        #![trigger t.seen[n].contains(v), neighbours[n][k]]
        nodes.contains(n) && t.seen[n].contains(v) && 0 <= k < neighbours[n].len() implies t.seen[neighbours[n][k]].contains(v)
            || t.in_flight.contains((n, neighbours[n][k], v)) by {
        let m = neighbours[n][k];
        assert(nodes.contains(m));
        if n == to && v == value && !s.seen[to].contains(value) {
            assert(neighbours[to].contains(m));
            lemma_targets_members(neighbours[to], from, m);
            if m == from {
                match d {
                    Delivery::FromClient { .. } => {
                        assert(false);
                    },
                    Delivery::Gossip { .. } => {
                        assert(s.seen[from].contains(value));
                    },
                }
            }
        } else {
            assert(s.seen[n].contains(v));
            if s.in_flight.contains((n, m, v)) && (n, m, v) == (from, to, value) {
                assert(t.seen[to].contains(value));
            }
        }
    }
}

proof fn lemma_run_keeps_invariant(
    nodes: Set<Seq<char>>,
    neighbours: Map<Seq<char>, Seq<Seq<char>>>,
    deliveries: Seq<Delivery>,
)
    requires
        closed_topology(nodes, neighbours),
        valid_run(nodes, neighbours, deliveries),
    ensures
        cluster_invariant(run(nodes, neighbours, deliveries), nodes, neighbours),
    decreases deliveries.len(),
{
    if deliveries.len() == 0 {
        let s = empty_cluster(nodes);
        assert(s.seen.dom() =~= nodes);
    } else {
        lemma_run_keeps_invariant(nodes, neighbours, deliveries.drop_last());
        lemma_step_keeps_invariant(
            run(nodes, neighbours, deliveries.drop_last()),
            nodes,
            neighbours,
            deliveries.last(),
        );
    }
}

/// With nothing in flight, a value seen at the start of a path is seen at
/// each of its nodes.
proof fn lemma_spreads_along_path(
    s: ClusterView,
    nodes: Set<Seq<char>>,
    neighbours: Map<Seq<char>, Seq<Seq<char>>>,
    path: Seq<Seq<char>>,
    v: Seq<char>,
    k: int,
)
    requires
        cluster_invariant(s, nodes, neighbours),
        closed_topology(nodes, neighbours),
        s.in_flight.is_empty(),
        is_path(neighbours, path),
        nodes.contains(path[0]),
        s.seen[path[0]].contains(v),
        0 <= k < path.len(),
    ensures
        nodes.contains(path[k]) && s.seen[path[k]].contains(v),
    decreases k,
{
    if k > 0 {
        lemma_spreads_along_path(s, nodes, neighbours, path, v, k - 1);
        let n = path[k - 1];
        assert(neighbours[n].contains(path[k]));
        let j = choose|j: int| 0 <= j < neighbours[n].len() && neighbours[n][j] == path[k];
        assert(!s.in_flight.contains((n, neighbours[n][j], v)));
    }
}

/// Broadcast convergence: in a valid run over a connected topology, once no
/// gossip is in flight every node has seen exactly the payloads that clients
/// submitted.
pub proof fn lemma_broadcast_convergence(
    nodes: Set<Seq<char>>,
    neighbours: Map<Seq<char>, Seq<Seq<char>>>,
    deliveries: Seq<Delivery>,
    n: Seq<char>,
)
    requires
        closed_topology(nodes, neighbours),
        connected(nodes, neighbours),
        valid_run(nodes, neighbours, deliveries),
        run(nodes, neighbours, deliveries).in_flight.is_empty(),
        nodes.contains(n),
    ensures
        run(nodes, neighbours, deliveries).seen[n] == run(nodes, neighbours, deliveries).payloads,
{
    let s = run(nodes, neighbours, deliveries);
    lemma_run_keeps_invariant(nodes, neighbours, deliveries);
    assert forall|v: Seq<char>| s.payloads.contains(v) implies #[trigger] s.seen[n].contains(v) by {
        let a = choose|a: Seq<char>| nodes.contains(a) && s.seen[a].contains(v);
        let path = choose|path: Seq<Seq<char>>| is_path(neighbours, path) && path[0] == a && path.last() == n;
        lemma_spreads_along_path(s, nodes, neighbours, path, v, path.len() - 1);
    }
    assert(s.seen[n] =~= s.payloads);
}

/// The broadcast handler performs the model's delivery. Take a node `to`
/// whose state before a broadcast of `value` from `from` is `before`, with
/// `pending_before` queued, and after it `after` with `pending_after`, related
/// as `BroadcastHandler::handle_request` ensures. Then the values it has seen
/// are those `deliver` computes, and the entries it queued are the gossip
/// `deliver` queues: from `to`, with `value`, to exactly the neighbours in
/// `queued`.
pub proof fn lemma_handler_is_delivery(
    s: ClusterView,
    neighbours: Map<Seq<char>, Seq<Seq<char>>>,
    to: Seq<char>,
    from: Seq<char>,
    value: Seq<char>,
    before: &BroadcastServer,
    after: &BroadcastServer,
    pending_before: Seq<PendingView>,
    pending_after: Seq<PendingView>,
    first_id: int,
    now: u64,
)
    requires
        s.seen.contains_key(to),
        s.seen[to] == before.seen(),
        neighbours[to] == before.neighbours.deep_view(),
        after.seen() == before.seen().insert(value),
        before.seen().contains(value) ==> pending_after == pending_before,
        !before.seen().contains(value) ==> pending_after == pending_before + fanout(
            gossip_targets(before.neighbours.deep_view(), from),
            to,
            first_id,
            value,
            now,
        ),
    ensures
        deliver(s, neighbours, to, from, value).seen[to] == after.seen(),
        forall|t: (Seq<char>, Seq<char>, Seq<char>)|
            #[trigger] queued(s, neighbours, to, from, value).contains(t) <==> (t.0 == to && t.2 == value
                && exists|k: int|
                pending_before.len() <= k < pending_after.len() && pending_after[k].broadcast.dest == t.1),
        forall|k: int|
            pending_before.len() <= k < pending_after.len() ==> (#[trigger] pending_after[k]).broadcast.src
                == to && pending_after[k].broadcast.body.message == Some(value),
{
    let targets = gossip_targets(before.neighbours.deep_view(), from);
    let base = pending_before.len() as int;
    if !before.seen().contains(value) {
        assert forall|k: int| base <= k < pending_after.len() implies pending_after[k]
            == fanout(targets, to, first_id, value, now)[k - base] by {}
    }
    assert forall|t: (Seq<char>, Seq<char>, Seq<char>)|
        #[trigger] queued(s, neighbours, to, from, value).contains(t) <==> (t.0 == to && t.2 == value
            && exists|k: int|
            pending_before.len() <= k < pending_after.len() && pending_after[k].broadcast.dest == t.1) by {
        if queued(s, neighbours, to, from, value).contains(t) {
            let j = choose|j: int| 0 <= j < targets.len() && targets[j] == t.1;
            assert(pending_after[base + j].broadcast.dest == t.1);
        }
        if t.0 == to && t.2 == value && exists|k: int|
            pending_before.len() <= k < pending_after.len() && pending_after[k].broadcast.dest == t.1 {
            let k = choose|k: int|
                pending_before.len() <= k < pending_after.len() && pending_after[k].broadcast.dest == t.1;
            assert(!before.seen().contains(value));
            assert(targets[k - base] == t.1);
            assert(targets.contains(t.1));
        }
    }
}

} // verus!
