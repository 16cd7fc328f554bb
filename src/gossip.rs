use std::collections::HashSet;

use vstd::arithmetic::power2::{lemma2_to64, lemma_pow2_strictly_increases, lemma_pow2_unfold, pow2};
use vstd::prelude::*;

use crate::protocol::{Message, MessageView};

verus! {

broadcast use vstd::std_specs::hash::group_hash_axioms;

/// The number of retries after the first transmission of a broadcast; an
/// entry that has been tried once more than this is given up.
pub const MAX_ATTEMPTS: u32 = 16;

/// The delay before the first retry, in milliseconds. Each retry doubles it.
pub const BASELINE_SLEEP_MS: u64 = 2;

/// Time points and delays of the engine are in microseconds.
pub const MICROS_PER_MS: u64 = 1000;

/// The longest delay the engine ever waits before a retry, in microseconds:
/// `2^MAX_ATTEMPTS * BASELINE_SLEEP_MS` milliseconds.
pub const MAX_BACKOFF_MICROS: u64 = 131072000;

/// The delay, in microseconds, before retrying an entry that has been sent
/// `attempts` times: `2^attempts * BASELINE_SLEEP_MS` milliseconds.
pub open spec fn backoff(attempts: nat) -> int {
    pow2(attempts) * (BASELINE_SLEEP_MS * MICROS_PER_MS)
}

/// Computes `backoff(attempts)`.
pub fn backoff_micros(attempts: u32) -> (r: u64)
    requires
        attempts <= MAX_ATTEMPTS,
    ensures
        r == backoff(attempts as nat),
        r <= MAX_BACKOFF_MICROS,
{
    let mut delay: u64 = BASELINE_SLEEP_MS * MICROS_PER_MS;
    let mut i: u32 = 0;
    proof {
        lemma2_to64();
    }
    while i < attempts
        invariant
            i <= attempts <= MAX_ATTEMPTS,
            delay == backoff(i as nat),
            pow2(16) == 65536,
        decreases attempts - i,
    {
        proof {
            lemma_pow2_unfold((i + 1) as nat);
            lemma_pow2_strictly_increases(i as nat, 16);
            if i + 1 < 16 {
                lemma_pow2_strictly_increases((i + 1) as nat, 16);
            }
            assert(BASELINE_SLEEP_MS * MICROS_PER_MS == 2000);
            assert(pow2(i as nat) * 2000 < 65536 * 2000) by (nonlinear_arith)
                requires
                    pow2(i as nat) < 65536,
            ;
        }
        delay = delay * 2;
        i = i + 1;
    }
    proof {
        if attempts < 16 {
            lemma_pow2_strictly_increases(attempts as nat, 16);
        }
        assert(pow2(attempts as nat) * 2000 <= 65536 * 2000) by (nonlinear_arith)
            requires
                pow2(attempts as nat) <= 65536,
        ;
    }
    delay
}

/// An outbound broadcast waiting for its acknowledgement.
pub struct PendingBroadcast {
    /// The message to transmit; it carries a message identifier.
    pub broadcast: Message,
    /// How many times it has been transmitted.
    pub attempts: u32,
    /// The earliest time at which it may next be transmitted.
    pub due: u64,
}

pub struct PendingView {
    pub broadcast: MessageView,
    pub attempts: u32,
    pub due: u64,
}

impl View for PendingBroadcast {
    type V = PendingView;

    open spec fn view(&self) -> PendingView {
        PendingView { broadcast: self.broadcast@, attempts: self.attempts, due: self.due }
    }
}

pub open spec fn pendings_view(s: Seq<PendingBroadcast>) -> Seq<PendingView> {
    s.map_values(|e: PendingBroadcast| e@)
}

pub open spec fn messages_view(s: Seq<Message>) -> Seq<MessageView> {
    s.map_values(|m: Message| m@)
}

/// The message identifier of a pending entry.
pub open spec fn id_of(e: PendingView) -> usize {
    e.broadcast.body.msg_id.unwrap()
}

/// The entry's time has come: it lies in `(start, now]`.
pub open spec fn is_due(e: PendingView, start: u64, now: u64) -> bool {
    start < e.due && e.due <= now
}

/// The entry is neither acknowledged nor past its last attempt.
pub open spec fn must_send(e: PendingView, acknowledged: Set<usize>) -> bool {
    !acknowledged.contains(id_of(e)) && e.attempts <= MAX_ATTEMPTS
}

/// A tick transmits the entry.
pub open spec fn transmits(e: PendingView, start: u64, now: u64, acknowledged: Set<usize>) -> bool {
    is_due(e, start, now) && must_send(e, acknowledged)
}

/// The entry after a transmission at `now`: one more attempt, due after the backoff.
pub open spec fn rescheduled(e: PendingView, now: u64) -> PendingView {
    PendingView {
        broadcast: e.broadcast,
        attempts: (e.attempts + 1) as u32,
        due: (now + backoff(e.attempts as nat)) as u64,
    }
}

/// The pending entries after a tick at `now`: entries not due stay, entries
/// transmitted are rescheduled, and due entries that are acknowledged or out
/// of attempts are retired.
pub open spec fn after_tick(p: Seq<PendingView>, start: u64, now: u64, acknowledged: Set<usize>) -> Seq<
    PendingView,
>
    decreases p.len(),
{
    if p.len() == 0 {
        Seq::empty()
    } else {
        let rest = after_tick(p.drop_last(), start, now, acknowledged);
        let e = p.last();
        if !is_due(e, start, now) {
            rest.push(e)
        } else if must_send(e, acknowledged) {
            rest.push(rescheduled(e, now))
        } else {
            rest
        }
    }
}

/// The messages that a tick at `now` transmits, in the order of the entries.
pub open spec fn transmitted(p: Seq<PendingView>, start: u64, now: u64, acknowledged: Set<usize>) -> Seq<
    MessageView,
>
    decreases p.len(),
{
    if p.len() == 0 {
        Seq::empty()
    } else {
        let rest = transmitted(p.drop_last(), start, now, acknowledged);
        if transmits(p.last(), start, now, acknowledged) {
            rest.push(p.last().broadcast)
        } else {
            rest
        }
    }
}

/// Acknowledgement retirement: once a message identifier is acknowledged, no
/// later tick transmits it, whatever else is acknowledged by then.
pub proof fn lemma_acknowledged_never_transmitted(
    p: Seq<PendingView>,
    start: u64,
    now: u64,
    earlier: Set<usize>,
    later: Set<usize>,
    m: usize,
)
    requires
        earlier.contains(m),
        earlier.subset_of(later),
    ensures
        forall|k: int|
            0 <= k < transmitted(p, start, now, later).len() ==> (#[trigger] transmitted(
                p,
                start,
                now,
                later,
            )[k]).body.msg_id != Some(m),
    decreases p.len(),
{
    if p.len() > 0 {
        lemma_acknowledged_never_transmitted(p.drop_last(), start, now, earlier, later, m);
    }
}

/// Retry cap: in a well-formed engine no message identifier has been
/// transmitted more than `MAX_ATTEMPTS + 1` times, the first send included.
pub proof fn lemma_retry_cap(engine: &GossipEngine, m: usize)
    requires
        engine.wf(),
    ensures
        engine.transmissions@.contains_key(m) ==> engine.transmissions@[m] <= MAX_ATTEMPTS + 1,
{
}

/// Retry gaps: after the transmission with `attempts` earlier sends, the
/// entry is not due again until `2^attempts * BASELINE_SLEEP_MS` milliseconds
/// have passed.
pub proof fn lemma_retry_gap(e: PendingView, now: u64, start: u64, later: u64)
    requires
        e.attempts <= MAX_ATTEMPTS,
        now + backoff(e.attempts as nat) <= u64::MAX,
        is_due(rescheduled(e, now), start, later),
    ensures
        later >= now + pow2(e.attempts as nat) * (BASELINE_SLEEP_MS * MICROS_PER_MS),
{
}

/// The reliable gossip engine: outbound broadcasts are retransmitted with
/// exponential backoff until they are acknowledged or run out of attempts.
pub struct GossipEngine {
    /// The entries waiting for their next transmission.
    pub pending: Vec<PendingBroadcast>,
    /// When the engine was started; only entries due after it are sent.
    pub start: u64,
    /// Whether the engine runs; a stopped engine sends nothing.
    pub running: bool,
    /// How many times each message identifier ever queued has been sent.
    pub transmissions: Ghost<Map<usize, nat>>,
}

impl GossipEngine {
    pub open spec fn pending_view(&self) -> Seq<PendingView> {
        pendings_view(self.pending@)
    }

    /// Every entry carries a distinct message identifier, the transmission
    /// count of each queued identifier is its entry's attempts, and no
    /// identifier has been sent more than `MAX_ATTEMPTS + 1` times.
    pub open spec fn wf(&self) -> bool {
        let p = self.pending_view();
        let tx = self.transmissions@;
        &&& forall|i: int| 0 <= i < p.len() ==> (#[trigger] p[i]).broadcast.body.msg_id is Some
        &&& forall|i: int, j: int| 0 <= i < j < p.len() ==> id_of(p[i]) != id_of(p[j])
        &&& forall|i: int|
            0 <= i < p.len() ==> tx.contains_key(id_of(#[trigger] p[i])) && tx[id_of(p[i])]
                == p[i].attempts as nat
        &&& forall|m: usize| #[trigger] tx.contains_key(m) ==> tx[m] <= MAX_ATTEMPTS + 1
    }

    /// An engine that is not running yet and has nothing queued.
    pub fn new() -> (r: GossipEngine)
        ensures
            r.wf(),
            !r.running,
            r.pending_view().len() == 0,
            r.transmissions@ == Map::<usize, nat>::empty(),
    {
        GossipEngine {
            pending: Vec::new(),
            start: 0,
            running: false,
            transmissions: Ghost(Map::empty()),
        }
    }

    /// Starts the engine afresh at `now`, dropping whatever was queued.
    pub fn init(&mut self, now: u64)
        requires
            old(self).wf(),
        ensures
            final(self).wf(),
            final(self).running,
            final(self).start == now,
            final(self).pending_view().len() == 0,
            final(self).transmissions == old(self).transmissions,
    {
        self.running = false;
        self.pending = Vec::new();
        self.start = now;
        self.running = true;
    }

    /// Stops the engine: nothing queued is ever sent.
    pub fn shutdown(&mut self)
        requires
            old(self).wf(),
        ensures
            final(self).wf(),
            !final(self).running,
            final(self).pending_view().len() == 0,
            final(self).start == old(self).start,
            final(self).transmissions == old(self).transmissions,
    {
        self.running = false;
        self.pending = Vec::new();
    }

    /// Queues a new outbound broadcast for transmission at `now`.
    pub fn gossip(&mut self, broadcast: Message, now: u64)
        requires
            old(self).wf(),
            broadcast@.body.msg_id is Some,
            !old(self).transmissions@.contains_key(broadcast@.body.msg_id.unwrap()),
        ensures
            final(self).wf(),
            final(self).pending_view() == old(self).pending_view().push(
                PendingView { broadcast: broadcast@, attempts: 0, due: now },
            ),
            final(self).transmissions@ == old(self).transmissions@.insert(
                broadcast@.body.msg_id.unwrap(),
                0,
            ),
            final(self).start == old(self).start,
            final(self).running == old(self).running,
    {
        let ghost id = broadcast@.body.msg_id.unwrap();
        self.pending.push(PendingBroadcast { broadcast, attempts: 0, due: now });
        proof {
            self.transmissions@ = self.transmissions@.insert(id, 0);
            assert(self.pending_view() =~= old(self).pending_view().push(
                PendingView { broadcast: self.pending@.last().broadcast@, attempts: 0, due: now },
            ));
        }
    }

    /// The earliest time at which a queued entry is due, if any is queued.
    pub fn next_wake(&self) -> (r: Option<u64>)
        ensures
            r is None <==> self.pending_view().len() == 0,
            r matches Some(t) ==> (exists|k: int|
                0 <= k < self.pending_view().len() && self.pending_view()[k].due == t)
                && forall|k: int|
                0 <= k < self.pending_view().len() ==> t <= self.pending_view()[k].due,
    {
        if self.pending.len() == 0 {
            return None;
        }
        let mut earliest: u64 = self.pending[0].due;
        let ghost mut at: int = 0;
        let mut i: usize = 1;
        while i < self.pending.len()
            invariant
                1 <= i <= self.pending.len(),
                0 <= at < i,
                self.pending_view()[at].due == earliest,
                forall|k: int| 0 <= k < i ==> earliest <= self.pending_view()[k].due,
            decreases self.pending.len() - i,
        {
            if self.pending[i].due < earliest {
                earliest = self.pending[i].due;
                proof {
                    at = i as int;
                }
            }
            i = i + 1;
        }
        Some(earliest)
    }

    /// One pass of the daemon at time `now`. Each entry due in `(start, now]`
    /// is retired when its identifier is acknowledged or it has had its last
    /// attempt; otherwise it is transmitted and rescheduled with one more
    /// attempt after the backoff. The transmitted messages are returned.
    pub fn tick(&mut self, now: u64, acknowledged: &HashSet<usize>) -> (sent: Vec<Message>)
        requires
            old(self).wf(),
            now <= u64::MAX - MAX_BACKOFF_MICROS,
        ensures
            final(self).wf(),
            final(self).start == old(self).start,
            final(self).running == old(self).running,
            final(self).transmissions@.dom() == old(self).transmissions@.dom(),
            !old(self).running ==> sent@.len() == 0 && final(self).pending_view()
                == old(self).pending_view() && final(self).transmissions == old(self).transmissions,
            old(self).running ==> final(self).pending_view() == after_tick(
                old(self).pending_view(),
                old(self).start,
                now,
                acknowledged@,
            ) && messages_view(sent@) == transmitted(
                old(self).pending_view(),
                old(self).start,
                now,
                acknowledged@,
            ),
            forall|j: int|
                #![trigger old(self).pending_view()[j]]
                0 <= j < old(self).pending_view().len() ==> final(self).transmissions@[id_of(
                    old(self).pending_view()[j],
                )] == old(self).transmissions@[id_of(old(self).pending_view()[j])] + if old(
                    self,
                ).running && transmits(
                    old(self).pending_view()[j],
                    old(self).start,
                    now,
                    acknowledged@,
                ) {
                    1int
                } else {
                    0int
                },
            forall|m: usize|
                (forall|j: int|
                    0 <= j < old(self).pending_view().len() ==> id_of(old(self).pending_view()[j])
                        != m) ==> #[trigger] final(self).transmissions@[m]
                    == old(self).transmissions@[m],
            forall|k: int|
                0 <= k < sent@.len() ==> !acknowledged@.contains(
                    (#[trigger] sent@[k])@.body.msg_id.unwrap(),
                ),
            forall|m: usize| #[trigger]
                final(self).transmissions@.contains_key(m) ==> final(self).transmissions@[m]
                    <= MAX_ATTEMPTS + 1,
    {
        if !self.running {
            return Vec::new();
        }
        let ghost p = self.pending_view();
        let ghost start = self.start;
        let ghost acked = acknowledged@;
        let ghost old_tx = self.transmissions@;
        let ghost mut tx = old_tx;
        let ghost mut idx: Seq<int> = Seq::empty();
        let mut next: Vec<PendingBroadcast> = Vec::new();
        let mut sent: Vec<Message> = Vec::new();
        let mut i: usize = 0;
        while i < self.pending.len()
            invariant
                self.wf(),
                self.pending_view() == p,
                self.start == start,
                acked == acknowledged@,
                self.transmissions@ == old_tx,
                now <= u64::MAX - MAX_BACKOFF_MICROS,
                i <= p.len(),
                pendings_view(next@) == after_tick(p.subrange(0, i as int), start, now, acked),
                messages_view(sent@) == transmitted(p.subrange(0, i as int), start, now, acked),
                forall|k: int|
                    0 <= k < sent@.len() ==> !acked.contains(
                        (#[trigger] sent@[k])@.body.msg_id.unwrap(),
                    ),
                tx.dom() == old_tx.dom(),
                forall|m: usize| #[trigger] tx.contains_key(m) ==> tx[m] <= MAX_ATTEMPTS + 1,
                forall|j: int|
                    0 <= j < i ==> tx[id_of(#[trigger] p[j])] == p[j].attempts as nat + if transmits(
                        p[j],
                        start,
                        now,
                        acked,
                    ) {
                        1int
                    } else {
                        0int
                    },
                forall|j: int| i <= j < p.len() ==> tx[id_of(#[trigger] p[j])] == p[j].attempts as nat,
                forall|m: usize|
                    (forall|j: int| 0 <= j < p.len() ==> id_of(p[j]) != m) ==> #[trigger] tx[m]
                        == old_tx[m],
                idx.len() == next@.len(),
                forall|k: int| 0 <= k < idx.len() ==> 0 <= #[trigger] idx[k] < i,
                forall|k: int, l: int| 0 <= k < l < idx.len() ==> idx[k] < idx[l],
                forall|k: int|
                    0 <= k < idx.len() ==> (#[trigger] pendings_view(next@)[k]) == if transmits(
                        p[idx[k]],
                        start,
                        now,
                        acked,
                    ) {
                        rescheduled(p[idx[k]], now)
                    } else {
                        p[idx[k]]
                    },
                forall|k: int| 0 <= k < idx.len() ==> is_due(p[#[trigger] idx[k]], start, now) ==> transmits(p[idx[k]], start, now, acked),
            decreases p.len() - i,
        {
            let ghost prefix = p.subrange(0, i as int + 1);
            assert(prefix.drop_last() =~= p.subrange(0, i as int));
            assert(prefix.last() == p[i as int]);
            let ghost old_next = pendings_view(next@);
            let ghost old_sent = messages_view(sent@);
            let entry = &self.pending[i];
            assert(entry@ == p[i as int]);
            let id = entry.broadcast.body.msg_id.unwrap();
            if self.start < entry.due && entry.due <= now {
                let seen = acknowledged.contains(&id);
                if !seen && entry.attempts <= MAX_ATTEMPTS {
                    let delay = backoff_micros(entry.attempts);
                    let copy = entry.broadcast.duplicate();
                    sent.push(copy);
                    let again = PendingBroadcast {
                        broadcast: entry.broadcast.duplicate(),
                        attempts: entry.attempts + 1,
                        due: now + delay,
                    };
                    next.push(again);
                    proof {
                        assert(pendings_view(next@) =~= old_next.push(rescheduled(p[i as int], now)));
                        assert(messages_view(sent@) =~= old_sent.push(p[i as int].broadcast));
                        tx = tx.insert(id, (tx[id] + 1) as nat);
                        idx = idx.push(i as int);
                    }
                }
            } else {
                let same = PendingBroadcast {
                    broadcast: entry.broadcast.duplicate(),
                    attempts: entry.attempts,
                    due: entry.due,
                };
                next.push(same);
                proof {
                    assert(pendings_view(next@) =~= old_next.push(p[i as int]));
                    idx = idx.push(i as int);
                }
            }
            proof {
                let e = p[i as int];
                assert(after_tick(prefix, start, now, acked) == if !is_due(e, start, now) {
                    old_next.push(e)
                } else if must_send(e, acked) {
                    old_next.push(rescheduled(e, now))
                } else {
                    old_next
                });
                assert(transmitted(prefix, start, now, acked) == if transmits(e, start, now, acked) {
                    old_sent.push(e.broadcast)
                } else {
                    old_sent
                });
            }
            i = i + 1;
            proof {
                assert(p.subrange(0, i as int) == prefix);
                assert(pendings_view(next@) =~= after_tick(p.subrange(0, i as int), start, now, acked));
                assert(messages_view(sent@) =~= transmitted(p.subrange(0, i as int), start, now, acked));
            }
        }
        assert(p.subrange(0, p.len() as int) =~= p);
        self.pending = next;
        proof {
            self.transmissions@ = tx;
            let q = self.pending_view();
            assert forall|k: int, l: int| 0 <= k < l < q.len() implies id_of(q[k]) != id_of(q[l]) by {
                assert(q[k] == pendings_view(next@)[k]);
                assert(q[l] == pendings_view(next@)[l]);
                assert(idx[k] < idx[l]);
            }
            assert forall|k: int| 0 <= k < q.len() implies tx.contains_key(id_of(#[trigger] q[k]))
                && tx[id_of(q[k])] == q[k].attempts as nat by {
                assert(q[k] == pendings_view(next@)[k]);
                let j = idx[k];
                assert(tx[id_of(p[j])] == p[j].attempts as nat + if transmits(p[j], start, now, acked) {
                    1int
                } else {
                    0int
                });
            }
            assert forall|k: int| 0 <= k < q.len() implies (#[trigger] q[k]).broadcast.body.msg_id is Some by {
                assert(q[k] == pendings_view(next@)[k]);
                assert(p[idx[k]].broadcast.body.msg_id is Some);
            }
        }
        sent
    }
}

} // verus!
