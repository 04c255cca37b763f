//! The coordinator's verified state: connected peers with their cursors and
//! broadcast bookkeeping, and the decisions of each broadcast round.
use vstd::prelude::*;

use crate::broadcast_info::{with_batch, without_batch, BroadcastInfo};
use crate::scheduler::{PeerNetworkId, ScheduledBroadcast};
use crate::timeline::{advanced, zipped, MultiBatchId, TimelineId};

verus! {

/// Events announced to subscribers of the pool.
#[derive(Clone, Copy, Debug, PartialEq, Eq, Structural)]
pub enum SharedMempoolNotification {
    PeerStateChange,
    NewTransactions,
    ACK,
    Broadcast,
}

/// Settings of the broadcast protocol.
#[derive(Clone, Copy, Debug, PartialEq, Eq, Structural)]
pub struct MempoolConfig {
    /// Whether validators broadcast to each other.
    pub shared_mempool_validator_broadcast: bool,
    /// Number of priority buckets of each peer's cursor.
    pub broadcast_buckets: usize,
    /// Interval between broadcasts to a peer, in milliseconds.
    pub shared_mempool_tick_interval_ms: u64,
    /// Factor by which the interval grows for a peer in backoff mode.
    pub shared_mempool_backoff_multiplier: u64,
    /// Most batches sent to one peer and not yet acknowledged.
    pub max_broadcasts_per_peer: usize,
}

/// State of the last sync with a peer: its position in the log of ready
/// transactions and its broadcast bookkeeping.
pub struct PeerSyncState {
    pub timeline_id: TimelineId,
    pub broadcast_info: BroadcastInfo,
    pub peer: PeerNetworkId,
}

impl PeerSyncState {
    /// The state of a peer that has just connected.
    pub open spec fn is_fresh(&self, peer: PeerNetworkId, num_buckets: nat) -> bool {
        &&& self.peer == peer
        &&& self.timeline_id@ == Seq::new(num_buckets, |i: int| 0u64)
        &&& self.broadcast_info.wf()
        &&& self.broadcast_info.sent_set() == Set::<(Seq<(u64, u64)>, u64)>::empty()
        &&& self.broadcast_info.retry_set() == Set::<Seq<(u64, u64)>>::empty()
        &&& !self.broadcast_info.backoff_mode
    }

    pub fn new(peer: PeerNetworkId, num_broadcast_buckets: usize) -> (r: Self)
        ensures
            r.is_fresh(peer, num_broadcast_buckets as nat),
    {
        PeerSyncState {
            timeline_id: TimelineId::new(num_broadcast_buckets),
            broadcast_info: BroadcastInfo::new(),
            peer,
        }
    }
}

/// Position of `p` in `s`, or -1 when it is not there.
pub open spec fn peer_index(s: Seq<PeerSyncState>, p: PeerNetworkId) -> int
    decreases s.len(),
{
    if s.len() == 0 {
        -1
    } else if s.last().peer == p {
        s.len() - 1
    } else {
        peer_index(s.drop_last(), p)
    }
}

proof fn lemma_peer_index(s: Seq<PeerSyncState>, p: PeerNetworkId)
    ensures
        -1 <= peer_index(s, p) < s.len(),
        peer_index(s, p) >= 0 ==> s[peer_index(s, p)].peer == p,
        peer_index(s, p) == -1 ==> forall|k: int| 0 <= k < s.len() ==> (#[trigger] s[k]).peer != p,
    decreases s.len(),
{
    if s.len() > 0 {
        lemma_peer_index(s.drop_last(), p);
        if s.last().peer != p && peer_index(s, p) == -1 {
            assert forall|k: int| 0 <= k < s.len() implies (#[trigger] s[k]).peer != p by {
                if k < s.len() - 1 {
                    assert(s[k] == s.drop_last()[k]);
                }
            }
        }
    }
}

/// A range of a batch holds nothing: in every bucket it starts at or past its end.
pub open spec fn range_is_empty(r: Seq<(u64, u64)>) -> bool {
    forall|i: int| 0 <= i < r.len() ==> r[i].0 >= #[trigger] r[i].1
}

/// The batch to send to a peer in state `st` when the pool's timeline is at
/// `storage`: nothing while `max_sent` batches are unacknowledged; else the
/// largest batch waiting for a retry; else the range from the peer's cursor
/// to `storage`, unless that range is empty.
pub open spec fn planned_batch(st: PeerSyncState, storage: Seq<u64>, max_sent: nat) -> Option<
    Seq<(u64, u64)>,
> {
    if st.broadcast_info.sent_batches@.len() >= max_sent {
        None
    } else if st.broadcast_info.retry_keys().len() > 0 {
        Some(st.broadcast_info.retry_keys().last())
    } else if range_is_empty(zipped(st.timeline_id@, storage)) {
        None
    } else {
        Some(zipped(st.timeline_id@, storage))
    }
}

/// When the next broadcast is due, from `now`: one interval later, or the
/// interval times `multiplier` in backoff mode; saturating at the largest time.
pub open spec fn deadline_after(now: u64, interval: u64, multiplier: u64, backoff: bool) -> u64 {
    let step: int = if backoff { interval as int * multiplier as int } else { interval as int };
    if now as int + step > u64::MAX as int { u64::MAX } else { (now as int + step) as u64 }
}

pub fn broadcast_deadline(now: u64, interval: u64, multiplier: u64, backoff: bool) -> (r: u64)
    ensures
        r == deadline_after(now, interval, multiplier, backoff),
{
    let step: u64 = if backoff {
        if multiplier != 0 && interval > u64::MAX / multiplier {
            proof {
                assert(interval as int * multiplier as int > u64::MAX as int) by (nonlinear_arith)
                    requires
                        multiplier != 0,
                        interval > u64::MAX / multiplier,
                ;
            }
            return u64::MAX;
        }
        proof {
            assert(interval as int * multiplier as int <= u64::MAX as int) by (nonlinear_arith)
                requires
                    multiplier == 0 || interval <= u64::MAX / multiplier,
            ;
        }
        interval * multiplier
    } else {
        interval
    };
    if now > u64::MAX - step {
        u64::MAX
    } else {
        now + step
    }
}

/// With equal intervals and a multiplier above one, a peer in backoff mode is
/// scheduled strictly later than one that is not, when both are scheduled at
/// the same time and neither deadline passes the largest time.
pub proof fn lemma_backoff_deadline_later(now: u64, interval: u64, multiplier: u64)
    requires
        interval > 0,
        multiplier > 1,
        now as int + interval as int * multiplier as int <= u64::MAX as int,
    ensures
        deadline_after(now, interval, multiplier, true) > deadline_after(now, interval, multiplier, false),
{
    assert(interval as int * multiplier as int > interval as int) by (nonlinear_arith)
        requires
            interval > 0,
            multiplier > 1,
    ;
}

/// Acknowledging the range from a cursor to a timeline at or past it moves the
/// cursor to that timeline, and the range from there to the same timeline is empty.
pub proof fn lemma_ack_then_nothing_new(cursor: Seq<u64>, storage: Seq<u64>)
    requires
        cursor.len() == storage.len(),
        forall|i: int| 0 <= i < cursor.len() ==> cursor[i] <= #[trigger] storage[i],
    ensures
        advanced(cursor, zipped(cursor, storage)) == storage,
        range_is_empty(zipped(advanced(cursor, zipped(cursor, storage)), storage)),
{
    assert(advanced(cursor, zipped(cursor, storage)) =~= storage);
}

/// Each peer once, each with well-formed bookkeeping and a cursor of
/// `buckets` buckets.
pub open spec fn peers_wf(s: Seq<PeerSyncState>, buckets: nat) -> bool {
    &&& forall|i: int, j: int| 0 <= i < j < s.len() ==> (#[trigger] s[i]).peer != (#[trigger] s[j]).peer
    &&& forall|i: int|
        0 <= i < s.len() ==> (#[trigger] s[i]).broadcast_info.wf() && s[i].timeline_id@.len() == buckets
}

proof fn lemma_replace_keeps_wf(s: Seq<PeerSyncState>, buckets: nat, i: int, st: PeerSyncState)
    requires
        peers_wf(s, buckets),
        0 <= i < s.len(),
        st.peer == s[i].peer,
        st.broadcast_info.wf(),
        st.timeline_id@.len() == buckets,
    ensures
        peers_wf(s.update(i, st), buckets),
{
    let t = s.update(i, st);
    assert forall|a: int, b: int| 0 <= a < b < t.len() implies (#[trigger] t[a]).peer != (#[trigger] t[b]).peer by {
        assert(t[a].peer == s[a].peer && t[b].peer == s[b].peer);
    }
    assert forall|a: int| 0 <= a < t.len() implies (#[trigger] t[a]).broadcast_info.wf() && t[a].timeline_id@.len() == buckets by {
        if a != i {
            assert(t[a] == s[a]);
        }
    }
}

/// How an acknowledgement of `batch` changes a peer's state from `o` to `n`: a
/// retry moves the batch to those waiting for a retry; otherwise the batch is
/// forgotten and the cursor advances over it. A backoff request puts the peer
/// in backoff mode.
pub open spec fn ack_applied(o: PeerSyncState, n: PeerSyncState, batch: Seq<(u64, u64)>, retry: bool, backoff: bool) -> bool {
    &&& n.peer == o.peer
    &&& n.broadcast_info.sent_set() == without_batch(o.broadcast_info.sent_set(), batch)
    &&& n.broadcast_info.retry_set() == if retry {
        o.broadcast_info.retry_set().insert(batch)
    } else {
        o.broadcast_info.retry_set().remove(batch)
    }
    &&& n.broadcast_info.backoff_mode == (o.broadcast_info.backoff_mode || backoff)
    &&& n.timeline_id@ == if retry || o.timeline_id@.len() != batch.len() {
        o.timeline_id@
    } else {
        advanced(o.timeline_id@, batch)
    }
}

/// Only the peer at `i` changed between `o` and `n`.
pub open spec fn others_kept(o: Seq<PeerSyncState>, n: Seq<PeerSyncState>, i: int) -> bool {
    &&& n.len() == o.len()
    &&& forall|j: int| 0 <= j < o.len() && j != i ==> n[j] == o[j]
}

/// The coordinator's state: its settings and the connected peers.
pub struct SharedMempool {
    pub config: MempoolConfig,
    pub peers: Vec<PeerSyncState>,
}

impl SharedMempool {
    pub open spec fn peers(&self) -> Seq<PeerSyncState> {
        self.peers@
    }

    /// Each peer once, each with well-formed bookkeeping and a cursor of the
    /// configured number of buckets.
    pub open spec fn wf(&self) -> bool {
        peers_wf(self.peers(), self.config.broadcast_buckets as nat)
    }

    pub fn new(config: MempoolConfig) -> (r: Self)
        ensures
            r.wf(),
            r.config == config,
            r.peers().len() == 0,
    {
        SharedMempool { config, peers: Vec::new() }
    }

    pub fn broadcast_within_validator_network(&self) -> (r: bool)
        ensures
            r == self.config.shared_mempool_validator_broadcast,
    {
        self.config.shared_mempool_validator_broadcast
    }

    /// Where `peer` stands among the connected peers.
    pub fn find_peer(&self, peer: PeerNetworkId) -> (r: Option<usize>)
        ensures
            r is None <==> peer_index(self.peers(), peer) == -1,
            r matches Some(i) ==> i == peer_index(self.peers(), peer),
    {
        let ghost s = self.peers@;
        let mut i: usize = self.peers.len();
        assert(s.subrange(0, i as int) =~= s);
        while i > 0
            invariant
                s == self.peers@,
                i <= s.len(),
                peer_index(s, peer) == peer_index(s.subrange(0, i as int), peer),
            decreases i,
        {
            assert(s.subrange(0, i as int).drop_last() =~= s.subrange(0, i - 1));
            if self.peers[i - 1].peer == peer {
                return Some(i - 1);
            }
            i = i - 1;
        }
        None
    }

    pub fn num_peers(&self) -> (r: usize)
        ensures
            r == self.peers().len(),
    {
        self.peers.len()
    }

    /// The state of the peer at position `i`.
    pub fn peer_state(&self, i: usize) -> (r: &PeerSyncState)
        requires
            i < self.peers().len(),
        ensures
            *r == self.peers()[i as int],
    {
        &self.peers[i]
    }

    /// A peer connected: it gets a fresh state with the configured number of
    /// buckets, unless it is connected already. Returns whether it was added.
    pub fn on_connect(&mut self, peer: PeerNetworkId) -> (r: bool)
        requires
            old(self).wf(),
        ensures
            final(self).wf(),
            final(self).config == old(self).config,
            r == (peer_index(old(self).peers(), peer) == -1),
            !r ==> final(self).peers() == old(self).peers(),
            r ==> final(self).peers().len() == old(self).peers().len() + 1 && final(self).peers().subrange(
                0,
                old(self).peers().len() as int,
            ) == old(self).peers() && final(self).peers().last().is_fresh(
                peer,
                old(self).config.broadcast_buckets as nat,
            ),
    {
        proof {
            lemma_peer_index(self.peers@, peer);
        }
        if self.find_peer(peer).is_some() {
            return false;
        }
        let st = PeerSyncState::new(peer, self.config.broadcast_buckets);
        self.peers.push(st);
        assert(self.peers@.subrange(0, old(self).peers@.len() as int) =~= old(self).peers@);
        assert forall|i: int| 0 <= i < self.peers().len() implies (
        #[trigger] self.peers()[i]).broadcast_info.wf() && self.peers()[i].timeline_id@.len()
            == self.config.broadcast_buckets by {
            if i < old(self).peers().len() {
                assert(self.peers()[i] == old(self).peers()[i]);
            }
        }
        true
    }

    /// A peer disconnected: its state is dropped. Returns whether it was connected.
    pub fn on_disconnect(&mut self, peer: PeerNetworkId) -> (r: bool)
        requires
            old(self).wf(),
        ensures
            final(self).wf(),
            final(self).config == old(self).config,
            r == (peer_index(old(self).peers(), peer) >= 0),
            !r ==> final(self).peers() == old(self).peers(),
            r ==> final(self).peers() == old(self).peers().remove(peer_index(old(self).peers(), peer)),
            peer_index(final(self).peers(), peer) == -1,
    {
        proof {
            lemma_peer_index(self.peers@, peer);
        }
        match self.find_peer(peer) {
            None => false,
            Some(i) => {
                let _ = self.peers.remove(i);
                let ghost o = old(self).peers@;
                assert forall|a: int, b: int|
                    0 <= a < b < self.peers().len() implies (#[trigger] self.peers()[a]).peer != (
                #[trigger] self.peers()[b]).peer by {
                    let oa = if a < i { a } else { a + 1 };
                    let ob = if b < i { b } else { b + 1 };
                    assert(self.peers()[a] == o[oa] && self.peers()[b] == o[ob]);
                }
                assert forall|a: int| 0 <= a < self.peers().len() implies (
                #[trigger] self.peers()[a]).broadcast_info.wf() && self.peers()[a].timeline_id@.len()
                    == self.config.broadcast_buckets by {
                    let oa = if a < i { a } else { a + 1 };
                    assert(self.peers()[a] == o[oa]);
                }
                proof {
                    lemma_peer_index(self.peers@, peer);
                    if peer_index(self.peers@, peer) >= 0 {
                        let a = peer_index(self.peers@, peer);
                        let oa = if a < i { a } else { a + 1 };
                        assert(self.peers()[a] == o[oa]);
                    }
                }
                true
            },
        }
    }

    /// Applies a peer's acknowledgement of `batch_id`, a retry request when
    /// `retry`. Returns whether the peer is connected; if not, nothing changes.
    pub fn handle_ack(&mut self, peer: PeerNetworkId, batch_id: MultiBatchId, retry: bool, backoff: bool) -> (r: bool)
        requires
            old(self).wf(),
        ensures
            final(self).wf(),
            final(self).config == old(self).config,
            r == (peer_index(old(self).peers(), peer) >= 0),
            !r ==> final(self).peers() == old(self).peers(),
            r ==> others_kept(old(self).peers(), final(self).peers(), peer_index(old(self).peers(), peer)),
            r ==> ack_applied(
                old(self).peers()[peer_index(old(self).peers(), peer)],
                final(self).peers()[peer_index(old(self).peers(), peer)],
                batch_id@,
                retry,
                backoff,
            ),
    {
        match self.find_peer(peer) {
            None => false,
            Some(i) => {
                proof {
                    lemma_peer_index(self.peers@, peer);
                }
                let ghost b = batch_id@;
                let mut st = self.peers.remove(i);
                assert(st == old(self).peers@[i as int]);
                if retry {
                    let _ = st.broadcast_info.mark_retry(batch_id);
                } else {
                    st.timeline_id.update(&batch_id);
                    let _ = st.broadcast_info.ack(&batch_id);
                }
                if backoff {
                    st.broadcast_info.enable_backoff();
                }
                self.peers.insert(i, st);
                assert(self.peers@ =~= old(self).peers@.update(i as int, st));
                proof {
                    lemma_replace_keeps_wf(old(self).peers@, self.config.broadcast_buckets as nat, i as int, st);
                }
                true
            },
        }
    }

    /// Records that `batch_id` went out to `peer` at `now_ms`. Returns whether
    /// the peer is connected; if not, nothing changes.
    pub fn record_broadcast(&mut self, peer: PeerNetworkId, batch_id: MultiBatchId, now_ms: u64) -> (r: bool)
        requires
            old(self).wf(),
        ensures
            final(self).wf(),
            final(self).config == old(self).config,
            r == (peer_index(old(self).peers(), peer) >= 0),
            !r ==> final(self).peers() == old(self).peers(),
            r ==> others_kept(old(self).peers(), final(self).peers(), peer_index(old(self).peers(), peer)),
            r ==> ({
                let o = old(self).peers()[peer_index(old(self).peers(), peer)];
                let n = final(self).peers()[peer_index(old(self).peers(), peer)];
                &&& n.peer == o.peer
                &&& n.timeline_id == o.timeline_id
                &&& n.broadcast_info.sent_set() == with_batch(o.broadcast_info.sent_set(), batch_id@, now_ms)
                &&& n.broadcast_info.retry_set() == o.broadcast_info.retry_set().remove(batch_id@)
                &&& n.broadcast_info.backoff_mode == o.broadcast_info.backoff_mode
            }),
    {
        match self.find_peer(peer) {
            None => false,
            Some(i) => {
                proof {
                    lemma_peer_index(self.peers@, peer);
                }
                let mut st = self.peers.remove(i);
                assert(st == old(self).peers@[i as int]);
                st.broadcast_info.record_sent(batch_id, now_ms);
                self.peers.insert(i, st);
                assert(self.peers@ =~= old(self).peers@.update(i as int, st));
                proof {
                    lemma_replace_keeps_wf(old(self).peers@, self.config.broadcast_buckets as nat, i as int, st);
                }
                true
            },
        }
    }

    /// A send to `peer` failed: the peer goes into backoff mode. Returns
    /// whether the peer is connected; if not, nothing changes.
    pub fn on_send_failure(&mut self, peer: PeerNetworkId) -> (r: bool)
        requires
            old(self).wf(),
        ensures
            final(self).wf(),
            final(self).config == old(self).config,
            r == (peer_index(old(self).peers(), peer) >= 0),
            !r ==> final(self).peers() == old(self).peers(),
            r ==> others_kept(old(self).peers(), final(self).peers(), peer_index(old(self).peers(), peer)),
            r ==> ({
                let o = old(self).peers()[peer_index(old(self).peers(), peer)];
                let n = final(self).peers()[peer_index(old(self).peers(), peer)];
                &&& n.peer == o.peer
                &&& n.timeline_id == o.timeline_id
                &&& n.broadcast_info.sent_set() == o.broadcast_info.sent_set()
                &&& n.broadcast_info.retry_set() == o.broadcast_info.retry_set()
                &&& n.broadcast_info.backoff_mode
            }),
    {
        match self.find_peer(peer) {
            None => false,
            Some(i) => {
                proof {
                    lemma_peer_index(self.peers@, peer);
                }
                let mut st = self.peers.remove(i);
                assert(st == old(self).peers@[i as int]);
                st.broadcast_info.enable_backoff();
                self.peers.insert(i, st);
                assert(self.peers@ =~= old(self).peers@.update(i as int, st));
                proof {
                    lemma_replace_keeps_wf(old(self).peers@, self.config.broadcast_buckets as nat, i as int, st);
                }
                true
            },
        }
    }

    /// The batch to send next to `peer`, given the pool's timeline `storage`;
    /// `None` when the peer is not connected or there is nothing to send.
    pub fn next_batch(&self, peer: PeerNetworkId, storage: &TimelineId) -> (r: Option<MultiBatchId>)
        requires
            self.wf(),
        ensures
            peer_index(self.peers(), peer) == -1 ==> r is None,
            peer_index(self.peers(), peer) >= 0 ==> match planned_batch(
                self.peers()[peer_index(self.peers(), peer)],
                storage@,
                self.config.max_broadcasts_per_peer as nat,
            ) {
                None => r is None,
                Some(b) => (r matches Some(x) && x@ == b),
            },
    {
        match self.find_peer(peer) {
            None => None,
            Some(i) => {
                proof {
                    lemma_peer_index(self.peers@, peer);
                }
                let st = &self.peers[i];
                if st.broadcast_info.sent_batches.len() >= self.config.max_broadcasts_per_peer {
                    return None;
                }
                let n = st.broadcast_info.retry_batches.len();
                if n > 0 {
                    return Some(st.broadcast_info.retry_batches[n - 1].duplicate());
                }
                let range = MultiBatchId::from_timeline_ids(&st.timeline_id, storage);
                if range.is_empty_range() {
                    None
                } else {
                    Some(range)
                }
            },
        }
    }

    /// Schedules the next broadcast to `peer` from `now`, at the interval of
    /// its current mode; `None` when the peer is not connected.
    pub fn schedule_broadcast(&self, peer: PeerNetworkId, now: u64) -> (r: Option<ScheduledBroadcast>)
        requires
            self.wf(),
        ensures
            peer_index(self.peers(), peer) == -1 ==> r is None,
            peer_index(self.peers(), peer) >= 0 ==> (r matches Some(sb) && ({
                let backoff = self.peers()[peer_index(self.peers(), peer)].broadcast_info.backoff_mode;
                &&& sb.spec_deadline() == deadline_after(
                    now,
                    self.config.shared_mempool_tick_interval_ms,
                    self.config.shared_mempool_backoff_multiplier,
                    backoff,
                )
                &&& sb.spec_peer() == peer
                &&& sb.spec_backoff() == backoff
                &&& sb.spec_timer_armed() == (sb.spec_deadline() > now)
                &&& sb.spec_waiter() is None
                &&& !sb.spec_timer_fired()
                &&& !sb.spec_retired()
            })),
    {
        match self.find_peer(peer) {
            None => None,
            Some(i) => {
                proof {
                    lemma_peer_index(self.peers@, peer);
                }
                let backoff = self.peers[i].broadcast_info.backoff_mode;
                let deadline = broadcast_deadline(
                    now,
                    self.config.shared_mempool_tick_interval_ms,
                    self.config.shared_mempool_backoff_multiplier,
                    backoff,
                );
                Some(ScheduledBroadcast::new(deadline, peer, backoff, now))
            },
        }
    }
}

} // verus!
