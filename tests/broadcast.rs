use shared_mempool::broadcast_info::BroadcastInfo;
use shared_mempool::coordinator::{broadcast_deadline, MempoolConfig, SharedMempool};
use shared_mempool::scheduler::{BroadcastPoll, NetworkId, PeerNetworkId, ScheduledBroadcast};
use shared_mempool::timeline::{BatchId, MultiBatchId, TimelineId};
use std::cmp::Ordering;

fn peer(id: u64) -> PeerNetworkId {
    PeerNetworkId { network_id: NetworkId::Public, peer_id: id }
}

fn config() -> MempoolConfig {
    MempoolConfig {
        shared_mempool_validator_broadcast: true,
        broadcast_buckets: 2,
        shared_mempool_tick_interval_ms: 50,
        shared_mempool_backoff_multiplier: 4,
        max_broadcasts_per_peer: 2,
    }
}

#[test]
fn timeline_new_is_all_zero() {
    assert_eq!(TimelineId::new(3), TimelineId(vec![0, 0, 0]));
    assert_eq!(TimelineId::new(0), TimelineId(vec![]));
}

#[test]
fn update_over_range_reaches_newer_cursor() {
    let old = TimelineId(vec![2, 7, 1]);
    let new = TimelineId(vec![4, 9, 1]);
    let range = MultiBatchId::from_timeline_ids(&old, &new);
    assert_eq!(range, MultiBatchId(vec![(2, 4), (7, 9), (1, 1)]));
    let mut cur = old.clone();
    cur.update(&range);
    assert_eq!(cur, new);
}

#[test]
fn update_never_moves_a_bucket_back() {
    let old = TimelineId(vec![5, 3]);
    let new = TimelineId(vec![2, 8]);
    let mut cur = old.clone();
    cur.update(&MultiBatchId::from_timeline_ids(&old, &new));
    assert_eq!(cur, TimelineId(vec![5, 8]));
}

#[test]
fn update_with_other_bucket_count_is_ignored() {
    let mut cur = TimelineId(vec![1, 2]);
    cur.update(&MultiBatchId(vec![(0, 9)]));
    assert_eq!(cur, TimelineId(vec![1, 2]));
    cur.update(&MultiBatchId(vec![(0, 9), (0, 9), (0, 9)]));
    assert_eq!(cur, TimelineId(vec![1, 2]));
}

#[test]
fn timeline_from_vector() {
    assert_eq!(TimelineId::from(vec![4, 5]), TimelineId(vec![4, 5]));
}

#[test]
fn range_between_cursors_of_other_lengths_is_truncated() {
    let r = MultiBatchId::from_timeline_ids(&TimelineId(vec![1, 2, 3]), &TimelineId(vec![4]));
    assert_eq!(r, MultiBatchId(vec![(1, 4)]));
}

#[test]
fn batch_order_compares_last_bucket_first() {
    let a = MultiBatchId(vec![(9, 9), (1, 2)]);
    let b = MultiBatchId(vec![(0, 0), (1, 3)]);
    assert_eq!(a.cmp(&b), Ordering::Less);
    assert_eq!(b.cmp(&a), Ordering::Greater);
    let c = MultiBatchId(vec![(0, 5), (1, 2)]);
    assert_eq!(c.cmp(&a), Ordering::Less);
    assert_eq!(a.cmp(&a.clone()), Ordering::Equal);
    assert_eq!(a.partial_cmp(&b), Some(Ordering::Less));
}

#[test]
fn batch_order_shorter_suffix_is_smaller() {
    let a = MultiBatchId(vec![(1, 2)]);
    let b = MultiBatchId(vec![(0, 0), (1, 2)]);
    assert_eq!(a.cmp(&b), Ordering::Less);
    assert_eq!(b.cmp(&a), Ordering::Greater);
}

#[test]
fn retry_batches_iterate_in_batch_order() {
    let mut info = BroadcastInfo::new();
    let ids = vec![
        MultiBatchId(vec![(0, 1), (5, 6)]),
        MultiBatchId(vec![(3, 4), (0, 1)]),
        MultiBatchId(vec![(0, 2), (0, 1)]),
        MultiBatchId(vec![(9, 9), (5, 6)]),
    ];
    for id in ids {
        info.mark_retry(id);
    }
    assert_eq!(
        info.retry_batches,
        vec![
            MultiBatchId(vec![(0, 2), (0, 1)]),
            MultiBatchId(vec![(3, 4), (0, 1)]),
            MultiBatchId(vec![(0, 1), (5, 6)]),
            MultiBatchId(vec![(9, 9), (5, 6)]),
        ]
    );
}

#[test]
fn single_bucket_batch_id_orders_descending() {
    let early = BatchId(1, 5);
    let late = BatchId(4, 6);
    assert_eq!(late.cmp(&early), Ordering::Less);
    assert_eq!(early.cmp(&late), Ordering::Greater);
    assert_eq!(BatchId(4, 7).cmp(&late), Ordering::Less);
    assert_eq!(late.partial_cmp(&late), Some(Ordering::Equal));
}

#[test]
fn sent_then_retry_then_ack_forgets_batch() {
    let mut info = BroadcastInfo::new();
    let r = MultiBatchId(vec![(0, 5), (0, 3)]);
    info.record_sent(r.clone(), 1000);
    assert!(info.is_sent(&r));
    assert_eq!(info.mark_retry(r.clone()), Some(1000));
    assert!(!info.is_sent(&r));
    assert!(info.is_pending_retry(&r));
    assert_eq!(info.ack(&r), None);
    assert!(!info.is_sent(&r));
    assert!(!info.is_pending_retry(&r));
    assert_eq!(info.ack(&r), None);
}

#[test]
fn recording_a_pending_retry_drops_the_retry() {
    let mut info = BroadcastInfo::new();
    let r = MultiBatchId(vec![(1, 2)]);
    info.mark_retry(r.clone());
    info.record_sent(r.clone(), 7);
    assert!(info.is_sent(&r));
    assert!(!info.is_pending_retry(&r));
    info.record_sent(r.clone(), 9);
    assert_eq!(info.sent_batches.len(), 1);
    assert_eq!(info.sent_timestamps, vec![9]);
}

#[test]
fn backoff_toggles_leave_batches() {
    let mut info = BroadcastInfo::new();
    let r = MultiBatchId(vec![(1, 2)]);
    info.record_sent(r.clone(), 3);
    info.enable_backoff();
    assert!(info.backoff_mode);
    assert!(info.is_sent(&r));
    info.disable_backoff();
    assert!(!info.backoff_mode);
    assert!(info.is_sent(&r));
}

#[test]
fn past_deadline_is_ready_at_once() {
    let mut sb = ScheduledBroadcast::new(100, peer(1), true, 150);
    assert!(!sb.timer_armed());
    assert_eq!(sb.poll(150, 1), BroadcastPoll::Ready(peer(1), true));
    assert!(sb.is_retired());
}

#[test]
fn future_deadline_waits_and_wakes_once() {
    let mut sb = ScheduledBroadcast::new(200, peer(2), false, 100);
    assert!(sb.timer_armed());
    assert_eq!(sb.poll(120, 1), BroadcastPoll::Pending);
    assert_eq!(sb.poll(199, 2), BroadcastPoll::Pending);
    assert_eq!(sb.fire(), Some(2));
    assert_eq!(sb.fire(), None);
    assert_eq!(sb.poll(199, 4), BroadcastPoll::Pending);
    assert_eq!(sb.fire(), None);
    assert_eq!(sb.poll(200, 3), BroadcastPoll::Ready(peer(2), false));
    assert!(sb.is_retired());
}

#[test]
fn deadline_grows_in_backoff_and_saturates() {
    assert_eq!(broadcast_deadline(1000, 50, 4, false), 1050);
    assert_eq!(broadcast_deadline(1000, 50, 4, true), 1200);
    assert_eq!(broadcast_deadline(u64::MAX - 10, 50, 4, false), u64::MAX);
    assert_eq!(broadcast_deadline(0, u64::MAX, 2, true), u64::MAX);
}

#[test]
fn backoff_peer_is_scheduled_later() {
    let mut mp = SharedMempool::new(config());
    assert!(mp.on_connect(peer(1)));
    assert!(mp.on_connect(peer(2)));
    assert!(mp.on_send_failure(peer(1)));
    let a = mp.schedule_broadcast(peer(1), 1000).unwrap();
    let b = mp.schedule_broadcast(peer(2), 1000).unwrap();
    assert!(a.deadline() > b.deadline());
    assert_eq!(a.deadline(), 1200);
    assert_eq!(b.deadline(), 1050);
    assert!(mp.schedule_broadcast(peer(3), 1000).is_none());
}

#[test]
fn end_to_end_ack_then_empty_range_is_skipped() {
    let mut mp = SharedMempool::new(config());
    assert!(mp.on_connect(peer(7)));
    let storage = TimelineId(vec![5, 3]);
    let batch = mp.next_batch(peer(7), &storage).unwrap();
    assert_eq!(batch, MultiBatchId(vec![(0, 5), (0, 3)]));
    assert!(mp.record_broadcast(peer(7), batch.clone(), 10));
    assert!(mp.handle_ack(peer(7), batch, false, false));
    let i = mp.find_peer(peer(7)).unwrap();
    assert_eq!(mp.peer_state(i).timeline_id, TimelineId(vec![5, 3]));
    let again = MultiBatchId::from_timeline_ids(&mp.peer_state(i).timeline_id, &storage);
    assert_eq!(again, MultiBatchId(vec![(5, 5), (3, 3)]));
    assert!(again.is_empty_range());
    assert_eq!(mp.next_batch(peer(7), &storage), None);
}

#[test]
fn retry_ack_resends_before_new_range() {
    let mut mp = SharedMempool::new(config());
    mp.on_connect(peer(1));
    let first = MultiBatchId(vec![(0, 2), (0, 1)]);
    mp.record_broadcast(peer(1), first.clone(), 5);
    assert!(mp.handle_ack(peer(1), first.clone(), true, true));
    let i = mp.find_peer(peer(1)).unwrap();
    assert_eq!(mp.peer_state(i).timeline_id, TimelineId(vec![0, 0]));
    assert!(mp.peer_state(i).broadcast_info.backoff_mode);
    assert_eq!(mp.next_batch(peer(1), &TimelineId(vec![9, 9])), Some(first));
}

#[test]
fn outstanding_window_full_sends_nothing() {
    let mut mp = SharedMempool::new(config());
    mp.on_connect(peer(1));
    mp.record_broadcast(peer(1), MultiBatchId(vec![(0, 1), (0, 0)]), 1);
    mp.record_broadcast(peer(1), MultiBatchId(vec![(1, 2), (0, 0)]), 2);
    assert_eq!(mp.next_batch(peer(1), &TimelineId(vec![9, 9])), None);
}

#[test]
fn peer_lifecycle() {
    let mut mp = SharedMempool::new(config());
    assert!(mp.broadcast_within_validator_network());
    assert!(mp.on_connect(peer(1)));
    assert!(!mp.on_connect(peer(1)));
    assert_eq!(mp.num_peers(), 1);
    assert_eq!(mp.peer_state(0).timeline_id, TimelineId(vec![0, 0]));
    assert!(!mp.handle_ack(peer(2), MultiBatchId(vec![]), false, false));
    assert!(mp.on_disconnect(peer(1)));
    assert!(!mp.on_disconnect(peer(1)));
    assert_eq!(mp.num_peers(), 0);
    assert_eq!(mp.find_peer(peer(1)), None);
}
