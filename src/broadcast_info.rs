//! Per-peer broadcast bookkeeping: batches sent and not yet acknowledged,
//! batches waiting to be sent again, and the backoff flag.
use vstd::prelude::*;

use crate::timeline::{batch_lt, lemma_batch_order_strict_total, MultiBatchId};

verus! {

/// The identifiers in `s` are strictly increasing in the batch order.
pub open spec fn sorted_batches(s: Seq<Seq<(u64, u64)>>) -> bool {
    forall|i: int, j: int| 0 <= i < j < s.len() ==> batch_lt(#[trigger] s[i], #[trigger] s[j])
}

/// The entries of a sent-batch set other than the one for `k`.
pub open spec fn without_batch(sent: Set<(Seq<(u64, u64)>, u64)>, k: Seq<(u64, u64)>) -> Set<
    (Seq<(u64, u64)>, u64),
> {
    sent.filter(|e: (Seq<(u64, u64)>, u64)| e.0 != k)
}

/// The sent-batch set after recording `k` as sent at `t`.
pub open spec fn with_batch(sent: Set<(Seq<(u64, u64)>, u64)>, k: Seq<(u64, u64)>, t: u64) -> Set<
    (Seq<(u64, u64)>, u64),
> {
    without_batch(sent, k).insert((k, t))
}

/// Whether some entry of `sent` is for `k`.
pub open spec fn has_batch(sent: Set<(Seq<(u64, u64)>, u64)>, k: Seq<(u64, u64)>) -> bool {
    exists|t: u64| sent.contains((k, t))
}

/// Recording a batch as sent, then marking it for a retry, then acknowledging
/// it, leaves it neither sent nor waiting for a retry.
pub proof fn lemma_sent_retry_ack_forgets(
    sent: Set<(Seq<(u64, u64)>, u64)>,
    retry: Set<Seq<(u64, u64)>>,
    batch: Seq<(u64, u64)>,
    t: u64,
)
    ensures
        ({
            let sent1 = with_batch(sent, batch, t);
            let retry1 = retry.remove(batch);
            let sent2 = without_batch(sent1, batch);
            let retry2 = retry1.insert(batch);
            let sent3 = without_batch(sent2, batch);
            let retry3 = retry2.remove(batch);
            !has_batch(sent3, batch) && !retry3.contains(batch)
        }),
{
}

/// A well-formed state holds one timestamp for each sent batch.
pub proof fn lemma_one_timestamp_per_batch(info: BroadcastInfo, batch: Seq<(u64, u64)>, t1: u64, t2: u64)
    requires
        info.wf(),
        info.sent_set().contains((batch, t1)),
        info.sent_set().contains((batch, t2)),
    ensures
        t1 == t2,
{
    let keys = info.sent_keys();
    let times = info.sent_timestamps@;
    let e = sent_entries(keys, times);
    lemma_sorted_no_duplicates(keys, times);
    let i = choose|i: int| 0 <= i < e.len() && e[i] == (batch, t1);
    let j = choose|j: int| 0 <= j < e.len() && e[j] == (batch, t2);
    assert(keys[i] == keys[j]);
}

proof fn lemma_sorted_gap(s: Seq<Seq<(u64, u64)>>, idx: int, x: Seq<(u64, u64)>)
    requires
        sorted_batches(s),
        0 <= idx < s.len(),
        batch_lt(x, s[idx]),
    ensures
        forall|k: int| idx <= k < s.len() ==> batch_lt(x, #[trigger] s[k]),
{
    assert forall|k: int| idx <= k < s.len() implies batch_lt(x, #[trigger] s[k]) by {
        if k > idx {
            lemma_batch_order_strict_total(x, s[idx], s[k]);
        }
    }
}

proof fn lemma_sorted_insert(s: Seq<Seq<(u64, u64)>>, idx: int, x: Seq<(u64, u64)>)
    requires
        sorted_batches(s),
        0 <= idx <= s.len(),
        forall|k: int| 0 <= k < idx ==> batch_lt(#[trigger] s[k], x),
        forall|k: int| idx <= k < s.len() ==> batch_lt(x, #[trigger] s[k]),
    ensures
        sorted_batches(s.insert(idx, x)),
        s.insert(idx, x).to_set() == s.to_set().insert(x),
{
    let t = s.insert(idx, x);
    assert forall|i: int, j: int| 0 <= i < j < t.len() implies batch_lt(#[trigger] t[i], #[trigger] t[j]) by {
        if j < idx {
            assert(t[i] == s[i] && t[j] == s[j]);
        } else if j == idx {
            assert(t[i] == s[i]);
        } else if i < idx {
            assert(t[i] == s[i] && t[j] == s[j - 1]);
        } else if i == idx {
            assert(t[j] == s[j - 1]);
        } else {
            assert(t[i] == s[i - 1] && t[j] == s[j - 1]);
        }
    }
    assert forall|y: Seq<(u64, u64)>| t.to_set().contains(y) <==> s.to_set().insert(x).contains(y) by {
        if t.contains(y) {
            let i = choose|i: int| 0 <= i < t.len() && t[i] == y;
            if i < idx {
                assert(s[i] == y);
            } else if i > idx {
                assert(s[i - 1] == y);
            }
        }
        if s.contains(y) {
            let i = choose|i: int| 0 <= i < s.len() && s[i] == y;
            if i < idx {
                assert(t[i] == y);
            } else {
                assert(t[i + 1] == y);
            }
        }
        if y == x {
            assert(t[idx] == x);
        }
    }
    assert(t.to_set() =~= s.to_set().insert(x));
}

proof fn lemma_sorted_remove(s: Seq<Seq<(u64, u64)>>, idx: int)
    requires
        sorted_batches(s),
        0 <= idx < s.len(),
    ensures
        sorted_batches(s.remove(idx)),
        s.remove(idx).to_set() == s.to_set().remove(s[idx]),
{
    let t = s.remove(idx);
    assert forall|i: int, j: int| 0 <= i < j < t.len() implies batch_lt(#[trigger] t[i], #[trigger] t[j]) by {
        if j < idx {
            assert(t[i] == s[i] && t[j] == s[j]);
        } else if i < idx {
            assert(t[i] == s[i] && t[j] == s[j + 1]);
        } else {
            assert(t[i] == s[i + 1] && t[j] == s[j + 1]);
        }
    }
    assert forall|y: Seq<(u64, u64)>| t.to_set().contains(y) <==> s.to_set().remove(s[idx]).contains(y) by {
        if t.contains(y) {
            let i = choose|i: int| 0 <= i < t.len() && t[i] == y;
            if i < idx {
                assert(s[i] == y);
                assert(batch_lt(s[i], s[idx]));
            } else {
                assert(s[i + 1] == y);
                assert(batch_lt(s[idx], s[i + 1]));
            }
            lemma_batch_order_strict_total(y, y, y);
        }
        if s.contains(y) && y != s[idx] {
            let i = choose|i: int| 0 <= i < s.len() && s[i] == y;
            if i < idx {
                assert(t[i] == y);
            } else {
                assert(t[i - 1] == y);
            }
        }
    }
    assert(t.to_set() =~= s.to_set().remove(s[idx]));
}

/// Where `x` belongs in the sorted `s`: the first index whose identifier is
/// not below `x`, and whether `x` stands there.
fn find_position(s: &Vec<MultiBatchId>, x: &MultiBatchId) -> (res: (usize, bool))
    requires
        sorted_batches(batch_views(s@)),
    ensures
        res.0 <= s@.len(),
        forall|k: int| 0 <= k < res.0 ==> batch_lt(#[trigger] batch_views(s@)[k], x@),
        res.1 == (res.0 < s@.len() && s@[res.0 as int]@ == x@),
        !res.1 ==> forall|k: int| res.0 <= k < s@.len() ==> batch_lt(x@, #[trigger] batch_views(s@)[k]),
{
    let ghost v = batch_views(s@);
    let mut i: usize = 0;
    while i < s.len()
        invariant
            v == batch_views(s@),
            sorted_batches(v),
            i <= s@.len(),
            forall|k: int| 0 <= k < i ==> batch_lt(#[trigger] v[k], x@),
        decreases s@.len() - i,
    {
        let c = s[i].cmp(x);
        proof {
            lemma_batch_order_strict_total(v[i as int], x@, x@);
            lemma_batch_order_strict_total(x@, v[i as int], x@);
        }
        match c {
            std::cmp::Ordering::Less => {
                i = i + 1;
            },
            std::cmp::Ordering::Equal => {
                return (i, true);
            },
            std::cmp::Ordering::Greater => {
                proof {
                    lemma_sorted_gap(v, i as int, x@);
                }
                return (i, false);
            },
        }
    }
    (i, false)
}

/// The identifiers of a sequence of batch ids.
pub open spec fn batch_views(s: Seq<MultiBatchId>) -> Seq<Seq<(u64, u64)>> {
    Seq::new(s.len(), |i: int| s[i]@)
}

proof fn lemma_to_set_insert<A>(s: Seq<A>, idx: int, x: A)
    requires
        0 <= idx <= s.len(),
    ensures
        s.insert(idx, x).to_set() == s.to_set().insert(x),
{
    let t = s.insert(idx, x);
    assert forall|y: A| t.to_set().contains(y) <==> s.to_set().insert(x).contains(y) by {
        if t.contains(y) {
            let i = choose|i: int| 0 <= i < t.len() && t[i] == y;
            if i < idx {
                assert(s[i] == y);
            } else if i > idx {
                assert(s[i - 1] == y);
            }
        }
        if s.contains(y) {
            let i = choose|i: int| 0 <= i < s.len() && s[i] == y;
            if i < idx {
                assert(t[i] == y);
            } else {
                assert(t[i + 1] == y);
            }
        }
        if y == x {
            assert(t[idx] == x);
        }
    }
    assert(t.to_set() =~= s.to_set().insert(x));
}

proof fn lemma_to_set_remove<A>(s: Seq<A>, idx: int)
    requires
        0 <= idx < s.len(),
        s.no_duplicates(),
    ensures
        s.remove(idx).to_set() == s.to_set().remove(s[idx]),
{
    let t = s.remove(idx);
    assert forall|y: A| t.to_set().contains(y) <==> s.to_set().remove(s[idx]).contains(y) by {
        if t.contains(y) {
            let i = choose|i: int| 0 <= i < t.len() && t[i] == y;
            if i < idx {
                assert(s[i] == y);
            } else {
                assert(s[i + 1] == y);
            }
        }
        if s.contains(y) && y != s[idx] {
            let i = choose|i: int| 0 <= i < s.len() && s[i] == y;
            if i < idx {
                assert(t[i] == y);
            } else {
                assert(t[i - 1] == y);
            }
        }
    }
    assert(t.to_set() =~= s.to_set().remove(s[idx]));
}

/// The sent entries `(identifier, timestamp)` of parallel sequences.
pub open spec fn sent_entries(keys: Seq<Seq<(u64, u64)>>, times: Seq<u64>) -> Seq<(Seq<(u64, u64)>, u64)> {
    Seq::new(keys.len(), |i: int| (keys[i], times[i]))
}

proof fn lemma_sorted_no_duplicates(keys: Seq<Seq<(u64, u64)>>, times: Seq<u64>)
    requires
        sorted_batches(keys),
        keys.len() == times.len(),
    ensures
        keys.no_duplicates(),
        sent_entries(keys, times).no_duplicates(),
        forall|i: int, j: int| 0 <= i < keys.len() && 0 <= j < keys.len() && keys[i] == keys[j] ==> i == j,
{
    assert forall|i: int, j: int| 0 <= i < keys.len() && 0 <= j < keys.len() && keys[i] == keys[j] implies i == j by {
        lemma_batch_order_strict_total(keys[i], keys[i], keys[i]);
        if i < j {
            assert(batch_lt(keys[i], keys[j]));
        } else if j < i {
            assert(batch_lt(keys[j], keys[i]));
        }
    }
    let e = sent_entries(keys, times);
    assert forall|i: int, j: int| 0 <= i < e.len() && 0 <= j < e.len() && i != j implies e[i] != e[j] by {
        assert(e[i].0 == keys[i] && e[j].0 == keys[j]);
    }
}

/// Removing the entries for `keys[idx]` from the entry set is removing entry `idx`.
proof fn lemma_without_present(keys: Seq<Seq<(u64, u64)>>, times: Seq<u64>, idx: int)
    requires
        sorted_batches(keys),
        keys.len() == times.len(),
        0 <= idx < keys.len(),
    ensures
        without_batch(sent_entries(keys, times).to_set(), keys[idx]) == sent_entries(keys, times).to_set().remove(
            sent_entries(keys, times)[idx],
        ),
        sent_entries(keys, times).remove(idx).to_set() == sent_entries(keys, times).to_set().remove(
            sent_entries(keys, times)[idx],
        ),
{
    let e = sent_entries(keys, times);
    lemma_sorted_no_duplicates(keys, times);
    lemma_to_set_remove(e, idx);
    assert forall|y: (Seq<(u64, u64)>, u64)| without_batch(e.to_set(), keys[idx]).contains(y) <==> e.to_set().remove(e[idx]).contains(y) by {
        if e.contains(y) {
            let i = choose|i: int| 0 <= i < e.len() && e[i] == y;
            assert(e[i].0 == keys[i]);
        }
    }
    assert(without_batch(e.to_set(), keys[idx]) =~= e.to_set().remove(e[idx]));
}

/// Where no key is `k`, removing the entries for `k` changes nothing.
proof fn lemma_without_absent(keys: Seq<Seq<(u64, u64)>>, times: Seq<u64>, k: Seq<(u64, u64)>)
    requires
        keys.len() == times.len(),
        forall|i: int| 0 <= i < keys.len() ==> #[trigger] keys[i] != k,
    ensures
        without_batch(sent_entries(keys, times).to_set(), k) == sent_entries(keys, times).to_set(),
        !has_batch(sent_entries(keys, times).to_set(), k),
{
    let e = sent_entries(keys, times);
    assert forall|y: (Seq<(u64, u64)>, u64)| e.to_set().contains(y) implies y.0 != k by {
        let i = choose|i: int| 0 <= i < e.len() && e[i] == y;
        assert(e[i].0 == keys[i]);
    }
    assert(without_batch(e.to_set(), k) =~= e.to_set());
}

/// Broadcast state kept for one remote peer.
pub struct BroadcastInfo {
    /// Batches sent and not yet acknowledged, in increasing batch order.
    pub sent_batches: Vec<MultiBatchId>,
    /// When each of `sent_batches` was sent, in milliseconds since the Unix epoch.
    pub sent_timestamps: Vec<u64>,
    /// Batches that received a retry acknowledgement and wait to be sent again,
    /// in increasing batch order.
    pub retry_batches: Vec<MultiBatchId>,
    /// Whether broadcasts to this peer go out at the longer, backoff interval.
    pub backoff_mode: bool,
}

impl BroadcastInfo {
    pub open spec fn sent_keys(&self) -> Seq<Seq<(u64, u64)>> {
        batch_views(self.sent_batches@)
    }

    pub open spec fn retry_keys(&self) -> Seq<Seq<(u64, u64)>> {
        batch_views(self.retry_batches@)
    }

    /// The sent batches with their timestamps.
    pub open spec fn sent_set(&self) -> Set<(Seq<(u64, u64)>, u64)> {
        sent_entries(self.sent_keys(), self.sent_timestamps@).to_set()
    }

    /// The batches waiting to be sent again.
    pub open spec fn retry_set(&self) -> Set<Seq<(u64, u64)>> {
        self.retry_keys().to_set()
    }

    /// Both collections are kept sorted, one timestamp per sent batch, and no
    /// batch is both sent and waiting for a retry.
    pub open spec fn wf(&self) -> bool {
        &&& sorted_batches(self.sent_keys())
        &&& sorted_batches(self.retry_keys())
        &&& self.sent_timestamps@.len() == self.sent_batches@.len()
        &&& self.sent_keys().to_set().disjoint(self.retry_set())
    }

    pub fn new() -> (r: Self)
        ensures
            r.wf(),
            r.sent_set() == Set::<(Seq<(u64, u64)>, u64)>::empty(),
            r.retry_set() == Set::<Seq<(u64, u64)>>::empty(),
            !r.backoff_mode,
    {
        let r = BroadcastInfo {
            sent_batches: Vec::new(),
            sent_timestamps: Vec::new(),
            retry_batches: Vec::new(),
            backoff_mode: false,
        };
        assert(r.sent_set() =~= Set::<(Seq<(u64, u64)>, u64)>::empty());
        assert(r.retry_set() =~= Set::<Seq<(u64, u64)>>::empty());
        r
    }

    fn take_retry(&mut self, r: &MultiBatchId)
        requires
            sorted_batches(old(self).retry_keys()),
        ensures
            sorted_batches(final(self).retry_keys()),
            final(self).retry_set() == old(self).retry_set().remove(r@),
            final(self).sent_batches == old(self).sent_batches,
            final(self).sent_timestamps == old(self).sent_timestamps,
            final(self).backoff_mode == old(self).backoff_mode,
    {
        let (i, found) = find_position(&self.retry_batches, r);
        if found {
            proof {
                lemma_sorted_remove(self.retry_keys(), i as int);
            }
            let _ = self.retry_batches.remove(i);
            assert(self.retry_keys() =~= old(self).retry_keys().remove(i as int));
        } else {
            proof {
                lemma_absent(self.retry_keys(), i as int, r@);
            }
        }
    }

    fn put_retry(&mut self, r: MultiBatchId)
        requires
            sorted_batches(old(self).retry_keys()),
        ensures
            sorted_batches(final(self).retry_keys()),
            final(self).retry_set() == old(self).retry_set().insert(r@),
            final(self).sent_batches == old(self).sent_batches,
            final(self).sent_timestamps == old(self).sent_timestamps,
            final(self).backoff_mode == old(self).backoff_mode,
    {
        let (i, found) = find_position(&self.retry_batches, &r);
        if !found {
            proof {
                lemma_sorted_insert(self.retry_keys(), i as int, r@);
            }
            self.retry_batches.insert(i, r);
            assert(self.retry_keys() =~= old(self).retry_keys().insert(i as int, r@));
        } else {
            assert(self.retry_keys()[i as int] == r@);
            assert(self.retry_set().insert(r@) =~= self.retry_set());
        }
    }

    fn take_sent(&mut self, r: &MultiBatchId) -> (res: Option<u64>)
        requires
            sorted_batches(old(self).sent_keys()),
            old(self).sent_timestamps@.len() == old(self).sent_batches@.len(),
        ensures
            sorted_batches(final(self).sent_keys()),
            final(self).sent_timestamps@.len() == final(self).sent_batches@.len(),
            final(self).sent_set() == without_batch(old(self).sent_set(), r@),
            final(self).sent_keys().to_set() == old(self).sent_keys().to_set().remove(r@),
            res is Some <==> has_batch(old(self).sent_set(), r@),
            res matches Some(t) ==> old(self).sent_set().contains((r@, t)),
            final(self).retry_batches == old(self).retry_batches,
            final(self).backoff_mode == old(self).backoff_mode,
    {
        let ghost keys = self.sent_keys();
        let ghost times = self.sent_timestamps@;
        let (i, found) = find_position(&self.sent_batches, r);
        if found {
            proof {
                lemma_sorted_remove(keys, i as int);
                lemma_without_present(keys, times, i as int);
                assert(sent_entries(keys, times)[i as int] == (r@, times[i as int]));
                assert(sent_entries(keys, times).to_set().contains((r@, times[i as int])));
            }
            let _ = self.sent_batches.remove(i);
            let t = self.sent_timestamps.remove(i);
            assert(self.sent_keys() =~= keys.remove(i as int));
            assert(sent_entries(self.sent_keys(), self.sent_timestamps@) =~= sent_entries(keys, times).remove(i as int));
            Some(t)
        } else {
            proof {
                lemma_absent(keys, i as int, r@);
                lemma_without_absent(keys, times, r@);
            }
            None
        }
    }

    fn put_sent(&mut self, r: MultiBatchId, t: u64)
        requires
            sorted_batches(old(self).sent_keys()),
            old(self).sent_timestamps@.len() == old(self).sent_batches@.len(),
        ensures
            sorted_batches(final(self).sent_keys()),
            final(self).sent_timestamps@.len() == final(self).sent_batches@.len(),
            final(self).sent_set() == with_batch(old(self).sent_set(), r@, t),
            final(self).sent_keys().to_set() == old(self).sent_keys().to_set().insert(r@),
            final(self).retry_batches == old(self).retry_batches,
            final(self).backoff_mode == old(self).backoff_mode,
    {
        let ghost keys = self.sent_keys();
        let ghost times = self.sent_timestamps@;
        let ghost e = sent_entries(keys, times);
        let (i, found) = find_position(&self.sent_batches, &r);
        if found {
            proof {
                lemma_without_present(keys, times, i as int);
                lemma_sorted_no_duplicates(keys, times);
                lemma_to_set_insert(e.remove(i as int), i as int, (r@, t));
                assert(keys.to_set().contains(r@)) by {
                    assert(keys[i as int] == r@);
                }
                assert(keys.to_set().insert(r@) =~= keys.to_set());
            }
            self.sent_timestamps.set(i, t);
            assert(self.sent_keys() =~= keys);
            assert(sent_entries(self.sent_keys(), self.sent_timestamps@) =~= e.remove(i as int).insert(i as int, (r@, t)));
        } else {
            proof {
                lemma_absent(keys, i as int, r@);
                lemma_without_absent(keys, times, r@);
                lemma_sorted_insert(keys, i as int, r@);
                lemma_to_set_insert(e, i as int, (r@, t));
            }
            self.sent_batches.insert(i, r);
            self.sent_timestamps.insert(i, t);
            assert(self.sent_keys() =~= keys.insert(i as int, r@));
            assert(sent_entries(self.sent_keys(), self.sent_timestamps@) =~= e.insert(i as int, (r@, t)));
        }
    }

    /// Records `batch_id` as sent at `timestamp`. A pending retry of the same
    /// batch is dropped, so that no batch is both sent and waiting for a retry.
    pub fn record_sent(&mut self, batch_id: MultiBatchId, timestamp: u64)
        requires
            old(self).wf(),
        ensures
            final(self).wf(),
            final(self).sent_set() == with_batch(old(self).sent_set(), batch_id@, timestamp),
            final(self).retry_set() == old(self).retry_set().remove(batch_id@),
            final(self).backoff_mode == old(self).backoff_mode,
    {
        self.take_retry(&batch_id);
        self.put_sent(batch_id, timestamp);
    }

    /// Moves `batch_id` from the sent batches to those waiting for a retry,
    /// and returns the time it was sent, if it was.
    pub fn mark_retry(&mut self, batch_id: MultiBatchId) -> (r: Option<u64>)
        requires
            old(self).wf(),
        ensures
            final(self).wf(),
            final(self).sent_set() == without_batch(old(self).sent_set(), batch_id@),
            final(self).retry_set() == old(self).retry_set().insert(batch_id@),
            final(self).backoff_mode == old(self).backoff_mode,
            r is Some <==> has_batch(old(self).sent_set(), batch_id@),
            r matches Some(t) ==> old(self).sent_set().contains((batch_id@, t)),
    {
        let r = self.take_sent(&batch_id);
        self.put_retry(batch_id);
        r
    }

    /// Forgets `batch_id` in both collections, and returns the time it was
    /// sent, if it was.
    pub fn ack(&mut self, batch_id: &MultiBatchId) -> (r: Option<u64>)
        requires
            old(self).wf(),
        ensures
            final(self).wf(),
            final(self).sent_set() == without_batch(old(self).sent_set(), batch_id@),
            final(self).retry_set() == old(self).retry_set().remove(batch_id@),
            final(self).backoff_mode == old(self).backoff_mode,
            r is Some <==> has_batch(old(self).sent_set(), batch_id@),
            r matches Some(t) ==> old(self).sent_set().contains((batch_id@, t)),
    {
        let r = self.take_sent(batch_id);
        self.take_retry(batch_id);
        r
    }

    pub fn enable_backoff(&mut self)
        requires
            old(self).wf(),
        ensures
            final(self).wf(),
            final(self).backoff_mode,
            final(self).sent_set() == old(self).sent_set(),
            final(self).retry_set() == old(self).retry_set(),
    {
        self.backoff_mode = true;
    }

    pub fn disable_backoff(&mut self)
        requires
            old(self).wf(),
        ensures
            final(self).wf(),
            !final(self).backoff_mode,
            final(self).sent_set() == old(self).sent_set(),
            final(self).retry_set() == old(self).retry_set(),
    {
        self.backoff_mode = false;
    }

    /// Whether `batch_id` is sent and not yet acknowledged.
    pub fn is_sent(&self, batch_id: &MultiBatchId) -> (r: bool)
        requires
            self.wf(),
        ensures
            r == has_batch(self.sent_set(), batch_id@),
    {
        let ghost keys = self.sent_keys();
        let ghost times = self.sent_timestamps@;
        let (i, found) = find_position(&self.sent_batches, batch_id);
        proof {
            if found {
                assert(sent_entries(keys, times)[i as int] == (batch_id@, times[i as int]));
                assert(sent_entries(keys, times).to_set().contains((batch_id@, times[i as int])));
            } else {
                lemma_absent(keys, i as int, batch_id@);
                lemma_without_absent(keys, times, batch_id@);
            }
        }
        found
    }

    /// Whether `batch_id` waits to be sent again.
    pub fn is_pending_retry(&self, batch_id: &MultiBatchId) -> (r: bool)
        requires
            self.wf(),
        ensures
            r == self.retry_set().contains(batch_id@),
    {
        let (i, found) = find_position(&self.retry_batches, batch_id);
        proof {
            if found {
                assert(self.retry_keys()[i as int] == batch_id@);
            } else {
                lemma_absent(self.retry_keys(), i as int, batch_id@);
            }
        }
        found
    }
}

proof fn lemma_absent(s: Seq<Seq<(u64, u64)>>, idx: int, x: Seq<(u64, u64)>)
    requires
        0 <= idx <= s.len(),
        forall|k: int| 0 <= k < idx ==> batch_lt(#[trigger] s[k], x),
        forall|k: int| idx <= k < s.len() ==> batch_lt(x, #[trigger] s[k]),
    ensures
        forall|k: int| 0 <= k < s.len() ==> #[trigger] s[k] != x,
        !s.to_set().contains(x),
        s.to_set().remove(x) == s.to_set(),
{
    lemma_batch_order_strict_total(x, x, x);
    assert forall|k: int| 0 <= k < s.len() implies #[trigger] s[k] != x by {
        if k < idx {
            assert(batch_lt(s[k], x));
        } else {
            assert(batch_lt(x, s[k]));
        }
    }
    assert(s.to_set().remove(x) =~= s.to_set());
}

} // verus!
