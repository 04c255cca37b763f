//! Timeline cursors and the batch identifiers derived from them.
use vstd::prelude::*;

verus! {

/// Lexicographic comparison of two `(start, end)` pairs: -1, 0 or 1.
pub open spec fn pair_cmp(p: (u64, u64), q: (u64, u64)) -> int {
    if p.0 < q.0 {
        -1
    } else if p.0 > q.0 {
        1
    } else if p.1 < q.1 {
        -1
    } else if p.1 > q.1 {
        1
    } else {
        0
    }
}

/// Compares `a` and `b` from the last bucket towards the first, starting `i`
/// buckets from the end. The first unequal pair decides; when one runs out
/// first, the shorter one is smaller.
pub open spec fn batch_cmp_from(a: Seq<(u64, u64)>, b: Seq<(u64, u64)>, i: nat) -> int
    decreases a.len() - i,
{
    if i >= a.len() && i >= b.len() {
        0
    } else if i >= a.len() {
        -1
    } else if i >= b.len() {
        1
    } else {
        let c = pair_cmp(a[a.len() - 1 - i], b[b.len() - 1 - i]);
        if c != 0 {
            c
        } else {
            batch_cmp_from(a, b, i + 1)
        }
    }
}

/// The order of batch identifiers: -1 when `a` comes first, 0 when equal, 1 otherwise.
pub open spec fn batch_cmp(a: Seq<(u64, u64)>, b: Seq<(u64, u64)>) -> int {
    batch_cmp_from(a, b, 0)
}

pub open spec fn batch_lt(a: Seq<(u64, u64)>, b: Seq<(u64, u64)>) -> bool {
    batch_cmp(a, b) < 0
}

pub open spec fn ordering_of(c: int) -> std::cmp::Ordering {
    if c < 0 {
        std::cmp::Ordering::Less
    } else if c > 0 {
        std::cmp::Ordering::Greater
    } else {
        std::cmp::Ordering::Equal
    }
}

/// The pair `k` buckets from the end.
pub open spec fn rev_at(a: Seq<(u64, u64)>, k: int) -> (u64, u64) {
    a[a.len() - 1 - k]
}

proof fn lemma_cmp_from_antisym(a: Seq<(u64, u64)>, b: Seq<(u64, u64)>, i: nat)
    ensures
        batch_cmp_from(a, b, i) == -batch_cmp_from(b, a, i),
        -1 <= batch_cmp_from(a, b, i) <= 1,
    decreases a.len() - i,
{
    if i < a.len() && i < b.len() {
        lemma_cmp_from_antisym(a, b, i + 1);
    }
}

proof fn lemma_cmp_from_zero(a: Seq<(u64, u64)>, b: Seq<(u64, u64)>, i: nat)
    requires
        i <= a.len(),
        i <= b.len(),
    ensures
        batch_cmp_from(a, b, i) == 0 <==> (a.len() == b.len() && forall|k: int|
            i <= k < a.len() ==> #[trigger] rev_at(a, k) == rev_at(b, k)),
    decreases a.len() - i,
{
    if i < a.len() && i < b.len() {
        lemma_cmp_from_zero(a, b, i + 1);
        if a.len() == b.len() && forall|k: int| i <= k < a.len() ==> #[trigger] rev_at(a, k) == rev_at(b, k) {
            assert(rev_at(a, i as int) == rev_at(b, i as int));
        }
    }
}

proof fn lemma_cmp_from_trans(a: Seq<(u64, u64)>, b: Seq<(u64, u64)>, c: Seq<(u64, u64)>, i: nat)
    requires
        batch_cmp_from(a, b, i) < 0,
        batch_cmp_from(b, c, i) < 0,
    ensures
        batch_cmp_from(a, c, i) < 0,
    decreases a.len() - i,
{
    if i < a.len() && i < b.len() && i < c.len() {
        if pair_cmp(a[a.len() - 1 - i], b[b.len() - 1 - i]) == 0 && pair_cmp(
            b[b.len() - 1 - i],
            c[c.len() - 1 - i],
        ) == 0 {
            lemma_cmp_from_trans(a, b, c, i + 1);
        }
    }
}

/// The order of batch identifiers is a strict total order: irreflexive,
/// asymmetric, transitive, and any two different identifiers are comparable.
pub proof fn lemma_batch_order_strict_total(a: Seq<(u64, u64)>, b: Seq<(u64, u64)>, c: Seq<(u64, u64)>)
    ensures
        !batch_lt(a, a),
        batch_lt(a, b) ==> !batch_lt(b, a),
        batch_lt(a, b) && batch_lt(b, c) ==> batch_lt(a, c),
        a != b ==> batch_lt(a, b) || batch_lt(b, a),
        batch_cmp(a, b) == 0 <==> a == b,
{
    lemma_cmp_from_antisym(a, b, 0);
    lemma_cmp_from_zero(a, a, 0);
    lemma_cmp_from_zero(a, b, 0);
    if batch_lt(a, b) && batch_lt(b, c) {
        lemma_cmp_from_trans(a, b, c, 0);
    }
    if batch_cmp(a, b) == 0 {
        assert(a =~= b) by {
            assert forall|k: int| 0 <= k < a.len() implies a[k] == b[k] by {
                assert(rev_at(a, a.len() - 1 - k) == rev_at(b, a.len() - 1 - k));
            }
        }
    }
}

/// The watermarks after advancing each bucket of `cur` to the end of the
/// matching pair of `batch`.
pub open spec fn advanced(cur: Seq<u64>, batch: Seq<(u64, u64)>) -> Seq<u64> {
    Seq::new(cur.len(), |i: int| if cur[i] >= batch[i].1 { cur[i] } else { batch[i].1 })
}

/// The pairs `(old[i], new[i])`, as long as the shorter of the two.
pub open spec fn zipped(old: Seq<u64>, new: Seq<u64>) -> Seq<(u64, u64)> {
    Seq::new(
        if old.len() <= new.len() { old.len() } else { new.len() },
        |i: int| (old[i], new[i]),
    )
}

/// Advancing a cursor over the range from it to another cursor of the same
/// length never moves a bucket back, and reaches the other cursor when that
/// one is at or past it in every bucket.
pub proof fn lemma_update_over_range(old: Seq<u64>, new: Seq<u64>)
    requires
        old.len() == new.len(),
    ensures
        zipped(old, new).len() == old.len(),
        advanced(old, zipped(old, new)).len() == old.len(),
        forall|i: int| 0 <= i < old.len() ==> #[trigger] advanced(old, zipped(old, new))[i] >= old[i],
        (forall|i: int| 0 <= i < old.len() ==> old[i] <= #[trigger] new[i]) ==> advanced(old, zipped(old, new))
            == new,
{
    if forall|i: int| 0 <= i < old.len() ==> old[i] <= #[trigger] new[i] {
        assert(advanced(old, zipped(old, new)) =~= new);
    }
}

/// Identifier of a batch sent under a single bucket: `(start, end)` of the
/// timeline range that produced it. It orders descending, so that the batch
/// that started last is the largest.
#[derive(Clone, Copy, Debug, PartialEq, Eq, Hash, Structural)]
pub struct BatchId(pub u64, pub u64);

impl BatchId {
    pub open spec fn cmp_spec(self, other: BatchId) -> int {
        pair_cmp((other.0, other.1), (self.0, self.1))
    }

    pub fn cmp(&self, other: &BatchId) -> (r: std::cmp::Ordering)
        ensures
            r == ordering_of(self.cmp_spec(*other)),
    {
        if other.0 < self.0 {
            std::cmp::Ordering::Less
        } else if other.0 > self.0 {
            std::cmp::Ordering::Greater
        } else if other.1 < self.1 {
            std::cmp::Ordering::Less
        } else if other.1 > self.1 {
            std::cmp::Ordering::Greater
        } else {
            std::cmp::Ordering::Equal
        }
    }

    pub fn partial_cmp(&self, other: &BatchId) -> (r: Option<std::cmp::Ordering>)
        ensures
            r == Some(ordering_of(self.cmp_spec(*other))),
    {
        Some(self.cmp(other))
    }
}

/// Per-peer progress: one watermark per priority bucket.
#[derive(Clone, Debug, PartialEq, Eq, Hash)]
pub struct TimelineId(pub Vec<u64>);

impl View for TimelineId {
    type V = Seq<u64>;

    open spec fn view(&self) -> Seq<u64> {
        self.0@
    }
}

impl TimelineId {
    /// A cursor of `num_buckets` buckets, all at zero.
    pub fn new(num_buckets: usize) -> (r: Self)
        ensures
            r@ == Seq::new(num_buckets as nat, |i: int| 0u64),
    {
        let mut v: Vec<u64> = Vec::new();
        let mut i: usize = 0;
        while i < num_buckets
            invariant
                i <= num_buckets,
                v@ == Seq::new(i as nat, |k: int| 0u64),
            decreases num_buckets - i,
        {
            v.push(0);
            i = i + 1;
            assert(v@ =~= Seq::new(i as nat, |k: int| 0u64));
        }
        TimelineId(v)
    }

    /// Advances each bucket to the end of the matching pair of `batch_id`.
    /// When the bucket counts differ nothing changes.
    pub fn update(&mut self, batch_id: &MultiBatchId)
        ensures
            old(self)@.len() != batch_id@.len() ==> final(self)@ == old(self)@,
            old(self)@.len() == batch_id@.len() ==> final(self)@ == advanced(old(self)@, batch_id@),
    {
        if self.0.len() != batch_id.0.len() {
            return;
        }
        let mut updated: Vec<u64> = Vec::new();
        let mut i: usize = 0;
        while i < self.0.len()
            invariant
                i <= self@.len(),
                self@.len() == batch_id@.len(),
                updated@ == advanced(self@, batch_id@).subrange(0, i as int),
            decreases self@.len() - i,
        {
            let cur = self.0[i];
            let end = batch_id.0[i].1;
            if cur >= end {
                updated.push(cur);
            } else {
                updated.push(end);
            }
            i = i + 1;
            assert(updated@ =~= advanced(self@, batch_id@).subrange(0, i as int));
        }
        assert(updated@ =~= advanced(self@, batch_id@));
        self.0 = updated;
    }
}

impl From<Vec<u64>> for TimelineId {
    fn from(vector: Vec<u64>) -> (r: Self)
        ensures
            r@ == vector@,
    {
        TimelineId(vector)
    }
}

impl vstd::std_specs::convert::FromSpecImpl<Vec<u64>> for TimelineId {
    open spec fn obeys_from_spec() -> bool {
        true
    }

    open spec fn from_spec(v: Vec<u64>) -> TimelineId {
        TimelineId(v)
    }
}

/// Identifier of a broadcast batch: one `(start, end)` pair per bucket.
#[derive(Clone, Debug, PartialEq, Eq, Hash)]
pub struct MultiBatchId(pub Vec<(u64, u64)>);

impl View for MultiBatchId {
    type V = Seq<(u64, u64)>;

    open spec fn view(&self) -> Seq<(u64, u64)> {
        self.0@
    }
}

impl MultiBatchId {
    /// The range between two cursors: the pair of watermarks of each bucket.
    pub fn from_timeline_ids(old: &TimelineId, new: &TimelineId) -> (r: Self)
        ensures
            r@ == zipped(old@, new@),
    {
        let n: usize = if old.0.len() <= new.0.len() { old.0.len() } else { new.0.len() };
        let mut v: Vec<(u64, u64)> = Vec::new();
        let mut i: usize = 0;
        while i < n
            invariant
                i <= n,
                n == (if old@.len() <= new@.len() { old@.len() } else { new@.len() }),
                v@ == zipped(old@, new@).subrange(0, i as int),
            decreases n - i,
        {
            v.push((old.0[i], new.0[i]));
            i = i + 1;
            assert(v@ =~= zipped(old@, new@).subrange(0, i as int));
        }
        assert(v@ =~= zipped(old@, new@));
        MultiBatchId(v)
    }

    /// A copy of this identifier.
    pub fn duplicate(&self) -> (r: Self)
        ensures
            r@ == self@,
    {
        let mut v: Vec<(u64, u64)> = Vec::new();
        let mut i: usize = 0;
        while i < self.0.len()
            invariant
                i <= self@.len(),
                v@ == self@.subrange(0, i as int),
            decreases self@.len() - i,
        {
            v.push(self.0[i]);
            i = i + 1;
            assert(v@ =~= self@.subrange(0, i as int));
        }
        assert(v@ =~= self@);
        MultiBatchId(v)
    }

    /// Compares pair by pair from the last bucket to the first; the first
    /// unequal pair decides, and where one runs out first it is the smaller.
    pub fn cmp(&self, other: &MultiBatchId) -> (r: std::cmp::Ordering)
        ensures
            r == ordering_of(batch_cmp(self@, other@)),
    {
        let a = &self.0;
        let b = &other.0;
        let mut i: usize = 0;
        assert(a@ == self@ && b@ == other@);
        while i < a.len() && i < b.len()
            invariant
                a@ == self@,
                b@ == other@,
                i <= a@.len(),
                i <= b@.len(),
                batch_cmp(a@, b@) == batch_cmp_from(a@, b@, i as nat),
            decreases a@.len() - i,
        {
            let p = a[a.len() - 1 - i];
            let q = b[b.len() - 1 - i];
            assert(p == rev_at(a@, i as int) && q == rev_at(b@, i as int));
            if p.0 < q.0 || (p.0 == q.0 && p.1 < q.1) {
                return std::cmp::Ordering::Less;
            }
            if p.0 > q.0 || (p.0 == q.0 && p.1 > q.1) {
                return std::cmp::Ordering::Greater;
            }
            i = i + 1;
        }
        if i < b.len() {
            std::cmp::Ordering::Less
        } else if i < a.len() {
            std::cmp::Ordering::Greater
        } else {
            std::cmp::Ordering::Equal
        }
    }

    pub fn partial_cmp(&self, other: &MultiBatchId) -> (r: Option<std::cmp::Ordering>)
        ensures
            r == Some(ordering_of(batch_cmp(self@, other@))),
    {
        Some(self.cmp(other))
    }

    /// Whether every bucket's range is empty, that is, the batch holds nothing.
    pub fn is_empty_range(&self) -> (r: bool)
        ensures
            r == (forall|i: int| 0 <= i < self@.len() ==> self@[i].0 >= #[trigger] self@[i].1),
    {
        let mut i: usize = 0;
        while i < self.0.len()
            invariant
                i <= self@.len(),
                forall|k: int| 0 <= k < i ==> self@[k].0 >= #[trigger] self@[k].1,
            decreases self@.len() - i,
        {
            if self.0[i].0 < self.0[i].1 {
                return false;
            }
            i = i + 1;
        }
        true
    }
}

} // verus!
