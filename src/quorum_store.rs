//! The request/response bridge through which the ordering component pulls
//! batches of transactions and reports those it rejected.
use vstd::prelude::*;
use vstd::string::StringExecFns;

verus! {

/// Identifies a transaction by its sender and sequence number.
#[derive(Clone, Copy, Debug, PartialEq, Eq, Hash, Structural)]
pub struct TransactionSummary {
    pub sender: u64,
    pub sequence_number: u64,
}

/// A transaction as the pool hands it out: who sent it, its sequence number,
/// and its size in bytes.
#[derive(Clone, Copy, Debug, PartialEq, Eq, Hash, Structural)]
pub struct Transaction {
    pub sender: u64,
    pub sequence_number: u64,
    pub size_bytes: u64,
}

/// Request from the ordering component.
#[derive(Clone, Debug)]
pub enum QuorumStoreRequest {
    /// At most this many transactions, of at most this many bytes in all,
    /// none of those listed.
    GetBatchRequest(u64, u64, Vec<TransactionSummary>),
    /// Transactions that the ordering component rejected.
    RejectNotification(Vec<TransactionSummary>),
}

/// Response to the ordering component.
#[derive(Clone, Debug)]
pub enum QuorumStoreResponse {
    /// The transactions of the batch, in the pool's order.
    GetBatchResponse(Vec<Transaction>),
    CommitResponse(),
}

pub open spec fn summary_of(t: Transaction) -> TransactionSummary {
    TransactionSummary { sender: t.sender, sequence_number: t.sequence_number }
}

/// The batch taken from `ready`, in order: transactions listed in `exclude`
/// are passed over; the others are taken while fewer than `max_txns` are
/// taken and each still fits in what is left of `max_bytes`. The first one
/// that does not fit ends the batch.
pub open spec fn select_batch(
    ready: Seq<Transaction>,
    max_txns: nat,
    max_bytes: nat,
    exclude: Seq<TransactionSummary>,
) -> Seq<Transaction>
    decreases ready.len(),
{
    if ready.len() == 0 || max_txns == 0 {
        Seq::empty()
    } else if exclude.contains(summary_of(ready[0])) {
        select_batch(ready.drop_first(), max_txns, max_bytes, exclude)
    } else if ready[0].size_bytes > max_bytes {
        Seq::empty()
    } else {
        seq![ready[0]] + select_batch(
            ready.drop_first(),
            (max_txns - 1) as nat,
            (max_bytes - ready[0].size_bytes) as nat,
            exclude,
        )
    }
}

/// Total size of `s` in bytes.
pub open spec fn total_bytes(s: Seq<Transaction>) -> nat
    decreases s.len(),
{
    if s.len() == 0 {
        0
    } else {
        s[0].size_bytes as nat + total_bytes(s.drop_first())
    }
}

/// The transactions of `pool` that no summary in `rejected` names, in order.
pub open spec fn without_rejected(pool: Seq<Transaction>, rejected: Seq<TransactionSummary>) -> Seq<
    Transaction,
>
    decreases pool.len(),
{
    if pool.len() == 0 {
        pool
    } else {
        let rest = without_rejected(pool.drop_last(), rejected);
        if rejected.contains(summary_of(pool.last())) {
            rest
        } else {
            rest.push(pool.last())
        }
    }
}

/// A batch is within both limits and holds no excluded transaction.
pub proof fn lemma_batch_within_limits(
    ready: Seq<Transaction>,
    max_txns: nat,
    max_bytes: nat,
    exclude: Seq<TransactionSummary>,
)
    ensures
        select_batch(ready, max_txns, max_bytes, exclude).len() <= max_txns,
        total_bytes(select_batch(ready, max_txns, max_bytes, exclude)) <= max_bytes,
        forall|i: int|
            0 <= i < select_batch(ready, max_txns, max_bytes, exclude).len() ==> !exclude.contains(
                summary_of(#[trigger] select_batch(ready, max_txns, max_bytes, exclude)[i]),
            ),
        max_txns == 0 ==> select_batch(ready, max_txns, max_bytes, exclude).len() == 0,
    decreases ready.len(),
{
    if ready.len() == 0 || max_txns == 0 {
    } else if exclude.contains(summary_of(ready[0])) {
        lemma_batch_within_limits(ready.drop_first(), max_txns, max_bytes, exclude);
    } else if ready[0].size_bytes > max_bytes {
    } else {
        let rest = select_batch(
            ready.drop_first(),
            (max_txns - 1) as nat,
            (max_bytes - ready[0].size_bytes) as nat,
            exclude,
        );
        lemma_batch_within_limits(
            ready.drop_first(),
            (max_txns - 1) as nat,
            (max_bytes - ready[0].size_bytes) as nat,
            exclude,
        );
        let b = seq![ready[0]] + rest;
        assert(b.drop_first() =~= rest);
        assert forall|i: int| 0 <= i < b.len() implies !exclude.contains(summary_of(#[trigger] b[i])) by {
            if i > 0 {
                assert(b[i] == rest[i - 1]);
            }
        }
    }
}

/// Rejecting transactions that the pool does not hold leaves it unchanged.
pub proof fn lemma_reject_unknown_is_noop(pool: Seq<Transaction>, rejected: Seq<TransactionSummary>)
    requires
        forall|i: int| 0 <= i < pool.len() ==> !rejected.contains(summary_of(#[trigger] pool[i])),
    ensures
        without_rejected(pool, rejected) == pool,
    decreases pool.len(),
{
    if pool.len() > 0 {
        lemma_reject_unknown_is_noop(pool.drop_last(), rejected);
        assert(pool.drop_last().push(pool.last()) =~= pool);
    }
}

/// Whether `exclude` lists `s`.
fn lists_summary(exclude: &Vec<TransactionSummary>, s: TransactionSummary) -> (r: bool)
    ensures
        r == exclude@.contains(s),
{
    let mut i: usize = 0;
    while i < exclude.len()
        invariant
            i <= exclude@.len(),
            forall|k: int| 0 <= k < i ==> exclude@[k] != s,
        decreases exclude@.len() - i,
    {
        if exclude[i] == s {
            return true;
        }
        i = i + 1;
    }
    false
}

fn summary(t: &Transaction) -> (r: TransactionSummary)
    ensures
        r == summary_of(*t),
{
    TransactionSummary { sender: t.sender, sequence_number: t.sequence_number }
}

/// Takes a batch from `ready`, the pool's transactions in its own order of
/// priority.
pub fn get_batch(ready: &Vec<Transaction>, max_txns: u64, max_bytes: u64, exclude: &Vec<TransactionSummary>) -> (r:
    Vec<Transaction>)
    ensures
        r@ == select_batch(ready@, max_txns as nat, max_bytes as nat, exclude@),
{
    let mut out: Vec<Transaction> = Vec::new();
    let mut txns_left: u64 = max_txns;
    let mut bytes_left: u64 = max_bytes;
    let mut i: usize = 0;
    assert(ready@.subrange(0, ready@.len() as int) =~= ready@);
    assert(out@ + select_batch(ready@, max_txns as nat, max_bytes as nat, exclude@) =~= select_batch(ready@, max_txns as nat, max_bytes as nat, exclude@));
    while i < ready.len()
        invariant
            i <= ready@.len(),
            out@ + select_batch(ready@.subrange(i as int, ready@.len() as int), txns_left as nat, bytes_left as nat, exclude@)
                == select_batch(ready@, max_txns as nat, max_bytes as nat, exclude@),
        decreases ready@.len() - i,
    {
        let ghost tail = ready@.subrange(i as int, ready@.len() as int);
        assert(tail.drop_first() =~= ready@.subrange(i + 1, ready@.len() as int));
        if txns_left == 0 {
            assert(out@ + Seq::<Transaction>::empty() =~= out@);
            return out;
        }
        let t = ready[i];
        if !lists_summary(exclude, summary(&t)) {
            if t.size_bytes > bytes_left {
                assert(out@ + Seq::<Transaction>::empty() =~= out@);
                return out;
            }
            let ghost rest = select_batch(tail.drop_first(), (txns_left - 1) as nat, (bytes_left - t.size_bytes) as nat, exclude@);
            assert(out@ + (seq![t] + rest) =~= out@.push(t) + rest);
            out.push(t);
            txns_left = txns_left - 1;
            bytes_left = bytes_left - t.size_bytes;
        }
        i = i + 1;
    }
    assert(ready@.subrange(i as int, ready@.len() as int).len() == 0);
    assert(out@ + Seq::<Transaction>::empty() =~= out@);
    out
}

/// Drops from `pool` every transaction that `rejected` names.
pub fn reject_transactions(pool: &mut Vec<Transaction>, rejected: &Vec<TransactionSummary>)
    ensures
        final(pool)@ == without_rejected(old(pool)@, rejected@),
{
    let mut kept: Vec<Transaction> = Vec::new();
    let mut i: usize = 0;
    while i < pool.len()
        invariant
            i <= pool@.len(),
            kept@ == without_rejected(pool@.subrange(0, i as int), rejected@),
        decreases pool@.len() - i,
    {
        let t = pool[i];
        assert(pool@.subrange(0, i + 1).drop_last() =~= pool@.subrange(0, i as int));
        if !lists_summary(rejected, summary(&t)) {
            kept.push(t);
        }
        i = i + 1;
    }
    assert(pool@.subrange(0, i as int) =~= pool@);
    *pool = kept;
}

/// Serves one request against `pool`: a batch for `GetBatchRequest`, and for
/// `RejectNotification` the rejected transactions leave the pool.
pub fn handle_request(pool: &mut Vec<Transaction>, request: &QuorumStoreRequest) -> (r: QuorumStoreResponse)
    ensures
        match request {
            QuorumStoreRequest::GetBatchRequest(max_txns, max_bytes, exclude) => {
                &&& final(pool)@ == old(pool)@
                &&& r matches QuorumStoreResponse::GetBatchResponse(b)
                &&& b@ == select_batch(old(pool)@, *max_txns as nat, *max_bytes as nat, exclude@)
            },
            QuorumStoreRequest::RejectNotification(rejected) => {
                &&& final(pool)@ == without_rejected(old(pool)@, rejected@)
                &&& r matches QuorumStoreResponse::CommitResponse()
            },
        },
{
    match request {
        QuorumStoreRequest::GetBatchRequest(max_txns, max_bytes, exclude) => {
            QuorumStoreResponse::GetBatchResponse(get_batch(pool, *max_txns, *max_bytes, exclude))
        },
        QuorumStoreRequest::RejectNotification(rejected) => {
            reject_transactions(pool, rejected);
            QuorumStoreResponse::CommitResponse()
        },
    }
}

/// The decimal digits of `n`, most significant first, without sign or padding.
pub open spec fn decimal(n: nat) -> Seq<char>
    decreases n,
{
    let digit = seq!['0', '1', '2', '3', '4', '5', '6', '7', '8', '9'][(n % 10) as int];
    if n < 10 {
        seq![digit]
    } else {
        decimal(n / 10) + seq![digit]
    }
}

/// Relies on `u64`'s `Display` through `ToString::to_string`: it writes the
/// number in decimal digits, without sign or padding.
#[verifier::external_body]
fn decimal_string(n: u64) -> (r: String)
    ensures
        r@ == decimal(n as nat),
{
    n.to_string()
}

/// The one-line description of a request.
pub open spec fn request_text(request: QuorumStoreRequest) -> Seq<char> {
    match request {
        QuorumStoreRequest::GetBatchRequest(max_txns, max_bytes, exclude) => "GetBatchRequest [max_txns: "@
            + decimal(max_txns as nat) + ", max_bytes: "@ + decimal(max_bytes as nat)
            + ", excluded_txns_length: "@ + decimal(exclude@.len()) + "]"@,
        QuorumStoreRequest::RejectNotification(rejected) => "RejectNotification [rejected_txns_length: "@
            + decimal(rejected@.len()) + "]"@,
    }
}

impl QuorumStoreRequest {
    /// Describes the request: its kind, its limits and how many summaries it carries.
    pub fn to_string(&self) -> (r: String)
        ensures
            r@ == request_text(*self),
    {
        match self {
            QuorumStoreRequest::GetBatchRequest(max_txns, max_bytes, exclude) => {
                let mut r = String::from_str("GetBatchRequest [max_txns: ");
                r.append(decimal_string(*max_txns).as_str());
                r.append(", max_bytes: ");
                r.append(decimal_string(*max_bytes).as_str());
                r.append(", excluded_txns_length: ");
                r.append(decimal_string(exclude.len() as u64).as_str());
                r.append("]");
                r
            },
            QuorumStoreRequest::RejectNotification(rejected) => {
                let mut r = String::from_str("RejectNotification [rejected_txns_length: ");
                r.append(decimal_string(rejected.len() as u64).as_str());
                r.append("]");
                r
            },
        }
    }
}

} // verus!
