use shared_mempool::quorum_store::{
    get_batch, handle_request, reject_transactions, QuorumStoreRequest, QuorumStoreResponse, Transaction,
    TransactionSummary,
};

fn txn(sender: u64, seq: u64, size: u64) -> Transaction {
    Transaction { sender, sequence_number: seq, size_bytes: size }
}

fn pool() -> Vec<Transaction> {
    vec![txn(1, 0, 10), txn(2, 0, 20), txn(1, 1, 30), txn(3, 5, 5)]
}

#[test]
fn get_batch_with_zero_max_txns_is_empty() {
    let mut p = pool();
    match handle_request(&mut p, &QuorumStoreRequest::GetBatchRequest(0, 1000, vec![])) {
        QuorumStoreResponse::GetBatchResponse(b) => assert!(b.is_empty()),
        _ => panic!("expected a batch"),
    }
    assert_eq!(p, pool());
}

#[test]
fn get_batch_skips_excluded_and_stops_at_limits() {
    let p = pool();
    let ex = vec![TransactionSummary { sender: 2, sequence_number: 0 }];
    assert_eq!(get_batch(&p, 10, 1000, &ex), vec![txn(1, 0, 10), txn(1, 1, 30), txn(3, 5, 5)]);
    assert_eq!(get_batch(&p, 2, 1000, &ex), vec![txn(1, 0, 10), txn(1, 1, 30)]);
    assert_eq!(get_batch(&p, 10, 35, &ex), vec![txn(1, 0, 10)]);
    assert_eq!(get_batch(&p, 10, 1000, &vec![]).len(), 4);
}

#[test]
fn reject_unknown_summary_is_noop_with_commit_ack() {
    let mut p = pool();
    let req = QuorumStoreRequest::RejectNotification(vec![TransactionSummary { sender: 9, sequence_number: 9 }]);
    assert!(matches!(handle_request(&mut p, &req), QuorumStoreResponse::CommitResponse()));
    assert_eq!(p, pool());
}

#[test]
fn reject_drops_named_transactions() {
    let mut p = pool();
    reject_transactions(
        &mut p,
        &vec![TransactionSummary { sender: 1, sequence_number: 1 }, TransactionSummary { sender: 3, sequence_number: 5 }],
    );
    assert_eq!(p, vec![txn(1, 0, 10), txn(2, 0, 20)]);
}

#[test]
fn requests_describe_themselves() {
    let get = QuorumStoreRequest::GetBatchRequest(
        250,
        1048576,
        vec![TransactionSummary { sender: 1, sequence_number: 0 }, TransactionSummary { sender: 2, sequence_number: 7 }],
    );
    assert_eq!(get.to_string(), "GetBatchRequest [max_txns: 250, max_bytes: 1048576, excluded_txns_length: 2]");
    let reject = QuorumStoreRequest::RejectNotification(vec![]);
    assert_eq!(reject.to_string(), "RejectNotification [rejected_txns_length: 0]");
}
