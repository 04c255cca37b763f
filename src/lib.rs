//! Peer broadcast synchronization for a validator's pending-transaction pool:
//! per-peer timeline cursors, composite batch identifiers and their order,
//! per-peer broadcast bookkeeping, scheduled broadcasts, and the batch-pull
//! bridge used by the ordering component.
pub mod broadcast_info;
pub mod coordinator;
pub mod quorum_store;
pub mod scheduler;
pub mod timeline;
