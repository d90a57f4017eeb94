//! Cluster membership, node selection, replication and de-duplication.
pub mod broker;
pub mod directory;
pub mod raft;
pub mod raft_async;
pub mod router;
