//! A verified core of a HotStuff-family Byzantine-fault-tolerant replication
//! protocol: message types with a canonical wire codec, quorum-certificate
//! aggregation, a reputation-based leader elector, a content-addressed block
//! store, and the per-replica consensus state machine with its safety rules.
//!
//! Network transport, timers and the signature backend live outside the
//! library; the state machine consumes plain messages and returns the actions
//! the replica must perform.

pub mod aggregator;
pub mod codec;
pub mod committee;
pub mod consensus;
pub mod wire;
pub mod errors;
pub mod mempool;
pub mod messages;
pub mod laws;
pub mod leader;
pub mod store;
pub mod types;
