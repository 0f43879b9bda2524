//! In-memory core of a chained, pipelined BFT voting protocol: the pruned tree of
//! executed blocks, its certificates, the vote aggregator and the commit path.
//!
//! Everything here is sequential and free of I/O. Execution, persistence and locking
//! live with the caller, which hands their results to the functions of this crate.

pub mod hash_value;
pub mod block_info;
pub mod executor;
pub mod block;
pub mod error;
pub mod tree_model;
pub mod block_tree;
pub mod validator_verifier;
pub mod vote;
pub mod pending_votes;
pub mod round_order;
pub mod block_store;
pub mod state_sync_config;
