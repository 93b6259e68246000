//! A Raft consensus participant: the per-node role machine, its replicated
//! log and the rules by which roles change.

pub mod candidate;
pub mod config;
pub mod election;
pub mod entry;
pub mod error;
pub mod follower;
pub mod leader;
pub mod log;
pub mod model;
pub mod participant;
pub mod progress;
pub mod raft;
pub mod role;
pub mod rpc;
pub mod safety;
pub mod timer;
pub mod upkeep;
