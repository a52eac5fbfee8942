//! The state machine of one member of a Raft group.

pub mod config;
pub mod internal;
pub mod machine;
pub mod membership;
pub mod rpc;
pub mod conduct;
pub mod laws;
