//! A single Raft group: messages, log, storage and the node state machine.

pub mod error;
pub mod log;
pub mod message;
pub mod node;
pub mod state;
pub mod safety;
pub mod storage;
