pub mod bridge;
pub mod client;
pub mod cluster;
pub mod control;
pub mod crdt;
pub mod graph;
pub mod ids;
pub mod keys;
pub mod raft;
pub mod text;
pub mod time;
pub mod wal;
