//! Many Raft groups on one node, and the routing of shards to them.

pub mod error;
pub mod routing;
pub mod multi_raft;
pub mod rpc_dispatch;
pub mod migration;
pub mod checkpoint;
pub mod migration_executor;
pub mod convergence;
pub mod laws;
pub mod migration_laws;
pub mod convergence_laws;
pub mod group_laws;
