//! Errors of the cluster layer.

use vstd::prelude::*;

use crate::raft::error::RaftError;

verus! {

/// Why a cluster operation was refused or failed.
#[derive(Debug)]
pub enum ClusterError {
    /// The Raft group is not mounted on this node.
    GroupNotFound { group_id: u64 },
    /// No Raft group owns the shard.
    VShardNotMapped { vshard_id: u32 },
    /// The Raft group refused or failed.
    Raft(RaftError),
    /// Storage, a connection or a peer failed.
    Transport { detail: String },
    /// Another migration of the shard has not completed.
    MigrationInProgress { vshard_id: u32 },
    /// Writes would stop for longer than the migration allows.
    PauseBudgetExceeded { estimated_us: u64, budget_us: u64 },
}

} // verus!
