//! Errors that a proposer gets back.

use vstd::prelude::*;

verus! {

/// Why a proposed write failed.
#[derive(Debug)]
pub enum ControlError {
    /// Another leader's entry took the place of the proposed one; propose again.
    RetryableLeaderChange { group_id: u64, log_index: u64 },
    /// The write was committed but could not be applied.
    Internal { detail: String },
}

} // verus!
