//! Static and membership configuration of one node.

use vstd::prelude::*;

use crate::time::Duration;

verus! {

/// Configuration of one member of a Raft group.
#[derive(Debug)]
pub struct RaftConfig {
    pub node_id: u64,
    pub group_id: u64,
    /// The other voters.
    pub peers: Vec<u64>,
    /// The other members that only learn.
    pub learners: Vec<u64>,
    /// Whether this node itself boots as a learner.
    pub starts_as_learner: bool,
    pub election_timeout_min: Duration,
    pub election_timeout_max: Duration,
    pub heartbeat_interval: Duration,
}

/// The configuration as a value.
#[verifier::ext_equal]
pub struct ConfigView {
    pub node_id: u64,
    pub group_id: u64,
    pub peers: Seq<u64>,
    pub learners: Seq<u64>,
    pub starts_as_learner: bool,
    pub election_timeout_min: u64,
    pub election_timeout_max: u64,
    pub heartbeat_interval: u64,
}

impl ConfigView {
    /// Number of voters, this node included.
    pub open spec fn cluster_size(self) -> nat {
        self.peers.len() + 1
    }

    /// Smallest number of voters that is more than half of them.
    pub open spec fn quorum(self) -> nat {
        self.cluster_size() / 2 + 1
    }

    /// The number of voters fits the machine's word.
    pub open spec fn wf(self) -> bool {
        self.peers.len() < usize::MAX
    }
}

impl View for RaftConfig {
    type V = ConfigView;

    open spec fn view(&self) -> ConfigView {
        ConfigView {
            node_id: self.node_id,
            group_id: self.group_id,
            peers: self.peers@,
            learners: self.learners@,
            starts_as_learner: self.starts_as_learner,
            election_timeout_min: self.election_timeout_min.nanos,
            election_timeout_max: self.election_timeout_max.nanos,
            heartbeat_interval: self.heartbeat_interval.nanos,
        }
    }
}

impl Clone for RaftConfig {
    fn clone(&self) -> (r: RaftConfig)
        ensures
            r@ == self@,
    {
        let r = RaftConfig {
            node_id: self.node_id,
            group_id: self.group_id,
            peers: self.peers.clone(),
            learners: self.learners.clone(),
            starts_as_learner: self.starts_as_learner,
            election_timeout_min: self.election_timeout_min,
            election_timeout_max: self.election_timeout_max,
            heartbeat_interval: self.heartbeat_interval,
        };
        assert(r@ =~= self@);
        r
    }
}

impl RaftConfig {
    /// Number of voters, this node included. Learners do not count.
    pub fn cluster_size(&self) -> (r: usize)
        requires
            self@.wf(),
        ensures
            r == self@.cluster_size(),
    {
        self.peers.len() + 1
    }

    /// Votes or acknowledgements, this node's own included, that decide.
    pub fn quorum(&self) -> (r: usize)
        requires
            self@.wf(),
        ensures
            r == self@.quorum(),
    {
        self.cluster_size() / 2 + 1
    }
}

} // verus!
