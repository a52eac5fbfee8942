use nodedb_core::raft::node::config::RaftConfig;
use nodedb_core::raft::node::machine::RaftNode;
use nodedb_core::raft::state::NodeRole;
use nodedb_core::raft::storage::MemStorage;
use nodedb_core::time::{Duration, Instant};

const NOW: Instant = Instant { nanos: 1_000_000_000 };
const PAST: Instant = Instant { nanos: 999_000_000 };

fn cfg(node_id: u64, peers: Vec<u64>) -> RaftConfig {
    RaftConfig {
        node_id,
        group_id: 0,
        peers,
        learners: vec![],
        starts_as_learner: false,
        election_timeout_min: Duration::from_millis(150),
        election_timeout_max: Duration::from_millis(300),
        heartbeat_interval: Duration::from_millis(50),
    }
}

fn force_leader(node: &mut RaftNode<MemStorage>) {
    node.election_deadline_override(PAST);
    node.tick(NOW);
    // Drain vote messages.
    let _ = node.take_ready();
    // Reply to own candidacy (for multi-voter configs, skip).
}

#[test]
fn add_learner_does_not_change_quorum() {
    // Start: self + 2 voters. Quorum = 2 (out of 3).
    let mut node = RaftNode::new(cfg(1, vec![2, 3]), MemStorage::new(), NOW);
    assert_eq!(node.config.quorum(), 2);

    node.add_learner(4);
    assert_eq!(node.learners(), &[4]);
    // Quorum must NOT include the learner.
    assert_eq!(node.config.quorum(), 2);
    assert_eq!(node.config.cluster_size(), 3);
}

#[test]
fn promote_learner_grows_quorum() {
    let mut node = RaftNode::new(cfg(1, vec![2]), MemStorage::new(), NOW);
    assert_eq!(node.config.quorum(), 2); // 2 voters → quorum 2.

    node.add_learner(3);
    assert_eq!(node.config.quorum(), 2);

    let promoted = node.promote_learner(3);
    assert!(promoted);
    assert_eq!(node.voters(), &[2, 3]);
    assert!(node.learners().is_empty());
    // 3 voters → quorum 2.
    assert_eq!(node.config.cluster_size(), 3);
    assert_eq!(node.config.quorum(), 2);
}

#[test]
fn remove_learner_drops_peer() {
    let mut node = RaftNode::new(cfg(1, vec![2]), MemStorage::new(), NOW);
    node.add_learner(3);
    assert_eq!(node.learners(), &[3]);
    node.remove_learner(3);
    assert!(node.learners().is_empty());
}

#[test]
fn add_learner_on_leader_starts_tracking() {
    // Single-voter cluster — self becomes leader on first tick.
    let mut node = RaftNode::new(cfg(1, vec![]), MemStorage::new(), NOW);
    force_leader(&mut node);
    assert_eq!(node.role(), NodeRole::Leader);

    // Propose something so last_index > 0.
    let _ = node.propose(b"x".to_vec()).unwrap();
    let _ = node.take_ready();

    node.add_learner(2);
    // Leader now tracks peer 2's match_index (initially 0).
    assert_eq!(node.match_index_for(2), Some(0));

    // Replicating to all should include peer 2 in outgoing messages.
    node.replicate_to_all();
    let ready = node.take_ready();
    let targets: Vec<u64> = ready.messages.iter().map(|(p, _)| *p).collect();
    assert!(
        targets.contains(&2),
        "learner should receive AE, got {targets:?}"
    );
}

#[test]
fn add_peer_on_leader_changes_quorum_and_tracking() {
    let mut node = RaftNode::new(cfg(1, vec![]), MemStorage::new(), NOW);
    force_leader(&mut node);
    assert_eq!(node.role(), NodeRole::Leader);
    assert_eq!(node.config.cluster_size(), 1);
    assert_eq!(node.config.quorum(), 1);

    node.add_peer(3);

    assert_eq!(node.voters(), &[3]);
    assert_eq!(node.config.cluster_size(), 2);
    assert_eq!(node.config.quorum(), 2);
    assert_eq!(node.match_index_for(3), Some(0));
}

#[test]
fn remove_peer_on_leader_drops_tracking_and_quorum() {
    let mut node = RaftNode::new(cfg(1, vec![]), MemStorage::new(), NOW);
    force_leader(&mut node);
    node.add_peer(3);
    assert_eq!(node.config.cluster_size(), 2);
    assert_eq!(node.match_index_for(3), Some(0));

    node.remove_peer(3);

    assert!(node.voters().is_empty());
    assert_eq!(node.config.cluster_size(), 1);
    assert_eq!(node.config.quorum(), 1);
    assert_eq!(node.match_index_for(3), Some(0));
}

#[test]
fn promote_self_flips_role() {
    let mut c = cfg(2, vec![1]);
    c.starts_as_learner = true;
    let mut node = RaftNode::new(c, MemStorage::new(), NOW);
    assert_eq!(node.role(), NodeRole::Learner);
    node.promote_self_to_voter();
    assert_eq!(node.role(), NodeRole::Follower);
}


#[test]
fn voter_is_added_once() {
    let mut node = RaftNode::new(cfg(1, vec![]), MemStorage::new(), NOW);
    force_leader(&mut node);
    node.add_learner(3);
    for peer in [1, 2, 2, 3] {
        node.add_peer(peer);
    }
    assert_eq!(node.voters(), &[2]);
    assert_eq!(node.learners(), &[3]);
    assert_eq!(node.match_index_for(2), Some(0));
}

#[test]
fn removed_learner_leaves_no_trace() {
    let mut node = RaftNode::new(cfg(1, vec![2]), MemStorage::new(), NOW);
    node.add_learner(3);
    for _ in 0..2 {
        node.add_learner(4);
        node.remove_learner(4);
        node.remove_learner(4);
        assert_eq!(node.learners(), &[3]);
    }
    // A voter is no learner.
    node.remove_learner(2);
    assert_eq!(node.voters(), &[2]);
}

#[test]
fn membership_does_not_touch_the_term() {
    let mut node = RaftNode::new(cfg(1, vec![]), MemStorage::new(), NOW);
    force_leader(&mut node);
    let term = node.current_term();
    node.add_learner(3);
    node.promote_learner(3);
    node.add_peer(4);
    node.remove_peer(3);
    let _ = node.propose(b"x".to_vec());
    let _ = node.take_ready();
    node.advance_applied(1);
    assert_eq!(node.current_term(), term);
}

#[test]
fn leader_alone_knows_progress_and_addresses_everyone() {
    let mut node = RaftNode::new(cfg(1, vec![]), MemStorage::new(), NOW);
    assert_eq!(node.match_index_for(2), None);
    force_leader(&mut node);
    node.add_peer(2);
    node.add_learner(3);
    assert_eq!(node.match_index_for(2), Some(0));
    let later = Instant {
        nanos: NOW.nanos + 60_000_000,
    };
    node.tick(later);
    let ready = node.take_ready();
    let mut addressed: Vec<u64> = ready.messages.iter().map(|m| m.0).collect();
    addressed.sort();
    assert_eq!(addressed, vec![2, 3]);
    assert!(ready.snapshots_needed.is_empty());
}
