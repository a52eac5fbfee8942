use nodedb_core::raft::error::RaftError;
use nodedb_core::raft::message::{LogEntry, RequestVoteRequest, RequestVoteResponse};
use nodedb_core::raft::node::config::RaftConfig;
use nodedb_core::raft::node::machine::RaftNode;
use nodedb_core::raft::state::NodeRole;
use nodedb_core::raft::storage::MemStorage;
use nodedb_core::time::{Duration, Instant};

const NOW: Instant = Instant { nanos: 1_000_000_000 };
const PAST: Instant = Instant { nanos: 999_000_000 };

fn test_config(node_id: u64, peers: Vec<u64>) -> RaftConfig {
    RaftConfig {
        node_id,
        group_id: 1,
        peers,
        learners: vec![],
        starts_as_learner: false,
        election_timeout_min: Duration::from_millis(150),
        election_timeout_max: Duration::from_millis(300),
        heartbeat_interval: Duration::from_millis(50),
    }
}

#[test]
fn single_node_election() {
    let config = test_config(1, vec![]);
    let mut node = RaftNode::new(config, MemStorage::new(), NOW);

    node.election_deadline = PAST;
    node.tick(NOW);

    assert_eq!(node.role(), NodeRole::Leader);
    assert_eq!(node.current_term(), 1);
    assert_eq!(node.leader_id(), 1);
}

#[test]
fn single_node_propose_and_commit() {
    let config = test_config(1, vec![]);
    let mut node = RaftNode::new(config, MemStorage::new(), NOW);
    node.election_deadline = PAST;
    node.tick(NOW);
    assert_eq!(node.role(), NodeRole::Leader);

    let ready = node.take_ready();
    assert!(!ready.committed_entries.is_empty());
    node.advance_applied(ready.committed_entries.last().unwrap().index);

    let idx = node.propose(b"hello".to_vec()).unwrap();
    assert_eq!(idx, 2);

    let ready = node.take_ready();
    assert_eq!(ready.committed_entries.len(), 1);
    assert_eq!(ready.committed_entries[0].data, b"hello");
}

#[test]
fn ready_committed_entries_are_not_reemitted_before_advance() {
    let config = test_config(1, vec![]);
    let mut node = RaftNode::new(config, MemStorage::new(), NOW);
    node.election_deadline = PAST;
    node.tick(NOW);

    let ready = node.take_ready();
    assert_eq!(ready.committed_entries.len(), 1);
    assert_eq!(ready.committed_entries[0].index, 1);

    let idx = node.propose(b"hello".to_vec()).unwrap();
    assert_eq!(idx, 2);

    let ready = node.take_ready();
    assert_eq!(
        ready
            .committed_entries
            .iter()
            .map(|entry| entry.index)
            .collect::<Vec<_>>(),
        vec![2],
        "Ready must contain only newly emitted committed entries"
    );
}

#[test]
fn propose_as_follower_fails() {
    let config = test_config(1, vec![2, 3]);
    let node = &mut RaftNode::new(config, MemStorage::new(), NOW);
    let err = node.propose(b"data".to_vec()).unwrap_err();
    assert!(matches!(err, RaftError::NotLeader { .. }));
}

#[test]
fn propose_names_the_known_leader() {
    let mut node = RaftNode::new(test_config(1, vec![2, 3]), MemStorage::new(), NOW);
    let err = node.propose(b"data".to_vec()).unwrap_err();
    assert!(matches!(err, RaftError::NotLeader { leader_hint: None }));
    node.leader_id = 3;
    let err = node.propose(b"data".to_vec()).unwrap_err();
    assert!(matches!(
        err,
        RaftError::NotLeader {
            leader_hint: Some(3)
        }
    ));
}

#[test]
fn snapshot_needed_after_compaction() {
    let config = test_config(1, vec![2, 3]);
    let mut node = RaftNode::new(config, MemStorage::new(), NOW);

    node.election_deadline = PAST;
    node.tick(NOW);
    let _ready = node.take_ready();
    let resp = RequestVoteResponse {
        term: 1,
        vote_granted: true,
    };
    node.handle_request_vote_response(2, &resp, NOW);
    assert_eq!(node.role(), NodeRole::Leader);
    let _ = node.take_ready();

    for i in 0..9 {
        node.propose(vec![i]).unwrap();
    }
    let _ = node.take_ready();

    node.log.apply_snapshot(8, 1);

    node.replicate_to_all();
    let ready = node.take_ready();

    assert!(
        !ready.snapshots_needed.is_empty(),
        "expected snapshots_needed to be non-empty"
    );
}

#[test]
fn starts_as_learner_role() {
    let mut cfg = test_config(2, vec![1]);
    cfg.starts_as_learner = true;
    let node = RaftNode::new(cfg, MemStorage::new(), NOW);
    assert_eq!(node.role(), NodeRole::Learner);
}

#[test]
fn learner_tick_does_not_start_election() {
    let mut cfg = test_config(2, vec![1]);
    cfg.starts_as_learner = true;
    let mut node = RaftNode::new(cfg, MemStorage::new(), NOW);
    // A follower would start an election at once; a learner must ignore it.
    node.election_deadline = PAST;
    node.tick(NOW);
    assert_eq!(node.role(), NodeRole::Learner);
    assert_eq!(node.current_term(), 0);
}

#[test]
fn restore_recovers_persisted_hard_state_and_snapshot_log() {
    let config = test_config(1, vec![]);
    let mut node = RaftNode::new(config.clone(), MemStorage::new(), NOW);
    node.restore(NOW).unwrap();

    node.hard_state.current_term = 4;
    node.hard_state.voted_for = 2;
    node.persist_hard_state();
    node.persist_ready_hard_state().unwrap();

    node.log
        .append(LogEntry {
            term: 3,
            index: 1,
            data: b"a".to_vec(),
        })
        .unwrap();
    node.log
        .append(LogEntry {
            term: 4,
            index: 2,
            data: b"b".to_vec(),
        })
        .unwrap();
    node.log
        .append(LogEntry {
            term: 4,
            index: 3,
            data: b"c".to_vec(),
        })
        .unwrap();
    node.log.apply_snapshot(2, 4);

    let storage = node.log.storage().clone();
    let mut restored = RaftNode::new(config, storage, NOW);
    restored.restore(NOW).unwrap();

    assert_eq!(restored.current_term(), 4);
    assert_eq!(restored.voted_for(), 2);
    assert_eq!(restored.log_snapshot_index(), 2);
    assert_eq!(restored.log_snapshot_term(), 4);
    assert_eq!(restored.commit_index(), 2);
    assert_eq!(restored.last_applied(), 2);
    assert_eq!(restored.ready_commit_index, 2);
    assert_eq!(restored.log.last_index(), 3);
    assert_eq!(restored.log.last_term(), 4);
    let entries = restored.log.entries_range(3, 3).unwrap();
    assert_eq!(entries.len(), 1);
    assert_eq!(entries[0].data, b"c");
}

#[test]
fn restored_node_does_not_vote_twice_in_same_term() {
    let config = test_config(1, vec![2, 3]);
    let mut node = RaftNode::new(config.clone(), MemStorage::new(), NOW);
    node.restore(NOW).unwrap();

    let first = node.handle_request_vote(
        &RequestVoteRequest {
            term: 5,
            candidate_id: 2,
            last_log_index: 0,
            last_log_term: 0,
            group_id: 1,
        },
        NOW,
    );
    assert!(first.vote_granted);
    node.persist_ready_hard_state().unwrap();

    let storage = node.log.storage().clone();
    let mut restored = RaftNode::new(config, storage, NOW);
    restored.restore(NOW).unwrap();

    let second = restored.handle_request_vote(
        &RequestVoteRequest {
            term: 5,
            candidate_id: 3,
            last_log_index: 0,
            last_log_term: 0,
            group_id: 1,
        },
        NOW,
    );
    assert!(!second.vote_granted);
    assert_eq!(restored.current_term(), 5);
    assert_eq!(restored.voted_for(), 2);
}

#[test]
fn log_refuses_a_gap_and_a_range_outside() {
    let mut node = RaftNode::new(test_config(1, vec![]), MemStorage::new(), NOW);
    let err = node
        .log
        .append(LogEntry {
            term: 1,
            index: 3,
            data: vec![],
        })
        .unwrap_err();
    assert!(matches!(err, RaftError::IndexGap { after: 0, found: 3 }));
    assert!(matches!(
        node.log.entries_range(1, 1),
        Err(RaftError::OutOfRange { index: 1 })
    ));
    assert!(matches!(
        node.log.append_entries(7, &[]),
        Err(RaftError::OutOfRange { index: 7 })
    ));
}

#[test]
fn election_deadline_lies_between_the_timeouts() {
    let mut node = RaftNode::new(test_config(1, vec![2]), MemStorage::new(), NOW);
    assert_eq!(node.election_deadline.nanos, 1_300_000_000);
    node.restore(NOW).unwrap();
    // 1 s modulo the 150 ms between the timeouts is 100 ms.
    assert_eq!(node.election_deadline.nanos, 1_250_000_000);
}

#[test]
fn learners_are_known_as_such() {
    let mut config = test_config(1, vec![2]);
    config.learners = vec![3];
    let node = RaftNode::new(config, MemStorage::new(), NOW);
    assert!(node.is_learner_peer(3));
    assert!(!node.is_learner_peer(2));
    assert_eq!(node.voters(), &[2]);
    assert_eq!(node.learners(), &[3]);
}

#[test]
fn raft_errors_say_what_happened() {
    let said = |e: RaftError| e.message();
    assert_eq!(
        said(RaftError::NotLeader { leader_hint: None }),
        "not leader (leader hint: None)"
    );
    assert_eq!(
        said(RaftError::NotLeader {
            leader_hint: Some(3)
        }),
        "not leader (leader hint: Some(3))"
    );
    assert_eq!(
        said(RaftError::Storage {
            detail: "disk full".to_string()
        }),
        "storage: disk full"
    );
    assert_eq!(said(RaftError::OutOfRange { index: 12 }), "no entry at index 12");
    assert_eq!(
        said(RaftError::IndexGap { after: 4, found: 6 }),
        "entry 6 does not follow entry 4"
    );
}
