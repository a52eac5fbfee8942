use nodedb_core::raft::message::{
    AppendEntriesRequest, AppendEntriesResponse, InstallSnapshotRequest, LogEntry,
    RequestVoteRequest, RequestVoteResponse,
};
use nodedb_core::raft::node::config::RaftConfig;
use nodedb_core::raft::node::machine::RaftNode;
use nodedb_core::raft::state::NodeRole;
use nodedb_core::raft::storage::MemStorage;
use nodedb_core::time::{Duration, Instant};

const NOW: Instant = Instant { nanos: 1_000_000_000 };
const PAST: Instant = Instant { nanos: 999_000_000 };

fn test_config(node_id: u64, peers: Vec<u64>) -> RaftConfig {
    RaftConfig {
        node_id,
        group_id: 1,
        peers,
        learners: vec![],
        starts_as_learner: false,
        election_timeout_min: Duration::from_millis(150),
        election_timeout_max: Duration::from_millis(300),
        heartbeat_interval: Duration::from_millis(50),
    }
}

#[test]
fn follower_rejects_old_term() {
    let config = test_config(1, vec![2, 3]);
    let mut node = RaftNode::new(config, MemStorage::new(), NOW);
    node.hard_state.current_term = 5;

    let req = AppendEntriesRequest {
        term: 3,
        leader_id: 2,
        prev_log_index: 0,
        prev_log_term: 0,
        entries: vec![],
        leader_commit: 0,
        group_id: 1,
    };

    let resp = node.handle_append_entries(&req, NOW);
    assert!(!resp.success);
    assert_eq!(resp.term, 5);
}

#[test]
fn follower_accepts_valid_append() {
    let config = test_config(1, vec![2, 3]);
    let mut node = RaftNode::new(config, MemStorage::new(), NOW);

    let req = AppendEntriesRequest {
        term: 1,
        leader_id: 2,
        prev_log_index: 0,
        prev_log_term: 0,
        entries: vec![
            LogEntry {
                term: 1,
                index: 1,
                data: b"a".to_vec(),
            },
            LogEntry {
                term: 1,
                index: 2,
                data: b"b".to_vec(),
            },
        ],
        leader_commit: 1,
        group_id: 1,
    };

    let resp = node.handle_append_entries(&req, NOW);
    assert!(resp.success);
    assert_eq!(resp.last_log_index, 2);
    assert_eq!(node.commit_index(), 1);
    assert_eq!(node.leader_id(), 2);
}

#[test]
fn vote_grant_and_reject() {
    let config = test_config(1, vec![2, 3]);
    let mut node = RaftNode::new(config, MemStorage::new(), NOW);

    let req = RequestVoteRequest {
        term: 1,
        candidate_id: 2,
        last_log_index: 0,
        last_log_term: 0,
        group_id: 1,
    };
    let resp = node.handle_request_vote(&req, NOW);
    assert!(resp.vote_granted);

    let req2 = RequestVoteRequest {
        term: 1,
        candidate_id: 3,
        last_log_index: 0,
        last_log_term: 0,
        group_id: 1,
    };
    let resp2 = node.handle_request_vote(&req2, NOW);
    assert!(!resp2.vote_granted);
}

#[test]
fn learner_rejects_vote_request() {
    let mut config = test_config(2, vec![1]);
    config.starts_as_learner = true;
    let mut node = RaftNode::new(config, MemStorage::new(), NOW);
    assert_eq!(node.role(), NodeRole::Learner);

    let req = RequestVoteRequest {
        term: 5,
        candidate_id: 1,
        last_log_index: 10,
        last_log_term: 4,
        group_id: 1,
    };
    let resp = node.handle_request_vote(&req, NOW);
    assert!(
        !resp.vote_granted,
        "learner must never grant a vote, got {resp:?}"
    );
}

#[test]
fn learner_accepts_append_entries_and_stays_learner() {
    let mut config = test_config(2, vec![1]);
    config.starts_as_learner = true;
    let mut node = RaftNode::new(config, MemStorage::new(), NOW);

    let req = AppendEntriesRequest {
        term: 1,
        leader_id: 1,
        prev_log_index: 0,
        prev_log_term: 0,
        entries: vec![LogEntry {
            term: 1,
            index: 1,
            data: b"x".to_vec(),
        }],
        leader_commit: 1,
        group_id: 1,
    };

    let resp = node.handle_append_entries(&req, NOW);
    assert!(resp.success);
    assert_eq!(node.commit_index(), 1);
    // Crucially, the learner did not turn into a Follower.
    assert_eq!(node.role(), NodeRole::Learner);
    assert_eq!(node.leader_id(), 1);
}

/// Learner AE responses update match_index but must NOT trigger a
/// commit advancement that relies on the learner counting toward
/// quorum.
#[test]
fn learner_ae_response_does_not_drive_commit() {
    // 3 voters + 1 learner cluster: quorum = 2. Without any voter ACK,
    // a learner "ack" must not advance commit_index.
    let mut config = test_config(1, vec![2, 3]);
    config.learners = vec![4];
    let mut node = RaftNode::new(config, MemStorage::new(), NOW);

    // Force leader.
    node.election_deadline_override(PAST);
    node.tick(NOW);
    // Grant self-vote via two voter responses.
    let yes = RequestVoteResponse {
        term: 1,
        vote_granted: true,
    };
    node.handle_request_vote_response(2, &yes, NOW);
    assert_eq!(node.role(), NodeRole::Leader);
    let _ = node.take_ready();

    // Propose an entry at index 2 (no-op is index 1).
    let idx = node.propose(b"cmd".to_vec()).unwrap();
    assert_eq!(idx, 2);
    let _ = node.take_ready();

    // Baseline: commit_index should still be <2 (no voter ACKs yet for index 2).
    let baseline_commit = node.commit_index();
    assert!(baseline_commit < 2);

    // Learner (peer 4) ACKs index 2. This must NOT advance commit.
    let ae_ok = AppendEntriesResponse {
        term: 1,
        success: true,
        last_log_index: 2,
    };
    node.handle_append_entries_response(4, &ae_ok, NOW);
    assert_eq!(
        node.commit_index(),
        baseline_commit,
        "learner ACK must not contribute to commit quorum"
    );

    // Now a voter (peer 2) ACKs index 2. Quorum = 2 (self + peer 2) — commit advances.
    node.handle_append_entries_response(2, &ae_ok, NOW);
    assert_eq!(node.commit_index(), 2);
}

#[test]
fn three_node_election() {
    let config1 = test_config(1, vec![2, 3]);
    let config2 = test_config(2, vec![1, 3]);
    let config3 = test_config(3, vec![1, 2]);

    let mut node1 = RaftNode::new(config1, MemStorage::new(), NOW);
    let mut node2 = RaftNode::new(config2, MemStorage::new(), NOW);
    let mut node3 = RaftNode::new(config3, MemStorage::new(), NOW);

    node1.election_deadline = PAST;
    node1.tick(NOW);
    assert_eq!(node1.role(), NodeRole::Candidate);

    let ready = node1.take_ready();
    assert_eq!(ready.vote_requests.len(), 2);

    let resp2 = node2.handle_request_vote(&ready.vote_requests[0].1, NOW);
    let resp3 = node3.handle_request_vote(&ready.vote_requests[1].1, NOW);
    assert!(resp2.vote_granted);
    assert!(resp3.vote_granted);

    node1.handle_request_vote_response(2, &resp2, NOW);
    assert_eq!(node1.role(), NodeRole::Leader);
}

#[test]
fn candidate_ignores_stale_vote_response() {
    let config = test_config(1, vec![2, 3]);
    let mut node = RaftNode::new(config, MemStorage::new(), NOW);

    node.election_deadline = PAST;
    node.tick(NOW);
    assert_eq!(node.role(), NodeRole::Candidate);
    assert_eq!(node.current_term(), 1);
    let _ = node.take_ready();

    node.election_deadline = PAST;
    node.tick(NOW);
    assert_eq!(node.role(), NodeRole::Candidate);
    assert_eq!(node.current_term(), 2);

    let stale_yes = RequestVoteResponse {
        term: 1,
        vote_granted: true,
    };
    node.handle_request_vote_response(2, &stale_yes, NOW);

    assert_eq!(node.role(), NodeRole::Candidate);
    assert_eq!(node.current_term(), 2);
}

#[test]
fn three_node_replication() {
    let config1 = test_config(1, vec![2, 3]);
    let config2 = test_config(2, vec![1, 3]);

    let mut node1 = RaftNode::new(config1, MemStorage::new(), NOW);
    let mut node2 = RaftNode::new(config2, MemStorage::new(), NOW);

    node1.election_deadline = PAST;
    node1.tick(NOW);
    let ready = node1.take_ready();
    let resp2 = node2.handle_request_vote(&ready.vote_requests[0].1, NOW);
    node1.handle_request_vote_response(2, &resp2, NOW);
    assert_eq!(node1.role(), NodeRole::Leader);

    let heartbeat_ready = node1.take_ready();
    for (peer_id, msg) in &heartbeat_ready.messages {
        if *peer_id == 2 {
            let resp = node2.handle_append_entries(msg, NOW);
            node1.handle_append_entries_response(2, &resp, NOW);
        }
    }

    let idx = node1.propose(b"cmd1".to_vec()).unwrap();
    assert_eq!(idx, 2);

    let ready = node1.take_ready();
    for (peer_id, msg) in &ready.messages {
        if *peer_id == 2 {
            let resp = node2.handle_append_entries(msg, NOW);
            assert!(resp.success);
            node1.handle_append_entries_response(2, &resp, NOW);
        }
    }

    let ready = node1.take_ready();
    let committed: Vec<_> = ready
        .committed_entries
        .iter()
        .filter(|e| !e.data.is_empty())
        .collect();
    assert_eq!(committed.len(), 1);
    assert_eq!(committed[0].data, b"cmd1");
}

#[test]
fn leader_steps_down_on_higher_term() {
    let config = test_config(1, vec![2, 3]);
    let mut node = RaftNode::new(config, MemStorage::new(), NOW);

    node.election_deadline = PAST;
    node.tick(NOW);
    let _ready = node.take_ready();
    let resp = RequestVoteResponse {
        term: 1,
        vote_granted: true,
    };
    node.handle_request_vote_response(2, &resp, NOW);
    assert_eq!(node.role(), NodeRole::Leader);

    let req = AppendEntriesRequest {
        term: 5,
        leader_id: 2,
        prev_log_index: 0,
        prev_log_term: 0,
        entries: vec![],
        leader_commit: 0,
        group_id: 1,
    };
    node.handle_append_entries(&req, NOW);
    assert_eq!(node.role(), NodeRole::Follower);
    assert_eq!(node.current_term(), 5);
    assert_eq!(node.leader_id(), 2);
}

fn entry(term: u64, index: u64, data: &[u8]) -> LogEntry {
    LogEntry {
        term,
        index,
        data: data.to_vec(),
    }
}

fn append(term: u64, prev: u64, prev_term: u64, entries: Vec<LogEntry>) -> AppendEntriesRequest {
    AppendEntriesRequest {
        term,
        leader_id: 2,
        prev_log_index: prev,
        prev_log_term: prev_term,
        entries,
        leader_commit: 0,
        group_id: 1,
    }
}

fn elected(id: u64, peers: Vec<u64>) -> RaftNode<MemStorage> {
    let first = peers[0];
    let mut node = RaftNode::new(test_config(id, peers), MemStorage::new(), NOW);
    node.election_deadline_override(PAST);
    node.tick(NOW);
    let yes = RequestVoteResponse {
        term: 1,
        vote_granted: true,
    };
    node.handle_request_vote_response(first, &yes, NOW);
    assert_eq!(node.role(), NodeRole::Leader);
    node
}

#[test]
fn conflicting_entries_are_replaced() {
    let mut node = RaftNode::new(test_config(1, vec![2, 3]), MemStorage::new(), NOW);
    let first = append(1, 0, 0, vec![entry(1, 1, b"a"), entry(1, 2, b"b"), entry(1, 3, b"c")]);
    assert!(node.handle_append_entries(&first, NOW).success);

    let second = append(2, 1, 1, vec![entry(2, 2, b"x")]);
    let resp = node.handle_append_entries(&second, NOW);
    assert!(resp.success);
    assert_eq!(resp.last_log_index, 2);
    assert_eq!(node.log.term_at(1), Some(1));
    assert_eq!(node.log.term_at(2), Some(2));
    assert_eq!(node.log.term_at(3), None);
}

#[test]
fn entries_that_are_held_already_are_kept() {
    let mut node = RaftNode::new(test_config(1, vec![2, 3]), MemStorage::new(), NOW);
    let first = append(1, 0, 0, vec![entry(1, 1, b"a"), entry(1, 2, b"b"), entry(1, 3, b"c")]);
    assert!(node.handle_append_entries(&first, NOW).success);

    let again = append(1, 0, 0, vec![entry(1, 1, b"a")]);
    let resp = node.handle_append_entries(&again, NOW);
    assert!(resp.success);
    assert_eq!(resp.last_log_index, 3);
}

#[test]
fn append_behind_a_missing_entry_is_refused() {
    let mut node = RaftNode::new(test_config(1, vec![2, 3]), MemStorage::new(), NOW);
    let resp = node.handle_append_entries(&append(1, 4, 1, vec![entry(1, 5, b"e")]), NOW);
    assert!(!resp.success);
    assert_eq!(resp.last_log_index, 0);
    assert_eq!(node.current_term(), 1);
}

#[test]
fn refused_append_moves_next_index_back() {
    let mut node = elected(1, vec![2, 3]);
    let _ = node.propose(b"a".to_vec()).unwrap();
    let _ = node.propose(b"b".to_vec()).unwrap();
    let _ = node.take_ready();

    let no = AppendEntriesResponse {
        term: 1,
        success: false,
        last_log_index: 0,
    };
    node.handle_append_entries_response(2, &no, NOW);
    let ready = node.take_ready();
    assert_eq!(ready.messages.len(), 1);
    assert_eq!(ready.messages[0].0, 2);
    assert_eq!(ready.messages[0].1.prev_log_index, 0);
    assert_eq!(ready.messages[0].1.entries.len(), 3);
}

#[test]
fn stale_append_response_is_ignored() {
    let mut node = elected(1, vec![2, 3]);
    let stale = AppendEntriesResponse {
        term: 0,
        success: true,
        last_log_index: 1,
    };
    node.handle_append_entries_response(2, &stale, NOW);
    assert_eq!(node.match_index_for(2), Some(0));
    assert_eq!(node.commit_index(), 0);
}

#[test]
fn old_terms_are_not_committed_by_counting() {
    let mut node = RaftNode::new(test_config(1, vec![2, 3]), MemStorage::new(), NOW);
    assert!(node
        .handle_append_entries(&append(1, 0, 0, vec![entry(1, 1, b"a")]), NOW)
        .success);
    node.election_deadline_override(PAST);
    node.tick(NOW);
    let yes = RequestVoteResponse {
        term: 2,
        vote_granted: true,
    };
    node.handle_request_vote_response(2, &yes, NOW);
    assert_eq!(node.role(), NodeRole::Leader);

    let up_to = |i: u64| AppendEntriesResponse {
        term: 2,
        success: true,
        last_log_index: i,
    };
    node.handle_append_entries_response(2, &up_to(1), NOW);
    assert_eq!(node.commit_index(), 0);
    node.handle_append_entries_response(2, &up_to(2), NOW);
    assert_eq!(node.commit_index(), 2);
}

#[test]
fn vote_goes_to_no_candidate_with_an_older_log() {
    let mut node = RaftNode::new(test_config(1, vec![2, 3]), MemStorage::new(), NOW);
    assert!(node
        .handle_append_entries(&append(2, 0, 0, vec![entry(2, 1, b"a")]), NOW)
        .success);
    let req = RequestVoteRequest {
        term: 3,
        candidate_id: 3,
        last_log_index: 9,
        last_log_term: 1,
        group_id: 1,
    };
    assert!(!node.handle_request_vote(&req, NOW).vote_granted);
    assert_eq!(node.current_term(), 3);
    assert_eq!(node.voted_for(), 0);
}

fn snapshot(term: u64, index: u64, done: bool) -> InstallSnapshotRequest {
    InstallSnapshotRequest {
        term,
        leader_id: 2,
        last_included_index: index,
        last_included_term: 1,
        offset: 0,
        data: vec![],
        done,
        group_id: 1,
    }
}

#[test]
fn snapshot_is_applied_when_it_is_complete() {
    let mut node = RaftNode::new(test_config(1, vec![2, 3]), MemStorage::new(), NOW);

    let resp = node.handle_install_snapshot(&snapshot(3, 5, false), NOW);
    assert_eq!(resp.term, 3);
    assert_eq!(node.log_snapshot_index(), 0);
    assert_eq!(node.commit_index(), 0);

    let _ = node.handle_install_snapshot(&snapshot(3, 5, true), NOW);
    assert_eq!(node.log_snapshot_index(), 5);
    assert_eq!(node.log_snapshot_term(), 1);
    assert_eq!(node.commit_index(), 5);
    assert_eq!(node.last_applied(), 5);
    assert_eq!(node.leader_id(), 2);

    let resp = node.handle_install_snapshot(&snapshot(2, 9, true), NOW);
    assert_eq!(resp.term, 3);
    assert_eq!(node.log_snapshot_index(), 5);
}

#[test]
fn committed_prefix_survives_a_change_of_leader() {
    let mut nodes: Vec<RaftNode<MemStorage>> = vec![];
    for id in 1..=3u64 {
        let peers = (1..=3).filter(|p| *p != id).collect();
        nodes.push(RaftNode::new(test_config(id, peers), MemStorage::new(), NOW));
    }
    let run_election = |nodes: &mut Vec<RaftNode<MemStorage>>, who: usize, voter: usize| {
        nodes[who].election_deadline_override(PAST);
        nodes[who].tick(NOW);
        let asks = nodes[who].take_ready().vote_requests;
        for (to, ask) in asks {
            if to == voter as u64 + 1 {
                let vote = nodes[voter].handle_request_vote(&ask, NOW);
                nodes[who].handle_request_vote_response(to, &vote, NOW);
            }
        }
    };
    run_election(&mut nodes, 0, 1);
    assert_eq!(nodes[0].role(), NodeRole::Leader);
    nodes[0].propose(b"kept".to_vec()).unwrap();
    for (to, req) in nodes[0].take_ready().messages {
        if to == 2 {
            let resp = nodes[1].handle_append_entries(&req, NOW);
            nodes[0].handle_append_entries_response(2, &resp, NOW);
        }
    }
    assert_eq!(nodes[0].commit_index(), 2);

    // The third node lacks the entry: the second refuses it its vote.
    run_election(&mut nodes, 2, 1);
    assert_eq!(nodes[2].role(), NodeRole::Candidate);
    run_election(&mut nodes, 1, 2);
    assert_eq!(nodes[1].role(), NodeRole::Leader);
    assert_eq!(nodes[1].log.term_at(2), Some(1));
    assert_eq!(nodes[1].log.last_index(), 3);
}

#[test]
fn highest_index_matters_only_to_the_leader_of_the_term() {
    let mut node = RaftNode::new(test_config(1, vec![2, 3]), MemStorage::new(), NOW);
    let answer = AppendEntriesResponse {
        term: 0,
        success: true,
        last_log_index: u64::MAX,
    };
    node.handle_append_entries_response(2, &answer, NOW);
    assert_eq!(node.role(), NodeRole::Follower);
    assert_eq!(node.match_index_for(2), None);
}
