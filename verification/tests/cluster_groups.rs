use nodedb_core::cluster::error::ClusterError;
use nodedb_core::cluster::multi_raft::{
    storage_file, storage_unavailable, tick_group, MultiRaft, MultiRaftReady,
};
use nodedb_core::cluster::routing::{GroupInfo, RoutingTable, METADATA_GROUP_ID};
use nodedb_core::raft::error::RaftError;
use nodedb_core::raft::message::{
    AppendEntriesRequest, InstallSnapshotRequest, LogEntry, RequestVoteRequest,
    RequestVoteResponse,
};
use nodedb_core::raft::node::config::RaftConfig;
use nodedb_core::raft::node::machine::RaftNode;
use nodedb_core::raft::state::{HardState, NodeRole};
use nodedb_core::raft::storage::{LogStorage, MemStorage, StoredView};
use nodedb_core::time::{Duration, Instant};

const NOW: Instant = Instant { nanos: 1_000_000_000 };
const PAST: Instant = Instant { nanos: 999_000_000 };

#[derive(Clone, Default)]
struct FailHardStateStorage {
    inner: MemStorage,
}

impl LogStorage for FailHardStateStorage {
    fn stored(&self) -> StoredView {
        unreachable!("only spoken of in contracts")
    }

    fn reliable(&self) -> bool {
        unreachable!("only spoken of in contracts")
    }

    fn append(&mut self, entries: &[LogEntry]) -> Result<(), RaftError> {
        self.inner.append(entries)
    }

    fn truncate(&mut self, index: u64) -> Result<(), RaftError> {
        self.inner.truncate(index)
    }

    fn load_entries_after(&self, snapshot_index: u64) -> Result<Vec<LogEntry>, RaftError> {
        self.inner.load_entries_after(snapshot_index)
    }

    fn compact(&mut self, index: u64, term: u64) -> Result<(), RaftError> {
        self.inner.compact(index, term)
    }

    fn snapshot_metadata(&self) -> (u64, u64) {
        self.inner.snapshot_metadata()
    }

    fn save_hard_state(&mut self, _state: &HardState) -> Result<(), RaftError> {
        Err(RaftError::Storage {
            detail: "injected hard-state persistence failure".to_string(),
        })
    }

    fn load_hard_state(&self) -> Result<HardState, RaftError> {
        self.inner.load_hard_state()
    }
}

fn test_config(node_id: u64, peers: Vec<u64>) -> RaftConfig {
    RaftConfig {
        node_id,
        group_id: 1,
        peers,
        learners: vec![],
        starts_as_learner: false,
        election_timeout_min: Duration::from_millis(150),
        election_timeout_max: Duration::from_millis(300),
        heartbeat_interval: Duration::from_millis(50),
    }
}

fn all_groups_due(mr: &mut MultiRaft<MemStorage>) {
    for node in mr.groups_mut().values_mut() {
        node.election_deadline_override(PAST);
    }
}

fn led_groups() -> MultiRaft<MemStorage> {
    let rt = RoutingTable::uniform(4, &[1], 1);
    let mut mr = MultiRaft::new(1, rt.clone());
    for gid in rt.group_ids() {
        mr.add_group(gid, vec![], MemStorage::new(), NOW).unwrap();
    }
    all_groups_due(&mut mr);
    mr.tick(NOW).unwrap();
    mr
}

#[test]
fn single_node_multi_raft() {
    // uniform(4, ...) creates 4 data groups (1..=4) plus metadata group 0.
    let rt = RoutingTable::uniform(4, &[1], 1);
    let mut mr = MultiRaft::new(1, rt.clone());

    for gid in rt.group_ids() {
        mr.add_group(gid, vec![], MemStorage::new(), NOW).unwrap();
    }
    // 4 data groups + 1 metadata group.
    assert_eq!(mr.group_count(), 5);

    for node in mr.groups_mut().values_mut() {
        node.election_deadline_override(PAST);
    }

    let ready = mr.tick(NOW).unwrap();
    assert_eq!(ready.groups.len(), 5);
}

#[test]
fn propose_routes_to_correct_group() {
    let rt = RoutingTable::uniform(4, &[1], 1);
    let mut mr = MultiRaft::new(1, rt.clone());

    for gid in rt.group_ids() {
        mr.add_group(gid, vec![], MemStorage::new(), NOW).unwrap();
    }
    for node in mr.groups_mut().values_mut() {
        node.election_deadline_override(PAST);
    }
    mr.tick(NOW).unwrap();
    for (gid, ready) in mr.tick(NOW).unwrap().groups {
        if let Some(last) = ready.committed_entries.last() {
            mr.advance_applied(gid, last.index).unwrap();
        }
    }

    // vshard 0 maps to data group 1, vshard 256 also maps to group 1 (256 % 4 + 1 = 1).
    let (gid, idx) = mr.propose(0, b"cmd-shard-0".to_vec()).unwrap();
    assert!(idx > 0);
    assert_eq!(gid, 1);

    let (gid, idx) = mr.propose(256, b"cmd-shard-256".to_vec()).unwrap();
    assert!(idx > 0);
    assert_eq!(gid, 1);
}

#[test]
fn add_group_as_learner_starts_in_learner_role() {
    // uniform(1, ...) creates data group 1 plus metadata group 0.
    let rt = RoutingTable::uniform(1, &[1, 2], 2);
    let mut mr = MultiRaft::new(2, rt);

    // Data group 1: join as learner (node 1 is the voter, we're node 2 = learner).
    mr.add_group_as_learner(1, vec![1], vec![], MemStorage::new(), NOW)
        .unwrap();

    let node = mr.groups.get(&1).unwrap();
    assert_eq!(node.role(), NodeRole::Learner);
    assert_eq!(node.voters(), &[1]);
}

#[test]
fn reopened_group_restores_persisted_hard_state() {
    let rt = RoutingTable::uniform(1, &[1], 1);

    let mut mr = MultiRaft::new(1, rt.clone());
    mr.add_group(0, vec![], MemStorage::new(), NOW).unwrap();
    mr.groups_mut()
        .get_mut(&0)
        .unwrap()
        .election_deadline_override(PAST);
    let _ = mr.tick(NOW).unwrap();
    let disk = mr.groups.get(&0).unwrap().log.storage().clone();
    drop(mr);

    let mut reopened = MultiRaft::new(1, rt);
    reopened.add_group(0, vec![], disk, NOW).unwrap();
    let node = reopened.groups.get(&0).unwrap();
    assert_eq!(node.current_term(), 1);
    assert_eq!(node.voted_for(), 1);
}

#[test]
fn reopened_group_restores_snapshot_applied_watermark() {
    let rt = RoutingTable::uniform(1, &[1], 1);

    let mut storage = MemStorage::new();
    storage
        .append(&[LogEntry {
            term: 4,
            index: 1,
            data: b"a".to_vec(),
        }])
        .unwrap();
    storage
        .append(&[LogEntry {
            term: 4,
            index: 2,
            data: b"b".to_vec(),
        }])
        .unwrap();
    storage
        .append(&[LogEntry {
            term: 4,
            index: 3,
            data: b"c".to_vec(),
        }])
        .unwrap();
    storage.compact(2, 4).unwrap();

    let mut reopened = MultiRaft::new(1, rt);
    reopened.add_group(0, vec![], storage, NOW).unwrap();
    let node = reopened.groups.get(&0).unwrap();
    assert_eq!(node.log_snapshot_index(), 2);
    assert_eq!(node.commit_index(), 2);
    assert_eq!(node.last_applied(), 2);
    assert_eq!(reopened.snapshot_metadata(0).unwrap(), (0, 2, 4));
}

#[test]
fn tick_group_blocks_ready_when_hard_state_persist_fails() {
    let mut node = RaftNode::new(
        test_config(1, vec![2, 3]),
        FailHardStateStorage::default(),
        NOW,
    );
    node.restore(NOW).unwrap();
    node.election_deadline_override(PAST);
    let err = tick_group(&mut node, NOW).unwrap_err();
    assert!(matches!(err, RaftError::Storage { .. }));
    let ready = node.take_ready();
    assert!(ready.hard_state.is_some());
    assert_eq!(ready.vote_requests.len(), 2);
    assert_eq!(node.current_term(), 1);
    assert_eq!(node.voted_for(), 1);
}

#[test]
fn refused_hard_state_stops_the_tick() {
    let rt = RoutingTable::uniform(1, &[1, 2], 2);
    let mut mr = MultiRaft::new(1, rt);
    mr.add_group(1, vec![2], FailHardStateStorage::default(), NOW)
        .unwrap();
    mr.groups_mut()
        .get_mut(&1)
        .unwrap()
        .election_deadline_override(PAST);
    assert!(matches!(mr.tick(NOW), Err(ClusterError::Raft(RaftError::Storage { .. }))));
}

#[test]
fn routing_table_spreads_shards_over_data_groups() {
    let rt = RoutingTable::uniform(4, &[1, 2, 3], 3);
    assert_eq!(rt.group_ids(), vec![0, 1, 2, 3, 4]);
    assert_eq!(rt.group_for_vshard(0).unwrap(), 1);
    assert_eq!(rt.group_for_vshard(5).unwrap(), 2);
    assert_eq!(rt.group_for_vshard(1023).unwrap(), 4);
    assert!(matches!(
        rt.group_for_vshard(1024),
        Err(ClusterError::VShardNotMapped { vshard_id: 1024 })
    ));
    assert_eq!(rt.vshards_for_group(1).len(), 256);
    assert!(rt.vshards_for_group(METADATA_GROUP_ID).is_empty());
}

#[test]
fn leader_of_a_group_can_be_recorded() {
    let mut rt = RoutingTable::uniform(2, &[1, 2], 2);
    rt.set_leader(1, 2);
    assert_eq!(rt.leader_for_vshard(0).unwrap(), 2);
    let info: &GroupInfo = rt.group_info(1).unwrap();
    assert_eq!(info.leader, 2);
    assert!(rt.group_info(9).is_none());
}

#[test]
fn unknown_groups_are_refused() {
    let mut mr = led_groups();
    let missing = 77u64;
    assert!(matches!(
        mr.propose_to_group(missing, vec![]),
        Err(ClusterError::GroupNotFound { group_id: 77 })
    ));
    assert!(matches!(
        mr.advance_applied(missing, 1),
        Err(ClusterError::GroupNotFound { group_id: 77 })
    ));
    let append = AppendEntriesRequest {
        term: 1,
        leader_id: 2,
        prev_log_index: 0,
        prev_log_term: 0,
        entries: vec![],
        leader_commit: 0,
        group_id: missing,
    };
    assert!(matches!(
        mr.handle_append_entries(&append, NOW),
        Err(ClusterError::GroupNotFound { group_id: 77 })
    ));
    let ask = RequestVoteRequest {
        term: 1,
        candidate_id: 2,
        last_log_index: 0,
        last_log_term: 0,
        group_id: missing,
    };
    assert!(mr.handle_request_vote(&ask, NOW).is_err());
    let vote = RequestVoteResponse {
        term: 1,
        vote_granted: true,
    };
    assert!(mr
        .handle_request_vote_response(missing, 2, &vote, NOW)
        .is_err());
    let snapshot = InstallSnapshotRequest {
        term: 1,
        leader_id: 2,
        last_included_index: 1,
        last_included_term: 1,
        offset: 0,
        data: vec![],
        done: true,
        group_id: missing,
    };
    assert!(mr.handle_install_snapshot(&snapshot, NOW).is_err());
    assert_eq!(mr.match_index_for(missing, 2), None);
    assert_eq!(mr.last_applied(missing), None);
    assert!(mr.snapshot_metadata(missing).is_err());
    assert!(matches!(
        mr.propose(5000, vec![]),
        Err(ClusterError::VShardNotMapped { vshard_id: 5000 })
    ));
}

#[test]
fn proposals_leave_other_groups_alone() {
    let mut mr = led_groups();
    let before = mr.groups.get(&2).unwrap().log.last_index();
    mr.propose_to_group(1, b"one".to_vec()).unwrap();
    assert_eq!(mr.groups.get(&2).unwrap().log.last_index(), before);
    assert_eq!(mr.groups.get(&1).unwrap().log.last_index(), before + 1);
}

#[test]
fn group_statuses_describe_every_group() {
    let mr = led_groups();
    let statuses = mr.group_statuses();
    let ids: Vec<u64> = statuses.iter().map(|s| s.group_id).collect();
    assert_eq!(ids, vec![0, 1, 2, 3, 4]);
    assert!(statuses.iter().all(|s| s.role == "Leader" && s.term == 1 && s.leader_id == 1));
    assert!(statuses.iter().all(|s| s.commit_index == 1));
    assert_eq!(mr.applied_indices().len(), 5);
    assert_eq!(mr.leader_for_vshard(0).unwrap(), Some(1));
}

#[test]
fn snapshot_reaches_its_group() {
    let rt = RoutingTable::uniform(1, &[1, 2], 2);
    let mut mr = MultiRaft::new(2, rt);
    mr.add_group(1, vec![1], MemStorage::new(), NOW).unwrap();
    let snapshot = InstallSnapshotRequest {
        term: 3,
        leader_id: 1,
        last_included_index: 7,
        last_included_term: 2,
        offset: 0,
        data: vec![],
        done: true,
        group_id: 1,
    };
    assert_eq!(mr.handle_install_snapshot(&snapshot, NOW).unwrap().term, 3);
    assert_eq!(mr.snapshot_metadata(1).unwrap(), (3, 7, 2));
    assert_eq!(mr.last_applied(1), Some(7));
}

#[test]
fn timeouts_reach_the_groups_mounted_later() {
    let min = Duration::from_millis(10);
    let max = Duration::from_millis(20);
    let beat = Duration::from_millis(5);
    let mut mr: MultiRaft<MemStorage> = MultiRaft::new(1, RoutingTable::uniform(1, &[1], 1))
        .with_election_timeout(min, max)
        .with_heartbeat_interval(beat);
    mr.add_group(1, vec![], MemStorage::new(), NOW).unwrap();
    let config = &mr.groups_mut()[&1].config;
    assert_eq!(config.election_timeout_min, min);
    assert_eq!(config.election_timeout_max, max);
    assert_eq!(config.heartbeat_interval, beat);
}

#[test]
fn committed_entries_are_counted_over_all_groups() {
    let mut mr: MultiRaft<MemStorage> = MultiRaft::new(1, RoutingTable::uniform(2, &[1], 1));
    for g in 0..3 {
        mr.add_group(g, vec![], MemStorage::new(), NOW).unwrap();
    }
    all_groups_due(&mut mr);
    let ready = mr.tick(NOW).unwrap();
    assert!(!ready.is_empty());
    // Each sole voter opened its term with one entry.
    assert_eq!(ready.total_committed(), 3);
    assert_eq!(mr.applied_indices(), vec![(0, 0), (1, 0), (2, 0)]);
}

#[test]
fn routing_can_be_changed_in_place() {
    let mut mr: MultiRaft<MemStorage> = MultiRaft::new(1, RoutingTable::uniform(2, &[1, 2], 2));
    mr.routing_mut().set_leader(1, 2);
    assert_eq!(mr.routing().group_info(1).unwrap().leader, 2);
}

#[test]
fn storage_with_a_gap_is_not_mounted() {
    let mut storage = MemStorage::new();
    storage
        .append(&[LogEntry {
            term: 1,
            index: 2,
            data: vec![],
        }])
        .unwrap();
    let mut mr: MultiRaft<MemStorage> = MultiRaft::new(1, RoutingTable::uniform(1, &[1], 1));
    match mr.add_group(7, vec![], storage, NOW) {
        Err(ClusterError::Transport { detail }) => assert_eq!(
            detail,
            "failed to restore raft group 7: entry 2 does not follow entry 0"
        ),
        _ => panic!("a log with a gap cannot be taken up"),
    }
    assert_eq!(mr.group_count(), 0);
}

#[test]
fn storage_is_named_after_its_group() {
    assert_eq!(storage_file(17), "raft/group-17.redb");
    match storage_unavailable(17, "locked") {
        ClusterError::Transport { detail } => assert_eq!(
            detail,
            "failed to open raft storage for group 17: locked"
        ),
        other => panic!("unexpected {other:?}"),
    }
}

#[test]
fn no_output_is_empty() {
    let ready = MultiRaftReady::default();
    assert!(ready.is_empty());
    assert_eq!(ready.total_committed(), 0);
}

#[test]
fn status_can_be_copied() {
    let mr = led_groups();
    let statuses = mr.group_statuses();
    let copy = statuses[0].clone();
    assert_eq!(copy.role, statuses[0].role);
    assert_eq!(copy.group_id, statuses[0].group_id);
    assert_eq!(copy.term, statuses[0].term);
    assert_eq!(copy.vshard_count, statuses[0].vshard_count);
}
