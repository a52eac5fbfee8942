use nodedb_core::cluster::checkpoint::{
    CheckpointRow, MigrationCheckpointPayload, MigrationPhaseTag, MigrationStateTable,
};
use nodedb_core::cluster::error::ClusterError;
use nodedb_core::cluster::migration::{MigrationPhase, MigrationState, MigrationTracker};
use nodedb_core::cluster::migration_executor::{
    MigrationAction, MigrationEvent, MigrationExecutor, MigrationRequest, MigrationRun,
    MigrationStage,
};
use nodedb_core::cluster::routing::RoutingTable;
use nodedb_core::time::{Duration, Instant};

const NOW: Instant = Instant { nanos: 5_000_000_000 };

fn request() -> MigrationRequest {
    MigrationRequest {
        vshard_id: 0,
        source_node: 1,
        target_node: 2,
        write_pause_budget_us: 500_000,
    }
}

fn executor() -> MigrationExecutor {
    MigrationExecutor::new(RoutingTable::uniform(1, &[1], 1))
}

fn seen(id: Option<u64>, addr: &str, commit: u64, matched: u64) -> MigrationEvent {
    MigrationEvent::Seen {
        stable_id: id,
        addr: Some(addr.to_string()),
        commit_index: Some(commit),
        target_match: Some(matched),
    }
}

/// Brings a run to its first look at the target.
fn joined(ex: &mut MigrationExecutor, run: &mut MigrationRun) {
    let act = ex.advance(run, MigrationEvent::Commit { commit_index: Some(10) }, NOW, 0);
    assert!(matches!(
        act,
        MigrationAction::Checkpoint {
            attempt: 0,
            payload: MigrationCheckpointPayload::AddLearner { .. }
        }
    ));
    let act = ex.advance(run, MigrationEvent::Done, NOW, 0);
    assert!(matches!(act, MigrationAction::AddLearner { group_id: 1, node_id: 2 }));
    let act = ex.advance(
        run,
        MigrationEvent::LearnerAdded {
            commit_index: Some(11),
        },
        NOW,
        0,
    );
    assert!(matches!(act, MigrationAction::RegisterTarget { node_id: 2 }));
    let act = ex.advance(run, MigrationEvent::Done, NOW, 0);
    assert!(matches!(
        act,
        MigrationAction::Checkpoint {
            attempt: 1,
            payload: MigrationCheckpointPayload::CatchUp {
                vshard_id: 0,
                learner_log_index_at_add: 11
            }
        }
    ));
    let act = ex.advance(run, MigrationEvent::Done, NOW, 0);
    assert!(matches!(act, MigrationAction::ObserveTarget { .. }));
    let act = ex.advance(run, seen(Some(7), "a:1", 12, 0), NOW, 0);
    assert!(matches!(act, MigrationAction::Poll { .. }));
}

#[test]
fn migration_tracker_lifecycle() {
    let mut tracker = MigrationTracker::new();
    assert_eq!(tracker.active_count(), 0);

    let mut state = MigrationState::new(0, 0, 1, 1, 2, 500_000);
    state.start_base_copy(100, NOW);
    tracker.add(state);

    assert_eq!(tracker.active_count(), 1);
    assert_eq!(tracker.snapshot(NOW).len(), 1);
    assert!(tracker.snapshot(NOW)[0].is_active);
}

#[test]
fn migration_executor_phase1() {
    let mut ex = executor();
    let mut run = ex.start(request(), 42).unwrap();
    joined(&mut ex, &mut run);
    assert_eq!(run.stage, MigrationStage::Polling);
    // Without a metadata group checkpoints are not kept.
    assert!(ex
        .propose_checkpoint(
            run.migration_id,
            0,
            MigrationCheckpointPayload::CatchUp {
                vshard_id: 0,
                learner_log_index_at_add: 11
            },
            1,
        )
        .is_none());
}

#[test]
fn migration_request_default() {
    let req = MigrationRequest::default();
    assert_eq!(req.write_pause_budget_us, 500_000);
}

#[test]
fn migration_runs_to_its_end() {
    let mut ex = executor().with_metadata_proposer().with_catalog();
    let mut run = ex.start(request(), 42).unwrap();
    joined(&mut ex, &mut run);

    let act = ex.advance(&mut run, seen(Some(7), "a:1", 12, 11), NOW, 0);
    assert!(matches!(act, MigrationAction::Poll { .. }));
    let act = ex.advance(&mut run, seen(Some(7), "a:1", 12, 12), NOW, 0);
    assert!(matches!(act, MigrationAction::PromoteLearner { group_id: 1, node_id: 2 }));
    let act = ex.advance(&mut run, MigrationEvent::Done, NOW, 0);
    assert!(matches!(act, MigrationAction::Checkpoint { attempt: 2, .. }));
    let act = ex.advance(&mut run, MigrationEvent::Done, NOW, 0);
    assert!(matches!(act, MigrationAction::Checkpoint { attempt: 3, .. }));
    let act = ex.advance(&mut run, MigrationEvent::Done, NOW, 0);
    assert!(matches!(act, MigrationAction::TransferLeadership { group_id: 1, node_id: 2 }));
    let act = ex.advance(&mut run, MigrationEvent::Done, NOW, 0);
    assert!(matches!(act, MigrationAction::Checkpoint { attempt: 4, .. }));

    assert!(ex.ghost_table().stubs.is_empty());
    let act = ex.advance(&mut run, MigrationEvent::Done, NOW, 99);
    assert!(matches!(act, MigrationAction::SaveGhosts { vshard_id: 0 }));
    assert_eq!(ex.ghost_table().stubs.len(), 1);
    assert_eq!(ex.ghost_table().stubs[0].node_id, "vshard-0");
    assert_eq!(ex.ghost_table().stubs[0].created_at_ms, 99);

    let later = Instant {
        nanos: NOW.nanos + 3_000_000,
    };
    let act = ex.advance(&mut run, MigrationEvent::Done, later, 99);
    assert!(matches!(
        act,
        MigrationAction::Checkpoint {
            attempt: 5,
            payload: MigrationCheckpointPayload::Complete {
                actual_pause_us: 3_000,
                ghost_stub_installed: true,
                ..
            }
        }
    ));
    let act = ex.advance(&mut run, MigrationEvent::Done, later, 99);
    assert!(matches!(act, MigrationAction::Finish));
    let act = ex.advance(&mut run, MigrationEvent::Done, later, 99);
    assert!(matches!(act, MigrationAction::Ignore));

    let result = run.result(later);
    assert!(matches!(result.phase, MigrationPhase::Completed { actual_pause_us: 3_000 }));
}

#[test]
fn routing_is_changed_directly_without_a_metadata_group() {
    let mut ex = executor();
    let mut run = ex.start(request(), 42).unwrap();
    joined(&mut ex, &mut run);
    let _ = ex.advance(&mut run, seen(Some(7), "a:1", 12, 12), NOW, 0);
    let _ = ex.advance(&mut run, MigrationEvent::Done, NOW, 0);
    let _ = ex.advance(&mut run, MigrationEvent::Done, NOW, 0);
    let act = ex.advance(&mut run, MigrationEvent::Done, NOW, 0);
    assert!(matches!(act, MigrationAction::Checkpoint { attempt: 4, .. }));
    assert_eq!(ex.routing.leader_for_vshard(0).unwrap(), 2);
    // No catalog: the stub is kept in memory only and the migration completes.
    let act = ex.advance(&mut run, MigrationEvent::Done, NOW, 1);
    assert!(matches!(act, MigrationAction::Checkpoint { attempt: 5, .. }));
}

#[test]
fn migration_is_given_up_when_the_target_reconnects() {
    let mut ex = executor();
    let mut run = ex.start(request(), 42).unwrap();
    joined(&mut ex, &mut run);
    let act = ex.advance(&mut run, seen(Some(8), "a:1", 12, 0), NOW, 0);
    match act {
        MigrationAction::Abort {
            error: ClusterError::Transport { detail },
        } => {
            assert!(detail.contains('2'), "{detail}");
            assert!(matches!(run.state.phase, MigrationPhase::Failed { .. }));
        }
        _ => panic!("a replaced connection must end the migration"),
    }
    assert_eq!(run.stage, MigrationStage::Aborted);
}

#[test]
fn migration_is_given_up_when_the_target_moves() {
    let mut ex = executor();
    let mut run = ex.start(request(), 42).unwrap();
    joined(&mut ex, &mut run);
    let act = ex.advance(&mut run, seen(Some(7), "b:1", 12, 0), NOW, 0);
    match act {
        MigrationAction::Abort {
            error: ClusterError::Transport { detail },
        } => {
            assert!(detail.contains("Some(\"a:1\")"), "{detail}");
            assert!(detail.contains("Some(\"b:1\")"), "{detail}");
        }
        _ => panic!("a changed address must end the migration"),
    }
}

#[test]
fn migration_is_given_up_when_the_target_is_too_slow() {
    let mut ex = executor();
    let mut run = ex.start(request(), 42).unwrap();
    joined(&mut ex, &mut run);
    let late = Instant {
        nanos: NOW.nanos + 60_000_000_000,
    };
    let act = ex.advance(&mut run, seen(Some(7), "a:1", 12, 3), late, 0);
    assert!(matches!(
        act,
        MigrationAction::Abort {
            error: ClusterError::Transport { .. }
        }
    ));
}

#[test]
fn cut_over_that_would_pause_too_long_is_refused() {
    let mut ex = executor();
    let mut req = request();
    req.write_pause_budget_us = 5;
    let mut run = ex.start(req, 42).unwrap();
    joined(&mut ex, &mut run);
    let _ = ex.advance(&mut run, seen(Some(7), "a:1", 12, 12), NOW, 0);
    let _ = ex.advance(&mut run, MigrationEvent::Done, NOW, 0);
    let act = ex.advance(&mut run, MigrationEvent::Done, NOW, 0);
    assert!(matches!(
        act,
        MigrationAction::Abort {
            error: ClusterError::PauseBudgetExceeded {
                estimated_us: 10_000,
                budget_us: 5
            }
        }
    ));
}

#[test]
fn failure_outside_ends_the_migration() {
    let mut ex = executor();
    let mut run = ex.start(request(), 42).unwrap();
    let act = ex.advance(
        &mut run,
        MigrationEvent::Failed {
            error: ClusterError::GroupNotFound { group_id: 1 },
        },
        NOW,
        0,
    );
    assert!(matches!(
        act,
        MigrationAction::Abort {
            error: ClusterError::GroupNotFound { group_id: 1 }
        }
    ));
    assert_eq!(run.stage, MigrationStage::Aborted);
}

#[test]
fn second_migration_of_a_shard_is_refused() {
    let mut table = MigrationStateTable::new();
    table.rows.push(CheckpointRow {
        migration_id: Some(9),
        payload: MigrationCheckpointPayload::CatchUp {
            vshard_id: 0,
            learner_log_index_at_add: 3,
        },
    });
    let ex = executor().with_migration_state(table);
    assert!(matches!(
        ex.execute(request()),
        Err(ClusterError::MigrationInProgress { vshard_id: 0 })
    ));
    let mut other = request();
    other.vshard_id = 1;
    assert!(ex.execute(other).is_ok());
    other.vshard_id = 5000;
    assert!(matches!(
        ex.execute(other),
        Err(ClusterError::VShardNotMapped { vshard_id: 5000 })
    ));
}

#[test]
fn migrations_get_random_ids() {
    let ex = executor();
    let a = ex.execute(request()).unwrap().migration_id;
    let b = ex.execute(request()).unwrap().migration_id;
    assert_ne!(a, b);
    // Version and variant of a random id.
    assert_eq!((a >> 76) & 0xf, 4);
    assert_eq!((a >> 62) & 0x3, 2);
}

#[test]
fn checkpoint_entry_names_its_migration() {
    let ex = executor().with_metadata_proposer();
    let payload = MigrationCheckpointPayload::CatchUp {
        vshard_id: 3,
        learner_log_index_at_add: 4,
    };
    let id = 0x0123_4567_89ab_cdef_0123_4567_89ab_cdef_u128;
    let e = ex.propose_checkpoint(id, 1, payload, 77).unwrap();
    assert_eq!(e.migration_id, "01234567-89ab-cdef-0123-456789abcdef");
    assert_eq!(e.phase, MigrationPhaseTag::CatchUp);
    assert_eq!(e.attempt, 1);
    assert_eq!(e.ts_ms, 77);
    assert_eq!(e.crc32c, payload.crc32c());
    let other = MigrationCheckpointPayload::CatchUp {
        vshard_id: 3,
        learner_log_index_at_add: 5,
    };
    assert_ne!(e.crc32c, other.crc32c());
}

#[test]
fn tracker_forgets_old_migrations() {
    let mut tracker = MigrationTracker::new();
    let mut done = MigrationState::new(1, 1, 1, 1, 2, 500_000);
    done.start_base_copy(1, NOW);
    done.complete(7, NOW);
    tracker.add(done);
    let mut running = MigrationState::new(2, 1, 1, 1, 2, 500_000);
    running.start_base_copy(1, NOW);
    tracker.add(running);
    assert_eq!(tracker.active_count(), 1);

    let later = Instant {
        nanos: NOW.nanos + 10_000_000_000,
    };
    tracker.gc(Duration::from_secs(60), later);
    assert_eq!(tracker.snapshot(later).len(), 2);
    tracker.gc(Duration::from_secs(0), later);
    let left = tracker.snapshot(later);
    assert_eq!(left.iter().filter(|s| s.vshard_id == 2).count(), 1);
}
