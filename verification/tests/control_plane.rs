use nodedb_core::control::apply_loop::{ApplyAction, ApplyEvent, ApplyRun};
use nodedb_core::control::distributed_applier::{
    create_distributed_applier, ApplyBatch, DistributedApplier,
};
use nodedb_core::control::error::ControlError;
use nodedb_core::control::propose_tracker::ProposeTracker;
use nodedb_core::control::replicated::{ReplicatedEntry, ReplicatedWrite};
use nodedb_core::control::watermark::GroupAppliedWatchers;
use nodedb_core::raft::message::LogEntry;
use nodedb_core::time::Instant;

const NOW: Instant = Instant { nanos: 1_000 };

#[test]
fn replicated_entry_roundtrip() {
    let entry = ReplicatedEntry::new(
        1,
        42,
        ReplicatedWrite::PointPut {
            collection: "users".into(),
            document_id: "u1".into(),
            value: b"alice".to_vec(),
        },
    );
    let original_key = entry.idempotency_key;
    assert_ne!(original_key, 0, "idempotency_key must be non-zero");

    let bytes = entry.to_bytes();
    let decoded = ReplicatedEntry::from_bytes(&bytes).unwrap();
    assert_eq!(decoded.tenant_id, 1);
    assert_eq!(decoded.vshard_id, 42);
    assert_eq!(
        decoded.idempotency_key, original_key,
        "idempotency_key roundtrip"
    );
    match decoded.write {
        ReplicatedWrite::PointPut {
            collection,
            document_id,
            value,
        } => {
            assert_eq!(collection, "users");
            assert_eq!(document_id, "u1");
            assert_eq!(value, b"alice");
        }
        other => panic!("expected PointPut, got {other:?}"),
    }
}

#[test]
fn all_write_variants_serialize() {
    let writes = vec![
        ReplicatedWrite::PointPut {
            collection: "c".into(),
            document_id: "d".into(),
            value: vec![1, 2, 3],
        },
        ReplicatedWrite::PointDelete {
            collection: "c".into(),
            document_id: "d".into(),
        },
        ReplicatedWrite::VectorInsert {
            collection: "v".into(),
            vector: vec![1.0f32, 2.0, 3.0].into_iter().map(f32::to_bits).collect(),
            dim: 3,
            field_name: "embedding".into(),
            pk_bytes: Some(b"doc-1".to_vec()),
        },
        ReplicatedWrite::CrdtApply {
            collection: "c".into(),
            document_id: "d".into(),
            delta: vec![0xAB],
            peer_id: 7,
        },
        ReplicatedWrite::EdgePut {
            collection: "col".into(),
            src_id: "a".into(),
            label: "knows".into(),
            dst_id: "b".into(),
            properties: vec![],
        },
        ReplicatedWrite::EdgeDelete {
            collection: "col".into(),
            src_id: "a".into(),
            label: "knows".into(),
            dst_id: "b".into(),
        },
        ReplicatedWrite::ArrayOp {
            array: "genome".into(),
            op_bytes: vec![0xde, 0xad],
            schema_hlc_bytes: [0u8; 18],
        },
        ReplicatedWrite::ArraySchema {
            array: "genome".into(),
            snapshot_payload: vec![0xbe, 0xef],
            schema_hlc_bytes: [1u8; 18],
        },
    ];

    for write in writes {
        let entry = ReplicatedEntry::new(1, 0, write);
        let bytes = entry.to_bytes();
        let decoded = ReplicatedEntry::from_bytes(&bytes);
        assert!(decoded.is_some(), "failed to roundtrip: {entry:?}");
        assert_eq!(decoded.unwrap().to_bytes(), bytes);
    }
}

#[test]
fn vector_comes_back_bit_by_bit() {
    let bits: Vec<u32> = vec![1.5f32, f32::NAN, -0.0].into_iter().map(f32::to_bits).collect();
    let entry = ReplicatedEntry::new(
        9,
        3,
        ReplicatedWrite::VectorInsert {
            collection: "v".into(),
            vector: bits.clone(),
            dim: 3,
            field_name: "embedding".into(),
            pk_bytes: None,
        },
    );
    match ReplicatedEntry::from_bytes(&entry.to_bytes()).unwrap().write {
        ReplicatedWrite::VectorInsert {
            vector, pk_bytes, ..
        } => {
            assert_eq!(vector, bits);
            assert!(pk_bytes.is_none());
        }
        other => panic!("expected VectorInsert, got {other:?}"),
    }
}

#[test]
fn other_bytes_are_no_entry() {
    assert!(ReplicatedEntry::from_bytes(b"").is_none());
    assert!(ReplicatedEntry::from_bytes(b"no such thing").is_none());
    let mut bytes = put_entry(5).to_bytes();
    bytes.pop();
    assert!(ReplicatedEntry::from_bytes(&bytes).is_none());
}

#[test]
fn text_that_is_not_utf8_is_no_entry() {
    let entry = ReplicatedEntry::with_key(
        1,
        0,
        5,
        ReplicatedWrite::PointDelete {
            collection: "cc".into(),
            document_id: "dd".into(),
        },
    );
    let mut bytes = entry.to_bytes();
    let at = bytes
        .windows(2)
        .position(|w| w == b"cc")
        .expect("the name is stored as it is");
    bytes[at] = 0xFF;
    assert!(ReplicatedEntry::from_bytes(&bytes).is_none());
}

#[test]
fn propose_tracker_register_and_complete() {
    let mut tracker = ProposeTracker::new();
    assert!(tracker.register(1, 5, 0xdead_beef, "waiter").is_none());

    let (waiter, result) = tracker
        .complete(1, 5, 0xdead_beef, Ok(b"result".to_vec()))
        .unwrap();
    assert_eq!(waiter, "waiter");
    assert_eq!(result.unwrap(), b"result");
}

#[test]
fn propose_tracker_no_waiter_returns_false() {
    let mut tracker: ProposeTracker<u32> = ProposeTracker::new();
    assert!(tracker.complete(1, 99, 0, Ok(vec![])).is_none());
}

#[test]
fn propose_tracker_key_mismatch_surfaces_retryable_leader_change() {
    let mut tracker = ProposeTracker::new();
    assert!(tracker.register(1, 5, 0xaaaa, 0u32).is_none());

    // A different proposer's entry (different idempotency_key)
    // committed at the same (group_id, log_index). The waiter must
    // see RetryableLeaderChange, not the success result that belongs
    // to a different proposal.
    let (_, result) = tracker
        .complete(1, 5, 0xbbbb, Ok(b"other-proposers-payload".to_vec()))
        .unwrap();
    match result {
        Err(ControlError::RetryableLeaderChange {
            group_id,
            log_index,
        }) => {
            assert_eq!(group_id, 1);
            assert_eq!(log_index, 5);
        }
        other => panic!("expected RetryableLeaderChange, got {other:?}"),
    }
}

#[test]
fn propose_tracker_late_register_key_mismatch_surfaces_retryable_leader_change() {
    let mut tracker = ProposeTracker::new();

    // Apply won the race and stored a completed result for another
    // proposer's entry at the same (group_id, log_index).
    assert!(tracker
        .complete(1, 5, 0xbbbb, Ok(b"other-proposers-payload".to_vec()))
        .is_none());

    let (_, result) = tracker.register(1, 5, 0xaaaa, 0u32).unwrap();
    match result {
        Err(ControlError::RetryableLeaderChange {
            group_id,
            log_index,
        }) => {
            assert_eq!(group_id, 1);
            assert_eq!(log_index, 5);
        }
        other => panic!("expected RetryableLeaderChange, got {other:?}"),
    }
}

#[test]
fn propose_tracker_late_register_matching_key_preserves_success() {
    let mut tracker = ProposeTracker::new();
    assert!(tracker.complete(1, 5, 0xaaaa, Ok(b"result".to_vec())).is_none());

    let (_, result) = tracker.register(1, 5, 0xaaaa, 0u32).unwrap();
    assert_eq!(result.unwrap(), b"result");
}

#[test]
fn propose_tracker_zero_applied_key_passes_through_explicit_error() {
    // Empty raft entries (leader-change no-ops) carry no idempotency
    // key. The applier passes `applied_key = 0` together with an
    // explicit `RetryableLeaderChange` result; the tracker must
    // forward that result rather than treating the zero key as a
    // mismatch (which would produce the same error but mask the
    // distinction in logs).
    let mut tracker = ProposeTracker::new();
    assert!(tracker.register(1, 5, 0xaaaa, 0u32).is_none());
    let (_, result) = tracker
        .complete(
            1,
            5,
            0,
            Err(ControlError::RetryableLeaderChange {
                group_id: 1,
                log_index: 5,
            }),
        )
        .unwrap();
    assert!(matches!(
        result,
        Err(ControlError::RetryableLeaderChange { .. })
    ));
}

#[test]
fn proposals_of_different_places_do_not_meet() {
    let mut tracker = ProposeTracker::new();
    assert!(tracker.register(1, 5, 7, 1u32).is_none());
    assert!(tracker.complete(5, 1, 7, Ok(vec![])).is_none());
    assert!(tracker.complete(1, 6, 7, Ok(vec![])).is_none());
    assert!(tracker.complete(1, 5, 7, Ok(vec![])).is_some());
}

#[test]
fn marks_only_rise() {
    let mut w = GroupAppliedWatchers::new();
    assert_eq!(w.applied(1), 0);
    w.bump(1, 9);
    w.bump(1, 4);
    assert_eq!(w.applied(1), 9);
    assert_eq!(w.applied(2), 0);

    let mut tracker: ProposeTracker<u32> = ProposeTracker::new().with_group_watchers(w);
    let _ = tracker.complete(1, 12, 0, Ok(vec![]));
    assert_eq!(tracker.group_watchers.as_ref().unwrap().applied(1), 12);
}

fn put_entry(key: u64) -> ReplicatedEntry {
    ReplicatedEntry::with_key(
        1,
        0,
        key,
        ReplicatedWrite::PointPut {
            collection: "c".into(),
            document_id: "d".into(),
            value: vec![1],
        },
    )
}

fn log_entry(index: u64, data: Vec<u8>) -> LogEntry {
    LogEntry {
        term: 1,
        index,
        data,
    }
}

#[test]
fn empty_entries_settle_waiting_proposers() {
    let (mut applier, capacity): (DistributedApplier<u32>, usize) =
        create_distributed_applier(ProposeTracker::new());
    assert_eq!(capacity, 1024);
    assert!(applier.tracker().register(1, 5, 0xaaaa, 11).is_none());

    let step = applier.apply_committed(1, &[log_entry(5, vec![]), log_entry(6, vec![9])]);
    assert_eq!(step.deliveries.len(), 1);
    assert_eq!(step.deliveries[0].0, 11);
    assert!(matches!(
        step.deliveries[0].1,
        Err(ControlError::RetryableLeaderChange {
            group_id: 1,
            log_index: 5
        })
    ));
    let batch = step.batch.as_ref().unwrap();
    assert_eq!(batch.group_id, 1);
    assert_eq!(batch.entries.len(), 1);
    assert_eq!(batch.entries[0].index, 6);
    assert_eq!(step.applied_to(true), 6);
    assert_eq!(step.applied_to(false), 0);
}

#[test]
fn nothing_to_queue_counts_as_applied() {
    let mut applier: DistributedApplier<u32> = DistributedApplier::new(ProposeTracker::new());
    let step = applier.apply_committed(1, &[log_entry(5, vec![])]);
    assert!(step.batch.is_none());
    assert_eq!(step.applied_to(false), 5);
    let step = applier.apply_committed(1, &[]);
    assert_eq!(step.applied_to(false), 0);
}

fn run_over(entries: Vec<LogEntry>) -> ApplyRun {
    ApplyRun::new(ApplyBatch {
        group_id: 1,
        entries,
    })
}

#[test]
fn applied_write_settles_its_proposer() {
    let mut run = run_over(vec![log_entry(3, put_entry(77).to_bytes())]);
    assert!(matches!(
        run.advance(ApplyEvent::Begin, NOW),
        ApplyAction::Decode { pos: 0 }
    ));
    match run.advance(ApplyEvent::Decoded, NOW) {
        ApplyAction::Dispatch { deadline } => assert_eq!(deadline.nanos, 30_000_001_000),
        _ => panic!("a plan goes to the data plane"),
    }
    match run.advance(ApplyEvent::Dispatched, NOW) {
        ApplyAction::Await { timeout } => assert_eq!(timeout.nanos, 30_000_000_000),
        _ => panic!("the answer is awaited"),
    }
    let answer = ApplyEvent::Responded {
        failed: false,
        error_code: None,
        payload: b"ok".to_vec(),
    };
    match run.advance(answer, NOW) {
        ApplyAction::Complete { index, key, result } => {
            assert_eq!((index, key), (3, 77));
            assert_eq!(result.unwrap(), b"ok");
        }
        _ => panic!("an answer settles the proposer"),
    }
    assert!(matches!(run.advance(ApplyEvent::Begin, NOW), ApplyAction::Done));
}

fn told(run: &mut ApplyRun, ev: ApplyEvent) -> String {
    match run.advance(ev, NOW) {
        ApplyAction::Complete {
            result: Err(ControlError::Internal { detail }),
            ..
        } => detail,
        _ => panic!("the proposer must be told of a failure"),
    }
}

#[test]
fn failures_are_told_to_the_proposer() {
    let fresh = || run_over(vec![log_entry(3, put_entry(77).to_bytes())]);

    let mut run = fresh();
    let _ = run.advance(ApplyEvent::Begin, NOW);
    let ev = ApplyEvent::DecodeFailed {
        detail: "bad plan".into(),
    };
    assert_eq!(told(&mut run, ev), "decode replicated entry: bad plan");

    let mut run = fresh();
    let _ = run.advance(ApplyEvent::Begin, NOW);
    let _ = run.advance(ApplyEvent::Decoded, NOW);
    let ev = ApplyEvent::DispatchFailed {
        detail: "queue full".into(),
    };
    assert_eq!(told(&mut run, ev), "dispatch failed: queue full");

    let awaiting = || {
        let mut run = fresh();
        let _ = run.advance(ApplyEvent::Begin, NOW);
        let _ = run.advance(ApplyEvent::Decoded, NOW);
        let _ = run.advance(ApplyEvent::Dispatched, NOW);
        run
    };
    assert_eq!(told(&mut awaiting(), ApplyEvent::Closed), "response channel closed");
    assert_eq!(
        told(&mut awaiting(), ApplyEvent::TimedOut),
        "deadline exceeded applying committed write"
    );
    let failed = |code: Option<&str>| ApplyEvent::Responded {
        failed: true,
        error_code: code.map(|c| c.to_string()),
        payload: vec![],
    };
    assert_eq!(told(&mut awaiting(), failed(Some("E42"))), "E42");
    assert_eq!(told(&mut awaiting(), failed(None)), "execution error");
}

#[test]
fn array_writes_have_a_way_of_their_own() {
    let op = ReplicatedEntry::with_key(
        1,
        0,
        5,
        ReplicatedWrite::ArrayOp {
            array: "genome".into(),
            op_bytes: vec![1, 2],
            schema_hlc_bytes: [0; 18],
        },
    );
    let schema = ReplicatedEntry::with_key(
        1,
        0,
        6,
        ReplicatedWrite::ArraySchema {
            array: "genome".into(),
            snapshot_payload: vec![3],
            schema_hlc_bytes: [1; 18],
        },
    );
    let mut run = run_over(vec![
        log_entry(1, op.to_bytes()),
        log_entry(2, schema.to_bytes()),
        log_entry(3, b"of another format".to_vec()),
    ]);
    match run.advance(ApplyEvent::Begin, NOW) {
        ApplyAction::ApplyArrayOp {
            index,
            key,
            array,
            op_bytes,
        } => {
            assert_eq!((index, key, array.as_str()), (1, 5, "genome"));
            assert_eq!(op_bytes, vec![1, 2]);
        }
        _ => panic!("an array operation is applied as one"),
    }
    match run.advance(ApplyEvent::Begin, NOW) {
        ApplyAction::ApplyArraySchema {
            index,
            key,
            schema_hlc_bytes,
            ..
        } => {
            assert_eq!((index, key), (2, 6));
            assert_eq!(schema_hlc_bytes, [1; 18]);
        }
        _ => panic!("an array schema is applied as one"),
    }
    assert!(matches!(
        run.advance(ApplyEvent::Dispatched, NOW),
        ApplyAction::Ignore
    ));
    assert!(matches!(
        run.advance(ApplyEvent::Begin, NOW),
        ApplyAction::Decode { pos: 2 }
    ));
    match run.advance(ApplyEvent::NotReplicated, NOW) {
        ApplyAction::Complete { index, key, result } => {
            assert_eq!((index, key), (3, 0));
            assert!(result.unwrap().is_empty());
        }
        _ => panic!("an entry of another format is passed over"),
    }
}
