use nodedb_core::crdt::error::CrdtError;
use nodedb_core::crdt::history::{exported, fields_to_restore, row_value, CrdtState};
use nodedb_core::crdt::loro_doc::RowFound;
use nodedb_core::graph::algo::{
    algo, algo_payload_to_query_response, algorithm_for, clamp_opt, render_cell, AlgoColumn,
    AlgoColumnType, AlgoRequest, GraphAlgorithm, JsonCell,
};

fn request(name: &str) -> AlgoRequest {
    AlgoRequest {
        algorithm_name: name.into(),
        collection: "people".into(),
        edge_label: Some("knows".into()),
        damping_bits: Some(0.85f64.to_bits()),
        tolerance_bits: None,
        resolution_bits: None,
        max_iterations: Some(20),
        sample_size: None,
        source_node: None,
        direction: None,
        mode: None,
    }
}

#[test]
fn algorithms_go_by_their_names() {
    let names = [
        ("PAGERANK", GraphAlgorithm::PageRank),
        ("WCC", GraphAlgorithm::Wcc),
        ("COMMUNITY", GraphAlgorithm::LabelPropagation),
        ("LCC", GraphAlgorithm::Lcc),
        ("SSSP", GraphAlgorithm::Sssp),
        ("BETWEENNESS", GraphAlgorithm::Betweenness),
        ("CLOSENESS", GraphAlgorithm::Closeness),
        ("HARMONIC", GraphAlgorithm::Harmonic),
        ("DEGREE", GraphAlgorithm::Degree),
        ("LOUVAIN", GraphAlgorithm::Louvain),
        ("TRIANGLES", GraphAlgorithm::Triangles),
        ("DIAMETER", GraphAlgorithm::Diameter),
        ("KCORE", GraphAlgorithm::KCore),
    ];
    for (name, algorithm) in names {
        assert_eq!(algorithm_for(&name.to_string()).unwrap(), algorithm);
    }
    let e = algorithm_for(&"pagerank".to_string()).unwrap_err();
    assert_eq!(e.code, "42601");
    assert_eq!(e.message, "unknown graph algorithm 'pagerank'");
}

#[test]
fn statement_becomes_a_plan() {
    let plan = algo(request("PAGERANK")).ok().unwrap();
    assert_eq!(plan.algorithm, GraphAlgorithm::PageRank);
    assert_eq!(plan.collection, "people");
    assert_eq!(plan.damping_bits, Some(0.85f64.to_bits()));
    assert_eq!(plan.max_iterations, Some(20));

    let mut over = request("PAGERANK");
    over.max_iterations = Some(1_001);
    over.sample_size = Some(1_000_001);
    let e = algo(over).err().unwrap();
    assert_eq!(e.code, "22023");
    assert_eq!(e.message, "ITERATIONS 1001 exceeds maximum allowed value 1000");

    let mut over = request("PAGERANK");
    over.sample_size = Some(1_000_001);
    let e = algo(over).err().unwrap();
    assert_eq!(e.message, "SAMPLE 1000001 exceeds maximum allowed value 1000000");
    assert_eq!(algo(request("NONE")).err().unwrap().code, "42601");
}

#[test]
fn settings_within_their_cap_are_kept() {
    assert_eq!(clamp_opt(Some(1_000), "ITERATIONS", 1_000).unwrap(), Some(1_000));
    assert_eq!(clamp_opt(None, "ITERATIONS", 1_000).unwrap(), None);
    assert!(clamp_opt(Some(1_001), "ITERATIONS", 1_000).is_err());
}

fn schema() -> Vec<AlgoColumn> {
    vec![
        AlgoColumn {
            name: "node_id".into(),
            kind: AlgoColumnType::Text,
        },
        AlgoColumn {
            name: "rank".into(),
            kind: AlgoColumnType::Float64,
        },
        AlgoColumn {
            name: "size".into(),
            kind: AlgoColumnType::Int64,
        },
    ]
}

#[test]
fn answer_is_rendered_row_by_row() {
    let json = Some(
        r#"[{"node_id":"a","rank":0.25,"size":-3},{"rank":"x","size":1.5},{"node_id":7,"rank":2}]"#
            .to_string(),
    );
    let rows = algo_payload_to_query_response(&json, &schema()).unwrap();
    assert_eq!(
        rows,
        vec![
            vec!["a".to_string(), "0.25".into(), "-3".into()],
            vec!["".to_string(), "Infinity".into(), "0".into()],
            vec!["".to_string(), "2".into(), "0".into()],
        ]
    );
    assert!(algo_payload_to_query_response(&None, &schema()).unwrap().is_empty());
    let e = algo_payload_to_query_response(&Some("{".into()), &schema()).unwrap_err();
    assert_eq!(e.code, "XX000");
    assert!(e.message.starts_with("invalid algorithm result JSON: "));
    assert!(e.message.len() > "invalid algorithm result JSON: ".len());
}

#[test]
fn cells_are_shown_by_their_column() {
    let cell = || JsonCell {
        text: Some("t".into()),
        number: Some("1.5".into()),
        int: Some(i64::MIN),
    };
    assert_eq!(render_cell(cell(), AlgoColumnType::Text), "t");
    assert_eq!(render_cell(cell(), AlgoColumnType::Float64), "1.5");
    assert_eq!(render_cell(cell(), AlgoColumnType::Int64), "-9223372036854775808");
    let none = || JsonCell {
        text: None,
        number: None,
        int: None,
    };
    assert_eq!(render_cell(none(), AlgoColumnType::Text), "");
    assert_eq!(render_cell(none(), AlgoColumnType::Float64), "Infinity");
    assert_eq!(render_cell(none(), AlgoColumnType::Int64), "0");
}

fn set(state: &mut CrdtState, row: &str, field: &str, value: i64) {
    state
        .upsert(
            "notes",
            row,
            &vec![(field.to_string(), loro::LoroValue::I64(value))],
        )
        .unwrap();
    state.doc.commit();
}

fn field(value: &Option<loro::LoroValue>, name: &str) -> Option<i64> {
    match value {
        Some(loro::LoroValue::Map(m)) => match m.get(name) {
            Some(loro::LoroValue::I64(v)) => Some(*v),
            _ => None,
        },
        _ => None,
    }
}

fn current(state: &CrdtState, row: &str, name: &str) -> Option<i64> {
    match state.doc.get_map("notes").get(row) {
        Some(loro::ValueOrContainer::Container(loro::Container::Map(m))) => {
            field(&Some(m.get_value()), name)
        }
        _ => None,
    }
}

#[test]
fn old_versions_can_be_read() {
    let mut state = CrdtState::new(1).ok().unwrap();
    set(&mut state, "n1", "x", 1);
    let first = state.oplog_version_vector();
    set(&mut state, "n1", "x", 2);
    set(&mut state, "n2", "x", 5);
    let second = state.oplog_version_vector();

    let old = state.read_at_version("notes", "n1", &first).unwrap();
    assert_eq!(field(&old, "x"), Some(1));
    let new = state.read_at_version("notes", "n1", &second).unwrap();
    assert_eq!(field(&new, "x"), Some(2));
    assert!(state.read_at_version("notes", "n2", &first).unwrap().is_none());
}

#[test]
fn restored_row_is_what_it_was() {
    let mut state = CrdtState::new(1).ok().unwrap();
    set(&mut state, "n1", "x", 1);
    let first = state.oplog_version_vector();
    set(&mut state, "n1", "x", 2);
    let delta = state.restore_to_version("notes", "n1", &first).unwrap();
    assert!(!delta.is_empty());
    let now = state.oplog_version_vector();
    assert_eq!(field(&state.read_at_version("notes", "n1", &now).unwrap(), "x"), Some(1));
    // History is kept.
    assert_eq!(field(&state.read_at_version("notes", "n1", &first).unwrap(), "x"), Some(1));

    match state.restore_to_version("notes", "missing", &first) {
        Err(CrdtError::Loro(s)) => assert_eq!(s, "document did not exist at target version"),
        _ => panic!("what was not there cannot be restored"),
    }
}

#[test]
fn restore_delta_restores_elsewhere() {
    let mut a = CrdtState::new(1).ok().unwrap();
    let b = CrdtState::new(2).ok().unwrap();
    set(&mut a, "n1", "x", 1);
    let first = a.oplog_version_vector();
    set(&mut a, "n1", "x", 2);
    let all = a.export_updates_since(&b.oplog_version_vector()).unwrap();
    b.doc.import(&all).unwrap();
    assert_eq!(current(&b, "n1", "x"), Some(2));
    let delta = a.restore_to_version("notes", "n1", &first).unwrap();
    b.doc.import(&delta).unwrap();
    assert_eq!(current(&b, "n1", "x"), Some(1));
}

#[test]
fn updates_bring_another_replica_up_to_date() {
    let mut a = CrdtState::new(1).ok().unwrap();
    let b = CrdtState::new(2).ok().unwrap();
    let nothing = b.oplog_version_vector();
    set(&mut a, "n1", "x", 9);
    let delta = a.export_updates_since(&nothing).unwrap();
    b.doc.import(&delta).unwrap();
    let v = b.oplog_version_vector();
    assert_eq!(field(&b.read_at_version("notes", "n1", &v).unwrap(), "x"), Some(9));
}

#[test]
fn compaction_keeps_the_current_state() {
    let mut state = CrdtState::new(1).ok().unwrap();
    set(&mut state, "n1", "x", 1);
    set(&mut state, "n1", "x", 2);
    let v = state.oplog_version_vector();
    state.compact_at_version(&v).unwrap();
    assert_eq!(state.peer_id, 1);
    assert_eq!(state.doc.peer_id(), 1);
    assert_eq!(current(&state, "n1", "x"), Some(2));
    set(&mut state, "n1", "x", 3);
    assert_eq!(current(&state, "n1", "x"), Some(3));
}

#[test]
fn reserved_peer_is_refused() {
    assert!(matches!(CrdtState::new(u64::MAX), Err(CrdtError::Loro(_))));
}

#[test]
fn what_was_found_is_what_is_read() {
    let v = || loro::LoroValue::I64(4);
    assert_eq!(row_value(None), None);
    assert_eq!(row_value(Some(RowFound::MapRow(v()))), Some(v()));
    assert_eq!(row_value(Some(RowFound::ListRow(v()))), Some(v()));
    assert_eq!(row_value(Some(RowFound::Plain(v()))), Some(v()));
    assert_eq!(row_value(Some(RowFound::Other)), Some(loro::LoroValue::Null));
}

#[test]
fn only_maps_can_be_restored() {
    match fields_to_restore(Some(loro::LoroValue::I64(4))) {
        Err(CrdtError::Loro(s)) => assert_eq!(s, "historical state is not a map"),
        _ => panic!("a number has no fields"),
    }
    assert!(fields_to_restore(None).is_err());
}

#[test]
fn failed_export_says_what_was_being_done() {
    assert_eq!(exported(Ok(vec![1]), "delta export: ").ok().unwrap(), vec![1]);
    match exported(Err("no history".into()), "delta export: ") {
        Err(e) => assert_eq!(e.message(), "loro error: delta export: no history"),
        Ok(_) => panic!("a failure stays one"),
    }
}

#[test]
fn errors_say_what_happened() {
    let s = |x: &str| x.to_string();
    let cases = vec![
        (
            CrdtError::ConstraintViolation {
                constraint: s("unique"),
                collection: s("users"),
                detail: s("email"),
            },
            "constraint violation: unique on collection `users`: email",
        ),
        (CrdtError::DeltaApplyFailed(s("x")), "delta application failed: x"),
        (CrdtError::Loro(s("x")), "loro error: x"),
        (
            CrdtError::DlqFull {
                capacity: 10,
                pending: 11,
            },
            "dead-letter queue full: capacity 10, pending 11",
        ),
        (CrdtError::UnknownCollection(s("c")), "unknown collection: c"),
        (
            CrdtError::AuthExpired {
                user_id: 1,
                expired_at: 2,
            },
            "auth expired: user 1 must re-authenticate (expired at 2)",
        ),
        (
            CrdtError::InvalidSignature {
                user_id: 3,
                detail: s("bad"),
            },
            "delta signature invalid for user 3: bad",
        ),
        (
            CrdtError::ReplayDetected {
                user_id: 1,
                device_id: 2,
                seq_no: 3,
                last_seen: 4,
            },
            "replay detected for user 1 device 2: seq_no 3 <= last_seen 4",
        ),
    ];
    for (e, text) in cases {
        assert_eq!(e.message(), text);
    }
    let e = CrdtError::from(loro::LoroError::LockError);
    assert_eq!(e.message(), format!("loro error: {}", loro::LoroError::LockError));
}
