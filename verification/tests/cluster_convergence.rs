use nodedb_core::cluster::convergence::{
    all_equal, all_set, every_group_led, is_fully_applied, leader_is_stable, metadata_caught_up,
    startup_timeout, wait_for_convergence, ClusterSight, DdlAction, DdlRun, NodeApplied, StartupAction,
    StartupEvent, StartupRun, StartupStage, WaitStep,
};
use nodedb_core::cluster::routing::RoutingTable;
use nodedb_core::text::{decimal_text, numbered, signed_decimal_text};
use nodedb_core::time::{Duration, Instant};

const NOW: Instant = Instant { nanos: 1_000 };
const LATE: Instant = Instant { nanos: 30_000_001_000 };

#[test]
fn leaders_must_be_known_and_agree() {
    assert!(leader_is_stable(&vec![2, 2, 2]));
    assert!(!leader_is_stable(&vec![0, 0, 0]));
    assert!(!leader_is_stable(&vec![2, 3, 2]));
    assert!(!leader_is_stable(&vec![]));
}

#[test]
fn every_group_needs_a_leader_that_all_see() {
    assert!(every_group_led(&vec![
        vec![(0, 1), (1, 2)],
        vec![(1, 2), (0, 1)]
    ]));
    assert!(!every_group_led(&vec![vec![(0, 1), (1, 2)], vec![(0, 1)]]));
    assert!(!every_group_led(&vec![vec![(0, 1)], vec![(0, 2)]]));
    assert!(!every_group_led(&vec![vec![(0, 0)], vec![(0, 0)]]));
    assert!(!every_group_led(&vec![vec![], vec![]]));
    assert!(!every_group_led(&vec![]));
}

#[test]
fn counts_and_flags_are_compared() {
    assert!(all_equal(&vec![3, 3, 3], 3));
    assert!(!all_equal(&vec![3, 2, 3], 3));
    assert!(all_set(&vec![true, true]));
    assert!(!all_set(&vec![true, false]));
}

#[test]
fn nodes_converge_on_the_groups_they_hold() {
    let routing = RoutingTable::uniform(1, &[1, 2], 2);
    let nodes = |a: u64, b: u64| {
        vec![
            NodeApplied {
                node_id: 1,
                applied: vec![(0, 5), (1, a)],
            },
            NodeApplied {
                node_id: 2,
                applied: vec![(0, 5), (1, b)],
            },
            NodeApplied {
                node_id: 9,
                applied: vec![],
            },
        ]
    };
    assert!(is_fully_applied(&nodes(7, 7), &routing));
    assert!(!is_fully_applied(&nodes(7, 6), &routing));
}

#[test]
fn metadata_is_waited_for_only_if_there_is_any() {
    assert!(metadata_caught_up(&vec![1, 2], 0));
    assert!(metadata_caught_up(&vec![4, 5], 4));
    assert!(!metadata_caught_up(&vec![4, 3], 4));
}

#[test]
fn waiting_ends_at_the_deadline() {
    assert_eq!(wait_for_convergence(true, LATE, NOW), WaitStep::Over);
    assert_eq!(wait_for_convergence(false, LATE, LATE), WaitStep::Over);
    assert_eq!(
        wait_for_convergence(false, LATE, NOW),
        WaitStep::Sleep {
            after: Duration::from_millis(5)
        }
    );
}

fn sight(sizes: Vec<usize>, upgraded: bool, leader: u64) -> StartupEvent {
    let n = sizes.len();
    StartupEvent::Seen {
        sight: ClusterSight {
            topology_sizes: sizes,
            upgraded: vec![upgraded; n],
            metadata_leaders: vec![leader; n],
            group_leaders: vec![vec![(0, leader), (1, leader)]; n],
        },
    }
}

#[test]
fn nodes_start_one_after_the_other() {
    let mut run = StartupRun::new(startup_timeout(true));
    assert!(matches!(
        run.advance(StartupEvent::Begin, NOW),
        StartupAction::Spawn {
            node_id: 1,
            join_first: false
        }
    ));
    assert!(matches!(run.advance(StartupEvent::Spawned, NOW), StartupAction::Look { .. }));
    assert!(matches!(run.advance(sight(vec![0], false, 0), NOW), StartupAction::Look { .. }));
    assert!(matches!(
        run.advance(sight(vec![1], false, 0), NOW),
        StartupAction::Spawn {
            node_id: 2,
            join_first: true
        }
    ));
    let _ = run.advance(StartupEvent::Spawned, NOW);
    assert!(matches!(
        run.advance(sight(vec![2, 2], false, 0), NOW),
        StartupAction::Spawn { node_id: 3, .. }
    ));
    match run.advance(StartupEvent::Spawned, NOW) {
        StartupAction::Look { after } => assert_eq!(after, Duration::from_millis(0)),
        other => panic!("unexpected {other:?}"),
    }
    assert_eq!(run.stage, StartupStage::AwaitTopology);
    match run.advance(sight(vec![3, 3, 2], false, 0), NOW) {
        StartupAction::Look { after } => assert_eq!(after, Duration::from_millis(50)),
        other => panic!("unexpected {other:?}"),
    }
    assert_eq!(run.deadline.nanos, NOW.nanos + 10_000_000_000);
    let _ = run.advance(sight(vec![3, 3, 3], false, 0), NOW);
    assert_eq!(run.stage, StartupStage::AwaitVersion);
    let _ = run.advance(sight(vec![3, 3, 3], true, 0), NOW);
    assert_eq!(run.stage, StartupStage::AwaitMetadataLeader);
    let _ = run.advance(sight(vec![3, 3, 3], true, 2), NOW);
    assert_eq!(run.stage, StartupStage::AwaitGroupLeaders);
    assert!(matches!(
        run.advance(sight(vec![3, 3, 3], true, 2), NOW),
        StartupAction::Ready
    ));
    assert!(matches!(run.advance(StartupEvent::Spawned, NOW), StartupAction::Ignore));
}

#[test]
fn start_that_takes_too_long_is_given_up() {
    let mut run = StartupRun::new(startup_timeout(true));
    let _ = run.advance(StartupEvent::Begin, NOW);
    let _ = run.advance(StartupEvent::Spawned, NOW);
    match run.advance(sight(vec![0], false, 0), LATE) {
        StartupAction::Fail { detail } => {
            assert_eq!(detail, "node 1 failed to bootstrap within deadline")
        }
        other => panic!("unexpected {other:?}"),
    }

    let mut run = StartupRun::new(startup_timeout(true));
    let _ = run.advance(StartupEvent::Begin, NOW);
    let _ = run.advance(StartupEvent::Spawned, NOW);
    let _ = run.advance(sight(vec![1], false, 0), NOW);
    let _ = run.advance(StartupEvent::Spawned, NOW);
    match run.advance(sight(vec![1, 1], false, 0), LATE) {
        StartupAction::Fail { detail } => {
            assert_eq!(detail, "node 2 failed to join within deadline")
        }
        other => panic!("unexpected {other:?}"),
    }

    // Other systems get twice the time.
    let mut run = StartupRun::new(startup_timeout(false));
    let _ = run.advance(StartupEvent::Begin, NOW);
    let _ = run.advance(StartupEvent::Spawned, NOW);
    assert_eq!(run.deadline.nanos, NOW.nanos + 60_000_000_000);
    match run.advance(sight(vec![0], false, 0), LATE) {
        StartupAction::Look { after } => assert_eq!(after, Duration::from_millis(20)),
        other => panic!("unexpected {other:?}"),
    }

    let mut run = StartupRun::new(startup_timeout(true));
    let _ = run.advance(StartupEvent::Begin, NOW);
    let failed = StartupEvent::SpawnFailed {
        detail: "port in use".into(),
    };
    match run.advance(failed, NOW) {
        StartupAction::Fail { detail } => assert_eq!(detail, "port in use"),
        other => panic!("unexpected {other:?}"),
    }
}

#[test]
fn statement_is_tried_on_every_node() {
    let mut run = DdlRun::new(2, NOW);
    assert_eq!(run.deadline.nanos, NOW.nanos + 10_000_000_000);
    assert!(matches!(run.round(NOW), DdlAction::Try { node: 0 }));
    assert!(matches!(run.tried(Some("not leader".into())), DdlAction::Try { node: 1 }));
    match run.tried(Some("not ready".into())) {
        DdlAction::Sleep { after } => assert_eq!(after, Duration::from_millis(100)),
        other => panic!("unexpected {other:?}"),
    }
    assert!(matches!(run.round(NOW), DdlAction::Try { node: 0 }));
    assert!(matches!(run.tried(None), DdlAction::Accepted { node: 0 }));
    match run.round(LATE) {
        DdlAction::Fail { detail } => assert_eq!(
            detail,
            "no node accepted DDL within deadline; last error: not ready"
        ),
        other => panic!("unexpected {other:?}"),
    }
}

#[test]
fn numbers_become_text() {
    assert_eq!(decimal_text(0), "0");
    assert_eq!(decimal_text(u64::MAX), "18446744073709551615");
    assert_eq!(numbered("group ", 42), "group 42");
    assert_eq!(signed_decimal_text(-10), "-10");
    assert_eq!(signed_decimal_text(i64::MAX), "9223372036854775807");
}
