use nodedb_core::bridge::wake::{
    drained, pipe_drained, pipe_read_signals, pipe_signal_sent, read_signals, signal_arrived,
    signal_sent, OsError, POLL_IN,
};
use nodedb_core::client::pool::{
    AcquireAction, AcquireEvent, AcquireStage, AuthMethod, NegotiatedMeta, Pool, PoolConfig,
    PoolError, TlsConfig,
};
use nodedb_core::time::{Duration, Instant};

const NOW: Instant = Instant { nanos: 10_000_000_000 };

fn meta() -> NegotiatedMeta {
    NegotiatedMeta {
        proto_version: 1,
        capabilities: 6,
        server_version: "NodeDB/test".into(),
        limits: (),
    }
}

fn pool(max_size: usize) -> Pool<u32> {
    Pool::new(PoolConfig {
        max_size,
        ..Default::default()
    })
}

/// Acquires a new connection.
fn acquire_new(p: &mut Pool<u32>, conn: u32) {
    let mut stage = AcquireStage::Permit;
    let act = p.acquire(&mut stage, AcquireEvent::Ready, NOW);
    assert!(matches!(act, AcquireAction::Connect { .. }));
    let act = p.acquire(&mut stage, AcquireEvent::Connected { conn }, NOW);
    assert!(matches!(act, AcquireAction::Authenticate { .. }));
    let act = p.acquire(&mut stage, AcquireEvent::Authenticated { conn, meta: meta() }, NOW);
    match act {
        AcquireAction::Use { conn: got } => assert_eq!(got, conn),
        _ => panic!("an authenticated connection is handed out"),
    }
    assert_eq!(stage, AcquireStage::Over);
}

#[test]
fn pool_config_defaults() {
    let cfg: PoolConfig = PoolConfig::default();
    assert_eq!(cfg.addr, "127.0.0.1:6433");
    assert_eq!(cfg.max_size, 10);
    assert_eq!(cfg.connect_timeout, Duration::from_secs(5));
}

#[test]
fn pool_creates_semaphore() {
    let pool: Pool<u32> = Pool::new(PoolConfig {
        max_size: 5,
        ..Default::default()
    });
    assert_eq!(pool.available, 5);
}

#[test]
fn pool_authenticates_right_after_connecting() {
    let mut p: Pool<u32> = Pool::new(PoolConfig {
        addr: "db:1".into(),
        max_size: 1,
        auth: AuthMethod::Trust {
            username: "test".into(),
        },
        ..Default::default()
    });
    let mut stage = AcquireStage::Permit;
    match p.acquire(&mut stage, AcquireEvent::Ready, NOW) {
        AcquireAction::Connect { addr, timeout, .. } => {
            assert_eq!(addr, "db:1");
            assert_eq!(timeout, Duration::from_secs(5));
        }
        _ => panic!("the first acquisition connects"),
    }
    match p.acquire(&mut stage, AcquireEvent::Connected { conn: 7 }, NOW) {
        AcquireAction::Authenticate { conn, auth, database } => {
            assert_eq!(conn, 7);
            assert!(matches!(auth, AuthMethod::Trust { username } if username == "test"));
            assert!(database.is_none());
        }
        _ => panic!("a connection that was opened is not opened or greeted again"),
    }
    assert!(p.negotiated_meta().is_none());
    let _ = p.acquire(&mut stage, AcquireEvent::Authenticated { conn: 7, meta: meta() }, NOW);
    assert_eq!(p.negotiated_meta().unwrap().server_version, "NodeDB/test");
    assert_eq!(p.available, 0);
}

#[test]
fn pool_waits_when_all_places_are_taken() {
    let mut p = pool(1);
    acquire_new(&mut p, 1);
    let mut stage = AcquireStage::Permit;
    match p.acquire(&mut stage, AcquireEvent::Ready, NOW) {
        AcquireAction::WaitPermit { timeout } => assert_eq!(timeout, Duration::from_secs(5)),
        _ => panic!("no place is free"),
    }
    let act = p.acquire(&mut stage, AcquireEvent::PermitTimedOut, NOW);
    assert!(matches!(
        act,
        AcquireAction::Fail {
            error: PoolError::AcquireTimeout
        }
    ));
    let mut stage = AcquireStage::Permit;
    let act = p.acquire(&mut stage, AcquireEvent::PermitClosed, NOW);
    assert!(matches!(
        act,
        AcquireAction::Fail {
            error: PoolError::Closed
        }
    ));
    assert_eq!(p.available, 0);
}

#[test]
fn pool_uses_idle_connections_that_are_alive() {
    let mut p = pool(2);
    acquire_new(&mut p, 1);
    p.put_back(1, NOW);
    assert_eq!(p.available, 2);

    let mut stage = AcquireStage::Permit;
    assert!(matches!(
        p.acquire(&mut stage, AcquireEvent::Ready, NOW),
        AcquireAction::Ping { conn: 1 }
    ));
    assert!(matches!(
        p.acquire(&mut stage, AcquireEvent::PingOk { conn: 1 }, NOW),
        AcquireAction::Use { conn: 1 }
    ));
    p.put_back(1, NOW);

    let mut stage = AcquireStage::Permit;
    let _ = p.acquire(&mut stage, AcquireEvent::Ready, NOW);
    assert!(matches!(
        p.acquire(&mut stage, AcquireEvent::PingFailed, NOW),
        AcquireAction::Connect { .. }
    ));
}

#[test]
fn pool_drops_connections_that_were_idle_too_long() {
    let mut p = pool(2);
    acquire_new(&mut p, 1);
    p.put_back(1, NOW);
    let late = Instant {
        nanos: NOW.nanos + p.config.idle_timeout.nanos + 1,
    };
    let mut stage = AcquireStage::Permit;
    assert!(matches!(
        p.acquire(&mut stage, AcquireEvent::Ready, late),
        AcquireAction::Connect { .. }
    ));
    assert!(p.idle.is_empty());
}

#[test]
fn pool_gives_the_place_back_when_connecting_fails() {
    let mut p = pool(1);
    let mut stage = AcquireStage::Permit;
    let _ = p.acquire(&mut stage, AcquireEvent::Ready, NOW);
    assert_eq!(p.available, 0);
    assert!(matches!(
        p.acquire(&mut stage, AcquireEvent::ConnectTimedOut, NOW),
        AcquireAction::Fail {
            error: PoolError::ConnectTimeout
        }
    ));
    assert_eq!(p.available, 1);

    let mut stage = AcquireStage::Permit;
    let _ = p.acquire(&mut stage, AcquireEvent::Ready, NOW);
    let _ = p.acquire(&mut stage, AcquireEvent::Connected { conn: 3 }, NOW);
    let failed = AcquireEvent::Failed {
        detail: "wrong password".into(),
    };
    match p.acquire(&mut stage, failed, NOW) {
        AcquireAction::Fail {
            error: PoolError::Connection { detail },
        } => assert_eq!(detail, "wrong password"),
        _ => panic!("a refused client gets no connection"),
    }
    assert_eq!(p.available, 1);
}

#[test]
fn signal_reads_are_understood() {
    let again = OsError {
        code: 11,
        would_block: true,
    };
    let broken = OsError {
        code: 9,
        would_block: false,
    };
    assert_eq!(read_signals(8, broken, 3), Ok(3));
    assert_eq!(read_signals(-1, again, 3), Ok(0));
    assert_eq!(read_signals(-1, broken, 3), Err(broken));
    assert_eq!(signal_sent(8, broken), Ok(()));
    assert_eq!(signal_sent(-1, broken), Err(broken));
    assert_eq!(drained(8, 5), 5);
    assert_eq!(drained(-1, 5), 0);
    assert!(signal_arrived(1, POLL_IN));
    assert!(!signal_arrived(0, POLL_IN));
    assert!(!signal_arrived(1, 0));
}

#[test]
fn pool_gives_out_no_more_than_its_places() {
    let mut p = pool(3);
    for conn in 0..3 {
        acquire_new(&mut p, conn);
        assert_eq!(p.available, 2 - conn as usize);
    }
    // A fourth has to wait, however often it asks.
    let mut stage = AcquireStage::Permit;
    for _ in 0..2 {
        let act = p.acquire(&mut stage, AcquireEvent::Ready, NOW);
        assert!(matches!(act, AcquireAction::WaitPermit { .. }));
        assert_eq!(p.available, 0);
    }
    // What comes back goes to it.
    p.put_back(1, NOW);
    assert_eq!(p.available, 1);
    let act = p.acquire(&mut stage, AcquireEvent::Ready, NOW);
    assert!(matches!(act, AcquireAction::Ping { conn: 1 }));
    let act = p.acquire(&mut stage, AcquireEvent::PingOk { conn: 1 }, NOW);
    assert!(matches!(act, AcquireAction::Use { conn: 1 }));
    assert_eq!(p.available, 0);
}

#[test]
fn pipe_carries_a_signal_in_each_byte() {
    let again = OsError {
        code: 11,
        would_block: true,
    };
    let broken = OsError {
        code: 32,
        would_block: false,
    };
    assert_eq!(pipe_signal_sent(1, broken), Ok(()));
    // In a full pipe a signal is pending.
    assert_eq!(pipe_signal_sent(-1, again), Ok(()));
    assert_eq!(pipe_signal_sent(-1, broken), Err(broken));
    assert_eq!(pipe_read_signals(5, broken), Ok(5));
    assert_eq!(pipe_read_signals(-1, again), Ok(0));
    assert_eq!(pipe_read_signals(-1, broken), Err(broken));
    assert_eq!(pipe_drained(1), 1);
    assert_eq!(pipe_drained(0), 0);
    assert_eq!(pipe_drained(-1), 0);
}

#[test]
fn configuration_can_be_copied() {
    let config: PoolConfig<String> = PoolConfig {
        database: Some("main".into()),
        max_size: 4,
        tls: TlsConfig {
            enabled: true,
            settings: "ca.pem".to_string(),
        },
        ..Default::default()
    };
    let copy = config.clone();
    assert_eq!(copy.addr, "127.0.0.1:6433");
    assert_eq!(copy.max_size, 4);
    assert_eq!(copy.database, Some("main".to_string()));
    assert_eq!(copy.idle_timeout, config.idle_timeout);
    assert!(copy.tls.enabled);
    assert_eq!(copy.tls.settings, "ca.pem");
}

#[test]
fn nothing_is_agreed_on_at_first() {
    let meta: NegotiatedMeta<u64> = NegotiatedMeta::default();
    assert_eq!(meta.proto_version, 0);
    assert_eq!(meta.capabilities, 0);
    assert_eq!(meta.server_version, "");
    assert_eq!(meta.limits, 0);
}

#[test]
fn encryption_settings_and_limits_are_kept_whole() {
    let mut p: Pool<u32, Vec<u64>, String> = Pool::new(PoolConfig {
        tls: TlsConfig {
            enabled: true,
            settings: "ca.pem".to_string(),
        },
        ..Default::default()
    });
    let mut stage = AcquireStage::Permit;
    match p.acquire(&mut stage, AcquireEvent::Ready, NOW) {
        AcquireAction::Connect { tls, .. } => assert_eq!(tls, Some("ca.pem".to_string())),
        _ => panic!("the first acquisition connects"),
    }
    let _ = p.acquire(&mut stage, AcquireEvent::Connected { conn: 1 }, NOW);
    let agreed = NegotiatedMeta {
        proto_version: 1,
        capabilities: 0,
        server_version: "NodeDB/test".to_string(),
        limits: vec![16, 1024],
    };
    let done = AcquireEvent::Authenticated {
        conn: 1,
        meta: agreed,
    };
    let _ = p.acquire(&mut stage, done, NOW);
    assert_eq!(p.negotiated_meta().unwrap().limits, vec![16, 1024]);

    // Settings without the switch open a plain connection.
    let mut p: Pool<u32, (), String> = Pool::new(PoolConfig {
        tls: TlsConfig {
            enabled: false,
            settings: "ca.pem".to_string(),
        },
        ..Default::default()
    });
    let mut stage = AcquireStage::Permit;
    match p.acquire(&mut stage, AcquireEvent::Ready, NOW) {
        AcquireAction::Connect { tls, .. } => assert_eq!(tls, None),
        _ => panic!("the first acquisition connects"),
    }
}
