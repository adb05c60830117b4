use dtr::error::DtrError;
use dtr::membership::Membership;
use std::collections::HashMap;
use std::future::Future;

fn paused<F: Future<Output = ()>>(scenario: F) {
    tokio::runtime::Builder::new_current_thread()
        .enable_time()
        .start_paused(true)
        .build()
        .unwrap()
        .block_on(scenario);
}

const MS: u128 = 1_000_000;

#[test]
fn register_authenticate_heartbeat() {
    let mut m = Membership::new(1_000, 2);
    let info = m.register("rank-0".into(), 0, 2, HashMap::new());
    assert!(m
        .authenticate(&"rank-0".into(), &info.session_token)
        .is_ok());
    assert!(matches!(
        m.authenticate(&"rank-0".into(), "bogus"),
        Err(DtrError::InvalidSession(_))
    ));
    assert!(matches!(
        m.authenticate(&"rank-9".into(), "x"),
        Err(DtrError::UnknownWorker(_))
    ));
    assert!(m
        .heartbeat(&"rank-0".into(), &info.session_token, 42)
        .is_ok());
}

#[test]
fn eviction_after_missed_heartbeats() {
    paused(async {
        let mut m = Membership::new(1_000, 2); // deadline = 3s
        let a = m.register("rank-0".into(), 0, 2, HashMap::new());
        m.register("rank-1".into(), 1, 2, HashMap::new());

        tokio::time::advance(std::time::Duration::from_millis(2_500)).await;
        // rank-0 heartbeats, rank-1 stays silent.
        m.heartbeat(&"rank-0".into(), &a.session_token, 1).unwrap();

        tokio::time::advance(std::time::Duration::from_millis(1_000)).await;
        let evicted = m.sweep_expired();
        assert_eq!(evicted.len(), 1);
        assert_eq!(evicted[0].worker_id.as_str(), "rank-1");
        assert_eq!(m.live_count(), 1);

        // Evicted worker's heartbeat now instructs re-registration.
        assert!(matches!(
            m.heartbeat(&"rank-1".into(), "old-token", 1),
            Err(DtrError::UnknownWorker(_))
        ));
    });
}

#[test]
fn reregistration_rotates_token() {
    let mut m = Membership::new(1_000, 2);
    let first = m.register("rank-0".into(), 0, 1, HashMap::new());
    let second = m.register("rank-0".into(), 0, 1, HashMap::new());
    assert_ne!(first.session_token, second.session_token);
    assert!(m
        .authenticate(&"rank-0".into(), &first.session_token)
        .is_err());
    assert_eq!(m.live_count(), 1);
}

#[test]
fn eviction_is_exact_to_the_nanosecond() {
    let mut m = Membership::new(1_000, 2);
    m.register_at("w".into(), 3, 4, HashMap::new(), 10 * MS, "tok");
    assert!(m.sweep_expired_at(3_010 * MS).is_empty());
    let evicted = m.sweep_expired_at(3_010 * MS + 1);
    assert_eq!(evicted.len(), 1);
    assert_eq!(evicted[0].rank, 3);
    assert_eq!(evicted[0].session_token, "tok");
    assert!(m.get(&"w".into()).is_none());
}

#[test]
fn heartbeat_records_step_and_postpones_eviction() {
    let mut m = Membership::new(1_000, 0);
    let mut labels = HashMap::new();
    labels.insert("zone".to_string(), "a".to_string());
    m.register_at("w".into(), 0, 1, labels, 0, "tok");
    assert!(m.heartbeat_at(&"w".into(), "other", 9, 500 * MS).is_err());
    assert_eq!(m.get(&"w".into()).unwrap().current_step, 0);
    m.heartbeat_at(&"w".into(), "tok", 9, 900 * MS).unwrap();
    let info = m.get(&"w".into()).unwrap();
    assert_eq!(info.current_step, 9);
    assert_eq!(info.last_heartbeat, 900 * MS);
    assert_eq!(info.labels["zone"], "a");
    assert!(m.sweep_expired_at(1_900 * MS).is_empty());
    assert_eq!(m.sweep_expired_at(1_901 * MS).len(), 1);
}

#[test]
fn world_size_is_the_largest_reported() {
    let mut m = Membership::new(1_000, 2);
    assert_eq!(m.expected_world_size(), 0);
    m.register("a".into(), 0, 4, HashMap::new());
    m.register("b".into(), 1, 8, HashMap::new());
    m.register("c".into(), 2, 2, HashMap::new());
    assert_eq!(m.expected_world_size(), 8);
    assert_eq!(m.heartbeat_interval_ms(), 1_000);
    assert_eq!(m.missed_heartbeats_allowed(), 2);
}

#[test]
fn refusals_name_the_worker() {
    let mut m = Membership::new(1_000, 2);
    m.register_at("w".into(), 0, 1, HashMap::new(), 0, "tok");
    assert_eq!(
        m.authenticate(&"w".into(), "x").unwrap_err().to_string(),
        "invalid session token for worker 'w'"
    );
    assert_eq!(
        m.authenticate(&"v".into(), "x").unwrap_err().to_string(),
        "unknown worker 'v' (not registered or evicted)"
    );
}
