use dtr::clock::Clock;
use dtr::config::CoordinatorSection;
use dtr::coordinator::Coordinator;
use dtr::types::QuorumPolicy;
use std::collections::HashMap;

const MS: u128 = 1_000_000;

fn coordinator() -> Coordinator {
    let cfg = CoordinatorSection {
        heartbeat_interval_ms: 1_000,
        missed_heartbeats_allowed: 2,
        lease_ttl_ms: 10_000,
        default_shards_per_lease: 2,
    };
    Coordinator::new(&cfg, QuorumPolicy::AllRanks, 5_000)
}

#[test]
fn eviction_cascades_into_lease_revocation() {
    let mut c = coordinator();
    c.membership
        .register_at("w0".into(), 0, 2, HashMap::new(), 0, "t0");
    c.membership
        .register_at("w1".into(), 1, 2, HashMap::new(), 0, "t1");
    let (ds, _) = c.leases.register_dataset("s3://d/x", 8);
    for (worker, id) in [("w0", "a"), ("w0", "b"), ("w1", "c")] {
        c.leases
            .acquire_at(worker.into(), &ds, 0, 2, 0, id)
            .unwrap()
            .unwrap();
    }
    c.membership
        .heartbeat_at(&"w1".into(), "t1", 1, 2_000 * MS)
        .unwrap();
    let sweep = c.sweep_at(3_001 * MS);
    assert_eq!(sweep.evicted.len(), 1);
    assert_eq!(sweep.evicted[0].0.worker_id.as_str(), "w0");
    assert_eq!(sweep.evicted[0].1.len(), 2);
    assert!(sweep.expired.is_empty());
    assert_eq!(c.leases.active_lease_count(), 1);
    // The evicted worker's shards are granted to somebody else.
    let lease = c
        .leases
        .acquire_at("w1".into(), &ds, 0, 9, 3_001 * MS, "d")
        .unwrap()
        .unwrap();
    assert_eq!((lease.shards.begin, lease.shards.end), (0, 4));
}

#[test]
fn sweep_expires_due_leases_of_live_workers() {
    let mut c = coordinator();
    c.membership
        .register_at("w0".into(), 0, 1, HashMap::new(), 9_000 * MS, "t0");
    let (ds, _) = c.leases.register_dataset("s3://d/x", 8);
    c.leases
        .acquire_at("w0".into(), &ds, 0, 2, 0, "a")
        .unwrap()
        .unwrap();
    let sweep = c.sweep_at(10_000 * MS);
    assert!(sweep.evicted.is_empty());
    assert_eq!(sweep.expired.len(), 1);
    assert_eq!(sweep.expired[0].lease_id.as_str(), "lease-a");
    assert_eq!(c.sweep().expired.len(), 0);
    assert_eq!(c.membership.live_count(), 1);
}

#[test]
fn clock_readings_do_not_go_back() {
    let mut c = coordinator();
    let a = c.now();
    let b = c.now();
    assert!(a <= b);
    let mut clock = Clock::start();
    let first = clock.now();
    while clock.now() == first {}
    assert!(clock.now() > first);
}

#[test]
fn leases_outlast_the_heartbeat_interval() {
    let mut c = coordinator();
    let (ds, _) = c.leases.register_dataset("s3://d/x", 8);
    let lease = c
        .leases
        .acquire_at("w0".into(), &ds, 0, 2, 0, "a")
        .unwrap()
        .unwrap();
    // Renewed at every heartbeat, the lease never lapses.
    let mut now = 0;
    for _ in 0..50 {
        now += 1_000 * MS;
        assert!(c.leases.renew_at(&lease.lease_id, now).is_ok());
    }
    assert!(c.leases.expire_due_leases_at(now + 9_999 * MS).is_empty());
}

#[test]
fn restarted_coordinator_knows_nobody() {
    let mut c = coordinator();
    let err = c
        .membership
        .heartbeat_at(&"w0".into(), "t0", 1, 0)
        .unwrap_err();
    assert_eq!(
        err.to_string(),
        "unknown worker 'w0' (not registered or evicted)"
    );
}
