use dtr::error::DtrError;
use dtr::lease::LeaseManager;
use dtr::types::{LeaseId, WorkerId};
use std::future::Future;

fn paused<F: Future<Output = ()>>(scenario: F) {
    tokio::runtime::Builder::new_current_thread()
        .enable_time()
        .start_paused(true)
        .build()
        .unwrap()
        .block_on(scenario);
}

const MS: u128 = 1_000_000;

#[test]
fn acquire_grants_contiguous_disjoint_ranges() {
    paused(async {
        let mut lm = LeaseManager::new(60_000, 4);
        let (ds, existed) = lm.register_dataset("s3://d/x", 10);
        assert!(!existed);

        let a = lm.acquire("w0".into(), &ds, 0, 4).unwrap().unwrap();
        let b = lm.acquire("w1".into(), &ds, 0, 4).unwrap().unwrap();
        let c = lm.acquire("w2".into(), &ds, 0, 4).unwrap().unwrap();
        assert_eq!((a.shards.begin, a.shards.end), (0, 4));
        assert_eq!((b.shards.begin, b.shards.end), (4, 8));
        assert_eq!((c.shards.begin, c.shards.end), (8, 10)); // partial tail

        // Pool exhausted.
        assert!(lm.acquire("w3".into(), &ds, 0, 4).unwrap().is_none());
        // Next epoch has a fresh pool.
        assert!(lm.acquire("w3".into(), &ds, 1, 4).unwrap().is_some());
    });
}

#[test]
fn dataset_registration_is_idempotent_and_deterministic() {
    let mut lm = LeaseManager::new(60_000, 1);
    let (id1, e1) = lm.register_dataset("s3://d/x", 10);
    let (id2, e2) = lm.register_dataset("s3://d/x", 10);
    assert_eq!(id1, id2);
    assert!(!e1);
    assert!(e2);
}

#[test]
fn expired_lease_returns_shards_and_renew_fails() {
    paused(async {
        let mut lm = LeaseManager::new(1_000, 4);
        let (ds, _) = lm.register_dataset("s3://d/x", 4);

        let lease = lm.acquire("w0".into(), &ds, 0, 4).unwrap().unwrap();
        assert!(lm.acquire("w1".into(), &ds, 0, 4).unwrap().is_none());

        tokio::time::advance(std::time::Duration::from_millis(1_500)).await;

        // w1 can now take over the reassigned shards.
        let takeover = lm.acquire("w1".into(), &ds, 0, 4).unwrap().unwrap();
        assert_eq!((takeover.shards.begin, takeover.shards.end), (0, 4));

        // Original holder's renew is refused with the fencing error.
        assert!(matches!(
            lm.renew(&lease.lease_id),
            Err(DtrError::LeaseExpired(_))
        ));
    });
}

#[test]
fn renew_extends_ttl() {
    paused(async {
        let mut lm = LeaseManager::new(1_000, 1);
        let (ds, _) = lm.register_dataset("s3://d/x", 1);
        let lease = lm.acquire("w0".into(), &ds, 0, 1).unwrap().unwrap();

        tokio::time::advance(std::time::Duration::from_millis(800)).await;
        lm.renew(&lease.lease_id).unwrap();
        tokio::time::advance(std::time::Duration::from_millis(800)).await;
        // Would have expired without the renewal.
        assert!(lm.renew(&lease.lease_id).is_ok());
    });
}

#[test]
fn incomplete_release_returns_shards() {
    let mut lm = LeaseManager::new(60_000, 2);
    let (ds, _) = lm.register_dataset("s3://d/x", 2);
    let lease = lm.acquire("w0".into(), &ds, 0, 2).unwrap().unwrap();
    lm.release(&lease.lease_id, false).unwrap();

    let again = lm.acquire("w1".into(), &ds, 0, 2).unwrap().unwrap();
    assert_eq!((again.shards.begin, again.shards.end), (0, 2));
}

#[test]
fn revoke_worker_frees_all_its_leases() {
    let mut lm = LeaseManager::new(60_000, 1);
    let (ds, _) = lm.register_dataset("s3://d/x", 3);
    lm.acquire("w0".into(), &ds, 0, 1).unwrap().unwrap();
    lm.acquire("w0".into(), &ds, 0, 1).unwrap().unwrap();
    lm.acquire("w1".into(), &ds, 0, 1).unwrap().unwrap();

    let revoked = lm.revoke_worker(&"w0".into());
    assert_eq!(revoked.len(), 2);
    assert_eq!(lm.active_lease_count(), 1);

    // Both freed shards are acquirable again.
    assert!(lm.acquire("w2".into(), &ds, 0, 1).unwrap().is_some());
    assert!(lm.acquire("w2".into(), &ds, 0, 1).unwrap().is_some());
    assert!(lm.acquire("w2".into(), &ds, 0, 1).unwrap().is_none());
}

#[test]
fn dataset_ids_hash_the_uri() {
    let mut lm = LeaseManager::new(60_000, 1);
    let (id, _) = lm.register_dataset("", 1);
    assert_eq!(id.as_str(), "ds-cbf29ce484222325");
    let (id, _) = lm.register_dataset("a", 1);
    assert_eq!(id.as_str(), "ds-af63dc4c8601ec8c");
}

#[test]
fn unknown_dataset_and_lease_are_errors() {
    let mut lm = LeaseManager::new(60_000, 1);
    let err = lm
        .acquire("w0".into(), &"ds-nope".into(), 0, 1)
        .unwrap_err();
    assert_eq!(err.to_string(), "unknown dataset 'ds-nope'");
    let err = lm.release(&LeaseId::new("lease-x"), true).unwrap_err();
    assert_eq!(err.to_string(), "unknown lease 'lease-x'");
    let err = lm.renew(&LeaseId::new("lease-x")).unwrap_err();
    assert_eq!(
        err.to_string(),
        "lease 'lease-x' expired and its shards were reassigned"
    );
}

#[test]
fn lease_is_named_and_dated_exactly() {
    let mut lm = LeaseManager::new(1_000, 3);
    let (ds, _) = lm.register_dataset("s3://d/x", 5);
    let lease = lm
        .acquire_at(WorkerId::new("w0"), &ds, 7, 0, 5 * MS, "some-id")
        .unwrap()
        .unwrap();
    assert_eq!(lease.lease_id.as_str(), "lease-some-id");
    assert_eq!((lease.shards.begin, lease.shards.end), (0, 3)); // the default count
    assert_eq!(lease.epoch, 7);
    assert_eq!(lease.expires_at, 1_005 * MS);

    // One nanosecond early it is live, at its expiry it is not.
    assert_eq!(
        lm.renew_at(&lease.lease_id, 1_005 * MS - 1).unwrap(),
        2_005 * MS - 1
    );
    assert!(lm.renew_at(&lease.lease_id, 2_005 * MS - 1).is_err());
}

#[test]
fn grants_stop_at_gaps() {
    let mut lm = LeaseManager::new(60_000, 1);
    let (ds, _) = lm.register_dataset("s3://d/x", 6);
    let a = lm
        .acquire_at("w".into(), &ds, 0, 2, 0, "a")
        .unwrap()
        .unwrap();
    let b = lm
        .acquire_at("w".into(), &ds, 0, 2, 0, "b")
        .unwrap()
        .unwrap();
    assert_eq!((b.shards.begin, b.shards.end), (2, 4));
    lm.release(&a.lease_id, false).unwrap();
    // Shards 0 and 1 are back, 2 and 3 are not: the run ends at the gap.
    let c = lm
        .acquire_at("w".into(), &ds, 0, 9, 0, "c")
        .unwrap()
        .unwrap();
    assert_eq!((c.shards.begin, c.shards.end), (0, 2));
    // Completed shards never come back within the epoch.
    lm.release(&b.lease_id, true).unwrap();
    let d = lm
        .acquire_at("w".into(), &ds, 0, 9, 0, "d")
        .unwrap()
        .unwrap();
    assert_eq!((d.shards.begin, d.shards.end), (4, 6));
    assert!(lm
        .acquire_at("w".into(), &ds, 0, 9, 0, "e")
        .unwrap()
        .is_none());
}

#[test]
fn no_shard_is_lost_or_doubled_by_expiry() {
    let mut lm = LeaseManager::new(1, 2);
    let (ds, _) = lm.register_dataset("s3://d/x", 7);
    for i in 0..4u32 {
        lm.acquire_at("w".into(), &ds, 0, 2, 0, &format!("{i}"))
            .unwrap()
            .unwrap();
    }
    let expired = lm.expire_due_leases_at(MS);
    assert_eq!(expired.len(), 4);
    let whole = lm
        .acquire_at("w".into(), &ds, 0, 100, MS, "all")
        .unwrap()
        .unwrap();
    assert_eq!((whole.shards.begin, whole.shards.end), (0, 7));
    assert_eq!(lm.expire_due_leases().len(), 0);
    assert_eq!(lm.ttl_ms(), 1);
}

#[test]
fn zero_default_counts_as_one() {
    let mut lm = LeaseManager::new(60_000, 0);
    let (ds, _) = lm.register_dataset("s3://d/x", 3);
    let lease = lm.acquire("w".into(), &ds, 0, 0).unwrap().unwrap();
    assert_eq!(lease.shards.len(), 1);
    assert_eq!(lease.lease_id.as_str().len(), "lease-".len() + 36);
}

#[test]
fn hash_is_fnv_1a() {
    assert_eq!(dtr::hash::fnv(b""), 0xcbf29ce484222325);
    assert_eq!(dtr::hash::fnv(b"a"), 0xaf63dc4c8601ec8c);
    assert_eq!(dtr::hash::fnv(b"foobar"), 0x85944171f73967e8);
}

#[test]
fn every_shard_is_completed_or_outstanding() {
    let mut lm = LeaseManager::new(60_000, 1);
    let (ds, _) = lm.register_dataset("s3://d/x", 6);
    let a = lm.acquire_at("w0".into(), &ds, 0, 2, 0, "a").unwrap().unwrap();
    let b = lm.acquire_at("w1".into(), &ds, 0, 3, 0, "b").unwrap().unwrap();
    assert_eq!((a.shards.begin, a.shards.end), (0, 2));
    assert_eq!((b.shards.begin, b.shards.end), (2, 5));
    lm.release(&a.lease_id, true).unwrap();
    // The other lease lapses: its shards come back, the completed ones do not.
    let c = lm
        .acquire_at("w2".into(), &ds, 0, 9, 60_000 * 1_000_000, "c")
        .unwrap()
        .unwrap();
    assert_eq!((c.shards.begin, c.shards.end), (2, 6));
    assert!(lm
        .acquire_at("w2".into(), &ds, 0, 9, 60_000 * 1_000_000, "d")
        .unwrap()
        .is_none());
}

#[test]
fn a_lapsed_lease_frees_its_name() {
    let mut lm = LeaseManager::new(60_000, 1);
    let (ds, _) = lm.register_dataset("s3://d/x", 3);
    lm.acquire_at("w0".into(), &ds, 0, 2, 0, "a").unwrap().unwrap();
    let later = 60_000 * 1_000_000;
    let again = lm.acquire_at("w1".into(), &ds, 0, 2, later, "a").unwrap().unwrap();
    assert_eq!((again.shards.begin, again.shards.end), (0, 2));
    assert_eq!(lm.active_lease_count(), 1);
    let rest = lm.acquire_at("w1".into(), &ds, 0, 2, later, "b").unwrap().unwrap();
    assert_eq!((rest.shards.begin, rest.shards.end), (2, 3));
}
