use bytes::Bytes;
use dtr::cache::LruByteCache;
use dtr::error::DtrError;
use dtr::io_engine::{FetchPlan, IoEngine, IoStats, ReadPlan};
use std::collections::HashMap;

/// A backend that counts its reads.
struct Counting {
    objects: HashMap<String, Bytes>,
    gets: usize,
}

impl Counting {
    fn seeded(objects: &[(&str, &[u8])]) -> Self {
        Counting {
            objects: objects
                .iter()
                .map(|(key, data)| (key.to_string(), Bytes::copy_from_slice(data)))
                .collect(),
            gets: 0,
        }
    }

    fn get(&mut self, key: &str) -> Result<Bytes, DtrError> {
        self.gets += 1;
        match self.objects.get(key) {
            Some(data) => Ok(data.clone()),
            None => Err(DtrError::storage(key, "not found")),
        }
    }
}

fn fetch(engine: &mut IoEngine, storage: &mut Counting, key: &str) -> Result<Bytes, DtrError> {
    match engine.fetch(key) {
        FetchPlan::Cached(data) => Ok(data),
        FetchPlan::Wait => panic!("nobody else is fetching"),
        FetchPlan::Fetch => {
            let result = storage.get(key);
            let _news = engine.fetched(key, &result);
            result
        }
    }
}

fn read(engine: &mut IoEngine, storage: &mut Counting, key: &str) -> Result<Bytes, DtrError> {
    match engine.read(key) {
        ReadPlan::Hit(data) => Ok(data),
        ReadPlan::Miss => {
            let data = fetch(engine, storage, key)?;
            engine.served(&data);
            Ok(data)
        }
    }
}

#[test]
fn lru_order_respects_access() {
    let mut cache = LruByteCache::new(100);
    cache.insert("a", Bytes::from(vec![0u8; 40]));
    cache.insert("b", Bytes::from(vec![0u8; 40]));
    cache.get("a"); // a becomes most recently used
    cache.insert("c", Bytes::from(vec![0u8; 40])); // evicts b

    assert!(cache.contains("a"));
    assert!(!cache.contains("b"));
    assert!(cache.contains("c"));
    assert_eq!(cache.used_bytes(), 80);
    assert_eq!(cache.evictions(), 1);
}

#[test]
fn oversized_object_is_not_cached() {
    let mut cache = LruByteCache::new(10);
    cache.insert("big", Bytes::from(vec![0u8; 100]));
    assert!(!cache.contains("big"));
    assert_eq!(cache.used_bytes(), 0);
}

#[test]
fn reinsert_replaces_and_adjusts_bytes() {
    let mut cache = LruByteCache::new(100);
    cache.insert("a", Bytes::from(vec![0u8; 60]));
    cache.insert("a", Bytes::from(vec![0u8; 20]));
    assert_eq!(cache.used_bytes(), 20);
}

#[test]
fn eviction_takes_no_more_than_it_must() {
    let mut cache = LruByteCache::new(10);
    for key in ["a", "b", "c", "d", "e"] {
        cache.insert(key, Bytes::from_static(b"xx"));
    }
    cache.insert("f", Bytes::from_static(b"yyyy")); // two have to go
    assert_eq!(cache.evictions(), 2);
    assert!(!cache.contains("a") && !cache.contains("b") && cache.contains("c"));
    assert_eq!(cache.used_bytes(), 10);
    assert_eq!(cache.get("f").unwrap(), Bytes::from_static(b"yyyy"));
    assert!(cache.get("a").is_none());
    // An object as large as the budget pushes everything out.
    cache.insert("g", Bytes::from(vec![1u8; 10]));
    assert_eq!((cache.used_bytes(), cache.evictions()), (10, 6));
    // Oversized replacements leave the old object in place.
    cache.insert("g", Bytes::from(vec![1u8; 11]));
    assert_eq!(cache.get("g").unwrap().len(), 10);
}

#[test]
fn cache_hit_avoids_backend() {
    let mut storage = Counting::seeded(&[("shard-0", b"aaaa")]);
    let mut engine = IoEngine::new(1024, 0);

    for _ in 0..3 {
        let data = read(&mut engine, &mut storage, "shard-0").unwrap();
        assert_eq!(&data[..], b"aaaa");
    }

    assert_eq!(storage.gets, 1);
    let stats = engine.stats();
    assert_eq!(stats.cache_hits, 2);
    assert_eq!(stats.cache_misses, 1);
    assert_eq!(stats.bytes_read_backend, 4);
    assert_eq!(stats.bytes_served, 12);
}

#[test]
fn eviction_honors_byte_budget() {
    let mut storage = Counting::seeded(&[
        ("a", &[0u8; 40][..]),
        ("b", &[0u8; 40][..]),
        ("c", &[0u8; 40][..]),
    ]);
    // Budget fits two 40-byte objects.
    let mut engine = IoEngine::new(100, 0);

    read(&mut engine, &mut storage, "a").unwrap();
    read(&mut engine, &mut storage, "b").unwrap();
    read(&mut engine, &mut storage, "c").unwrap(); // evicts "a" (LRU)

    assert_eq!(engine.stats().evictions, 1);
    read(&mut engine, &mut storage, "b").unwrap(); // still cached
    assert_eq!(storage.gets, 3);
    read(&mut engine, &mut storage, "a").unwrap(); // was evicted -> backend read
    assert_eq!(storage.gets, 4);
}

#[test]
fn prefetch_warms_subsequent_reads() {
    let mut storage = Counting::seeded(&[
        ("s0", b"000"),
        ("s1", b"111"),
        ("s2", b"222"),
        ("s3", b"333"),
    ]);
    let mut engine = IoEngine::new(1024, 2);
    let keys: Vec<String> = ["s0", "s1", "s2", "s3"]
        .iter()
        .map(|s| s.to_string())
        .collect();

    read(&mut engine, &mut storage, "s0").unwrap();
    let started = engine.prefetch(&keys, 0); // warms s1, s2
    assert_eq!(started.len(), 2);
    for key in &started {
        fetch(&mut engine, &mut storage, key).unwrap();
    }

    let before = storage.gets;
    read(&mut engine, &mut storage, "s1").unwrap();
    read(&mut engine, &mut storage, "s2").unwrap();
    assert_eq!(storage.gets, before); // pure hits

    let stats = engine.stats();
    assert_eq!(stats.cache_hits, 2);
}

#[test]
fn range_read_served_from_cached_object() {
    let mut storage = Counting::seeded(&[("s0", b"hello world")]);
    let mut engine = IoEngine::new(1024, 0);

    read(&mut engine, &mut storage, "s0").unwrap();
    match engine.read_range("s0", 6, 11) {
        ReadPlan::Hit(range) => assert_eq!(&range[..], b"world"),
        ReadPlan::Miss => panic!("the object is cached"),
    }
    assert_eq!(storage.gets, 1);
}

#[test]
fn concurrent_misses_share_one_backend_fetch() {
    let mut storage = Counting::seeded(&[("s0", b"data")]);
    let mut engine = IoEngine::new(1024, 0);

    let mut fetching = 0;
    let mut waiting = 0;
    for _ in 0..16 {
        assert!(matches!(engine.read("s0"), ReadPlan::Miss));
        match engine.fetch("s0") {
            FetchPlan::Fetch => fetching += 1,
            FetchPlan::Wait => waiting += 1,
            FetchPlan::Cached(_) => panic!("nothing is cached yet"),
        }
    }
    assert_eq!((fetching, waiting), (1, 15));
    let result = storage.get("s0");
    let news = engine.fetched("s0", &result);
    assert_eq!(&result.unwrap()[..], b"data");
    for _ in 0..waiting {
        let data = IoEngine::waited("s0", Some(news.clone())).unwrap();
        assert_eq!(&data[..], b"data");
    }
    // Single-flight: all 16 concurrent readers share one backend GET.
    assert_eq!(storage.gets, 1);
    assert!(matches!(engine.fetch("s0"), FetchPlan::Cached(_)));
}

#[test]
fn failed_fetches_are_told_and_can_be_retried() {
    let mut engine = IoEngine::new(1024, 0);
    assert!(matches!(engine.fetch("k"), FetchPlan::Fetch));
    assert!(matches!(engine.fetch("other"), FetchPlan::Fetch));
    let result = Err(DtrError::storage("k", "gone"));
    let news = engine.fetched("k", &result);
    assert_eq!(
        IoEngine::waited("k", Some(news)).unwrap_err().to_string(),
        "internal error: storage error at k: gone"
    );
    assert_eq!(
        IoEngine::waited("k", None).unwrap_err().to_string(),
        "internal error: in-flight fetch for k dropped"
    );
    assert!(matches!(engine.fetch("k"), FetchPlan::Fetch));
    assert!(matches!(engine.fetch("other"), FetchPlan::Wait));
    assert_eq!(engine.stats(), IoStats::default());
}

#[test]
fn ranges_are_cut_off_at_the_end() {
    let mut engine = IoEngine::new(1024, 0);
    engine.fetch("k");
    engine.fetched("k", &Ok(Bytes::from_static(b"0123456789")));
    for (start, end, expected) in [
        (0u64, 4u64, &b"0123"[..]),
        (8, 100, b"89"),
        (10, 10, b""),
        (50, 60, b""),
        (7, 3, b""),
        (0, u64::MAX, b"0123456789"),
    ] {
        match engine.read_range("k", start, end) {
            ReadPlan::Hit(range) => assert_eq!(&range[..], expected),
            ReadPlan::Miss => panic!("the object is cached"),
        }
    }
    assert!(matches!(engine.read_range("x", 0, 1), ReadPlan::Miss));
    engine.range_fetched(&Bytes::from_static(b"abc"));
    let stats = engine.stats();
    assert_eq!((stats.cache_hits, stats.cache_misses), (6, 1));
    assert_eq!(stats.bytes_read_backend, 13);
    assert_eq!(stats.bytes_served, 4 + 2 + 10 + 3);
}

#[test]
fn prefetch_skips_cached_keys_and_stops_at_the_end() {
    let mut engine = IoEngine::new(1024, 3);
    engine.fetch("c");
    engine.fetched("c", &Ok(Bytes::from_static(b"x")));
    let keys: Vec<String> = ["a", "b", "c", "d", "e"]
        .iter()
        .map(|s| s.to_string())
        .collect();
    assert_eq!(engine.prefetch(&keys, 0), vec!["b", "d"]);
    assert_eq!(engine.prefetch(&keys, 3), vec!["e"]);
    assert!(engine.prefetch(&keys, 4).is_empty());
    assert!(engine.prefetch(&keys, 1_000).is_empty());
    assert_eq!(engine.prefetch_keys(&keys), vec!["a", "b", "d", "e"]);
}
