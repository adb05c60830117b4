//! High-throughput read path for shard data.
//!
//! [`IoEngine`] decides how reads in front of a storage backend are served:
//! - a byte-budgeted LRU cache (whole objects, keyed by storage key)
//! - a sequential prefetcher that warms the next N objects of a shard list
//! - hit/miss/eviction counters for the observability layer
//!
//! Single-flight de-duplication: concurrent reads of the same missing key
//! share one backend fetch instead of stampeding storage. The engine says who
//! fetches and who waits; the backend calls and the waiting are the server's.

use crate::cache;
use crate::cache::CacheView;
use crate::cache::LruByteCache;
use crate::error::DtrError;
use crate::error::ErrorView;
use crate::outside;
use crate::text;
use bytes::Bytes;
use vstd::prelude::*;

verus! {

/// Snapshot of the engine's counters (for /metrics).
#[derive(Debug, Clone, Copy, PartialEq, Eq, Structural)]
pub struct IoStats {
    pub cache_hits: u64,
    pub cache_misses: u64,
    pub evictions: u64,
    pub bytes_read_backend: u64,
    pub bytes_served: u64,
}

impl Default for IoStats {
    fn default() -> (out: Self)
        ensures
            out == (IoStats {
                cache_hits: 0,
                cache_misses: 0,
                evictions: 0,
                bytes_read_backend: 0,
                bytes_served: 0,
            }),
    {
        IoStats {
            cache_hits: 0,
            cache_misses: 0,
            evictions: 0,
            bytes_read_backend: 0,
            bytes_served: 0,
        }
    }
}

/// `n` counted on top of a counter that wraps around at 64 bits.
pub open spec fn counted(counter: u64, n: nat) -> u64 {
    ((counter + n) % 0x1_0000_0000_0000_0000) as u64
}

/// How a read is served.
#[derive(Debug)]
pub enum ReadPlan {
    /// From the cache.
    Hit(Bytes),
    /// The object has to be fetched.
    Miss,
}

/// How an object is fetched.
#[derive(Debug)]
pub enum FetchPlan {
    /// It came into the cache meanwhile.
    Cached(Bytes),
    /// Somebody else is fetching it: wait for them.
    Wait,
    /// Read it from the backend.
    Fetch,
}

/// What an engine knows.
#[verifier::ext_equal]
pub struct EngineView {
    pub cache: CacheView,
    pub prefetch_depth: u32,
    pub hits: u64,
    pub misses: u64,
    pub backend_bytes: u64,
    pub served_bytes: u64,
    /// The keys that are being fetched.
    pub inflight: Set<Seq<char>>,
}

/// How an object is fetched, in views.
pub enum FetchView {
    Cached(Seq<u8>),
    Wait,
    Fetch,
}

impl View for FetchPlan {
    type V = FetchView;

    open spec fn view(&self) -> FetchView {
        match *self {
            FetchPlan::Cached(data) => FetchView::Cached(outside::contents(data)),
            FetchPlan::Wait => FetchView::Wait,
            FetchPlan::Fetch => FetchView::Fetch,
        }
    }
}

impl View for ReadPlan {
    type V = Option<Seq<u8>>;

    open spec fn view(&self) -> Option<Seq<u8>> {
        match *self {
            ReadPlan::Hit(data) => Some(outside::contents(data)),
            ReadPlan::Miss => None,
        }
    }
}

/// The bytes from `start` up to, without, `end`, as far as there are any.
pub open spec fn slice_of(data: Seq<u8>, start: u64, end: u64) -> Seq<u8> {
    let to: int = if end <= data.len() {
        end as int
    } else {
        data.len() as int
    };
    let from: int = if start <= to {
        start as int
    } else {
        to
    };
    data.subrange(from, to)
}

/// The keys that are not cached, in order.
pub open spec fn uncached(cache: CacheView, keys: Seq<Seq<char>>) -> Seq<Seq<char>>
    decreases keys.len(),
{
    if keys.len() == 0 {
        Seq::empty()
    } else {
        let earlier = uncached(cache, keys.drop_last());
        if cache.has(keys.last()) {
            earlier
        } else {
            earlier.push(keys.last())
        }
    }
}

/// The `depth` keys that follow the cursor.
pub open spec fn upcoming(keys: Seq<Seq<char>>, cursor: usize, depth: u32) -> Seq<Seq<char>> {
    if cursor + 1 >= keys.len() {
        Seq::empty()
    } else if cursor + 1 + depth <= keys.len() {
        keys.subrange(cursor + 1, cursor + 1 + depth)
    } else {
        keys.skip(cursor + 1)
    }
}

impl EngineView {
    /// What an engine starts with.
    pub open spec fn initial(cache_bytes: u64, prefetch_depth: u32) -> EngineView {
        EngineView {
            cache: CacheView { entries: Seq::empty(), budget_bytes: cache_bytes, evictions: 0 },
            prefetch_depth,
            hits: 0,
            misses: 0,
            backend_bytes: 0,
            served_bytes: 0,
            inflight: Set::empty(),
        }
    }

    pub open spec fn consistent(self) -> bool {
        self.cache.consistent()
    }

    /// What a read does to the engine, and what it serves: a hit counts what it
    /// serves, a miss counts itself only.
    pub open spec fn read(self, key: Seq<char>) -> (EngineView, Option<Seq<u8>>) {
        match self.cache.get(key).1 {
            Some(data) => (
                EngineView {
                    cache: self.cache.get(key).0,
                    hits: counted(self.hits, 1),
                    served_bytes: counted(self.served_bytes, data.len()),
                    ..self
                },
                Some(data),
            ),
            None => (EngineView { misses: counted(self.misses, 1), ..self }, None),
        }
    }

    /// What a range read does to the engine, and what it serves.
    pub open spec fn read_range(self, key: Seq<char>, start: u64, end: u64) -> (
        EngineView,
        Option<Seq<u8>>,
    ) {
        match self.cache.get(key).1 {
            Some(data) => {
                let part = slice_of(data, start, end);
                (
                    EngineView {
                        cache: self.cache.get(key).0,
                        hits: counted(self.hits, 1),
                        served_bytes: counted(self.served_bytes, part.len()),
                        ..self
                    },
                    Some(part),
                )
            },
            None => (EngineView { misses: counted(self.misses, 1), ..self }, None),
        }
    }

    /// What asking for a fetch does to the engine, and who fetches.
    pub open spec fn fetch(self, key: Seq<char>) -> (EngineView, FetchView) {
        match self.cache.get(key).1 {
            Some(data) => (
                EngineView { cache: self.cache.get(key).0, ..self },
                FetchView::Cached(data),
            ),
            None => if self.inflight.contains(key) {
                (self, FetchView::Wait)
            } else {
                (
                    EngineView { inflight: self.inflight.insert(key), ..self },
                    FetchView::Fetch,
                )
            },
        }
    }

    /// What the end of a fetch does to the engine: what was read is cached and
    /// counted, and in any case the key is no longer being fetched.
    pub open spec fn fetched(self, key: Seq<char>, result: Result<Seq<u8>, ErrorView>) -> EngineView {
        let done = EngineView { inflight: self.inflight.remove(key), ..self };
        match result {
            Ok(data) => EngineView {
                cache: self.cache.inserted(key, data),
                backend_bytes: counted(self.backend_bytes, data.len()),
                ..done
            },
            Err(_) => done,
        }
    }
}

/// What the fetching reader tells those who wait.
pub open spec fn told(result: Result<Seq<u8>, ErrorView>) -> Result<Seq<u8>, Seq<char>> {
    match result {
        Ok(data) => Ok(data),
        Err(e) => Err(e.message()),
    }
}

/// What a waiting reader gets, given what it was told, if anything.
pub open spec fn awaited(key: Seq<char>, news: Option<Result<Seq<u8>, Seq<char>>>) -> Result<
    Seq<u8>,
    ErrorView,
> {
    match news {
        Some(Ok(data)) => Ok(data),
        Some(Err(m)) => Err(ErrorView::Internal(m)),
        None => Err(ErrorView::Internal("in-flight fetch for "@ + key + " dropped"@)),
    }
}

/// A fetch result, in views.
pub open spec fn outcome(result: Result<Bytes, DtrError>) -> Result<Seq<u8>, ErrorView> {
    match result {
        Ok(data) => Ok(outside::contents(data)),
        Err(e) => Err(e@),
    }
}

/// A message to waiting readers, in views.
pub open spec fn message(news: Result<Bytes, String>) -> Result<Seq<u8>, Seq<char>> {
    match news {
        Ok(data) => Ok(outside::contents(data)),
        Err(m) => Err(m@),
    }
}

/// A message to waiting readers that may not have come, in views.
pub open spec fn received(news: Option<Result<Bytes, String>>) -> Option<
    Result<Seq<u8>, Seq<char>>,
> {
    match news {
        Some(n) => Some(message(n)),
        None => None,
    }
}

/// Views of the keys.
pub open spec fn names(keys: Seq<String>) -> Seq<Seq<char>> {
    keys.map_values(|k: String| k@)
}

pub struct IoEngine {
    cache: LruByteCache,
    prefetch_depth: u32,
    hits: u64,
    misses: u64,
    backend_bytes: u64,
    served_bytes: u64,
    /// Keys currently being fetched, none twice.
    inflight: Vec<String>,
}

impl View for IoEngine {
    type V = EngineView;

    closed spec fn view(&self) -> EngineView {
        EngineView {
            cache: self.cache@,
            prefetch_depth: self.prefetch_depth,
            hits: self.hits,
            misses: self.misses,
            backend_bytes: self.backend_bytes,
            served_bytes: self.served_bytes,
            inflight: names(self.inflight@).to_set(),
        }
    }
}

fn add_count(counter: u64, n: u64) -> (out: u64)
    ensures
        out == counted(counter, n as nat),
{
    counter.wrapping_add(n)
}

impl IoEngine {
    /// The cache keeps to its budget, and no key is listed twice as being
    /// fetched.
    pub closed spec fn wf(self) -> bool {
        self.cache.wf() && names(self.inflight@).no_duplicates()
    }

    /// What well-formedness says about the state.
    pub proof fn lemma_wf(&self)
        requires
            self.wf(),
        ensures
            self@.consistent(),
    {
        self.cache.lemma_wf();
    }

    pub fn new(cache_bytes: u64, prefetch_depth: u32) -> (out: Self)
        ensures
            out.wf(),
            out@ == EngineView::initial(cache_bytes, prefetch_depth),
    {
        let out = IoEngine {
            cache: LruByteCache::new(cache_bytes),
            prefetch_depth,
            hits: 0,
            misses: 0,
            backend_bytes: 0,
            served_bytes: 0,
            inflight: Vec::new(),
        };
        assert(out@.inflight =~= Set::<Seq<char>>::empty());
        out
    }

    /// Read a whole object through the cache. After a miss the object is
    /// fetched, and [`IoEngine::served`] counts it.
    pub fn read(&mut self, key: &str) -> (out: ReadPlan)
        requires
            old(self).wf(),
        ensures
            final(self).wf(),
            (final(self)@, out@) == old(self)@.read(key@),
    {
        match self.cache.get(key) {
            Some(data) => {
                self.hits = add_count(self.hits, 1);
                let size: u64 = outside::bytes_len(&data) as u64;
                self.served_bytes = add_count(self.served_bytes, size);
                ReadPlan::Hit(data)
            },
            None => {
                self.misses = add_count(self.misses, 1);
                ReadPlan::Miss
            },
        }
    }

    /// Read a byte range. Served from the cached whole object when present;
    /// otherwise a direct range read (no caching: partial objects would
    /// poison whole-object cache semantics), which [`IoEngine::range_fetched`]
    /// counts.
    pub fn read_range(&mut self, key: &str, start: u64, end: u64) -> (out: ReadPlan)
        requires
            old(self).wf(),
        ensures
            final(self).wf(),
            (final(self)@, out@) == old(self)@.read_range(key@, start, end),
    {
        match self.cache.get(key) {
            Some(data) => {
                let len: usize = outside::bytes_len(&data);
                let to: usize = if end <= len as u64 {
                    end as usize
                } else {
                    len
                };
                let from: usize = if start <= to as u64 {
                    start as usize
                } else {
                    to
                };
                self.hits = add_count(self.hits, 1);
                let part: Bytes = outside::bytes_slice(&data, from, to);
                let size: u64 = outside::bytes_len(&part) as u64;
                self.served_bytes = add_count(self.served_bytes, size);
                ReadPlan::Hit(part)
            },
            None => {
                self.misses = add_count(self.misses, 1);
                ReadPlan::Miss
            },
        }
    }

    /// Counts an object that was served after a miss.
    pub fn served(&mut self, data: &Bytes)
        requires
            old(self).wf(),
        ensures
            final(self).wf(),
            final(self)@ == (EngineView {
                served_bytes: counted(
                    old(self)@.served_bytes,
                    outside::contents(*data).len(),
                ),
                ..old(self)@
            }),
    {
        self.served_bytes = add_count(self.served_bytes, outside::bytes_len(data) as u64);
    }

    /// Counts a range that was read from the backend and served.
    pub fn range_fetched(&mut self, data: &Bytes)
        requires
            old(self).wf(),
        ensures
            final(self).wf(),
            final(self)@ == (EngineView {
                backend_bytes: counted(
                    old(self)@.backend_bytes,
                    outside::contents(*data).len(),
                ),
                served_bytes: counted(
                    old(self)@.served_bytes,
                    outside::contents(*data).len(),
                ),
                ..old(self)@
            }),
    {
        let size: u64 = outside::bytes_len(data) as u64;
        self.backend_bytes = add_count(self.backend_bytes, size);
        self.served_bytes = add_count(self.served_bytes, size);
    }

    fn find_inflight(&self, key: &str) -> (out: Option<usize>)
        ensures
            match out {
                Some(i) => i < self.inflight@.len() && self.inflight@[i as int]@ == key@
                    && self@.inflight.contains(key@),
                None => !self@.inflight.contains(key@),
            },
    {
        let ghost all = names(self.inflight@);
        let mut i: usize = 0;
        while i < self.inflight.len()
            invariant
                i <= self.inflight@.len(),
                all == names(self.inflight@),
                forall|j: int| 0 <= j < i ==> all[j] != key@,
            decreases self.inflight@.len() - i,
        {
            assert(all[i as int] == self.inflight@[i as int]@);
            if text::same(self.inflight[i].as_str(), key) {
                assert(all.contains(all[i as int]));
                return Some(i);
            }
            i = i + 1;
        }
        None
    }

    /// Who fetches a key from the backend, with single-flight de-duplication.
    pub fn fetch(&mut self, key: &str) -> (out: FetchPlan)
        requires
            old(self).wf(),
        ensures
            final(self).wf(),
            (final(self)@, out@) == old(self)@.fetch(key@),
    {
        // Fast path: someone may have populated the cache while we raced.
        match self.cache.get(key) {
            Some(data) => FetchPlan::Cached(data),
            None => match self.find_inflight(key) {
                Some(_) => FetchPlan::Wait,
                None => {
                    let ghost before = names(self.inflight@);
                    self.inflight.push(key.to_owned());
                    proof {
                        let after = names(self.inflight@);
                        assert(after =~= before.push(key@));
                        assert(!before.contains(key@));
                        assert forall|a: int, b: int|
                            0 <= a < after.len() && 0 <= b < after.len() && a != b implies after[a]
                            != after[b] by {
                            if a < before.len() {
                                assert(before.contains(before[a]));
                            }
                            if b < before.len() {
                                assert(before.contains(before[b]));
                            }
                        }
                        assert forall|k: Seq<char>|
                            after.contains(k) == (before.contains(k) || k == key@) by {
                            if before.contains(k) {
                                assert(after[before.index_of(k)] == k);
                            }
                            assert(after[before.len() as int] == key@);
                        }
                        assert(after.to_set() =~= before.to_set().insert(key@));
                    }
                    FetchPlan::Fetch
                },
            },
        }
    }

    /// Takes in how the backend read went, and says what those who wait for the
    /// key are told.
    pub fn fetched(&mut self, key: &str, result: &Result<Bytes, DtrError>) -> (out: Result<
        Bytes,
        String,
    >)
        requires
            old(self).wf(),
        ensures
            final(self).wf(),
            final(self)@ == old(self)@.fetched(key@, outcome(*result)),
            message(out) == told(outcome(*result)),
    {
        let ghost start = self@;
        let news: Result<Bytes, String> = match result {
            Ok(data) => {
                let size: u64 = outside::bytes_len(data) as u64;
                self.backend_bytes = add_count(self.backend_bytes, size);
                self.cache.insert(key, outside::bytes_clone(data));
                Ok(outside::bytes_clone(data))
            },
            Err(e) => Err(e.to_string()),
        };
        assert(self@.inflight == start.inflight);
        match self.find_inflight(key) {
            Some(i) => {
                let ghost before = names(self.inflight@);
                self.inflight.remove(i);
                proof {
                    let after = names(self.inflight@);
                    assert(after =~= before.remove(i as int));
                    assert(before[i as int] == key@);
                    assert forall|k: Seq<char>|
                        after.contains(k) == (before.contains(k) && k != key@) by {
                        if before.contains(k) && k != key@ {
                            let j = before.index_of(k);
                            assert(after[if j < i { j } else { j - 1 }] == k);
                        }
                        if after.contains(k) {
                            let j = after.index_of(k);
                            let at = if j < i { j } else { j + 1 };
                            assert(before[at] == k);
                        }
                    }
                    assert(after.to_set() =~= before.to_set().remove(key@));
                }
            },
            None => {
                assert(self@.inflight =~= self@.inflight.remove(key@));
            },
        }
        news
    }

    /// What a reader that waited for a key gets, given what it was told; `None`
    /// if the fetching reader went away.
    pub fn waited(key: &str, news: Option<Result<Bytes, String>>) -> (out: Result<Bytes, DtrError>)
        ensures
            outcome(out) == awaited(key@, received(news)),
    {
        match news {
            Some(Ok(data)) => Ok(data),
            Some(Err(m)) => Err(DtrError::Internal(m)),
            None => Err(
                DtrError::Internal(text::join3("in-flight fetch for ", key, " dropped")),
            ),
        }
    }

    /// The next `prefetch_depth` keys following `cursor` in `shard_keys`, as far
    /// as they are not cached: those whose fetches are started.
    pub fn prefetch(&self, shard_keys: &Vec<String>, cursor: usize) -> (out: Vec<String>)
        requires
            cursor < usize::MAX,
        ensures
            names(out@) == uncached(
                self@.cache,
                upcoming(names(shard_keys@), cursor, self@.prefetch_depth),
            ),
    {
        let ghost all = names(shard_keys@);
        let len: usize = shard_keys.len();
        let from: usize = cursor + 1;
        if from >= len {
            let none: Vec<String> = Vec::new();
            assert(names(none@) =~= Seq::<Seq<char>>::empty());
            return none;
        }
        let to: usize = if (self.prefetch_depth as u64) < (len - from) as u64 {
            from + self.prefetch_depth as usize
        } else {
            len
        };
        assert(all.subrange(from as int, to as int) =~= upcoming(
            all,
            cursor,
            self.prefetch_depth,
        ));
        self.pick_uncached(shard_keys, from, to)
    }

    /// The hinted keys that are not cached: those whose fetches are started.
    pub fn prefetch_keys(&self, keys: &Vec<String>) -> (out: Vec<String>)
        ensures
            names(out@) == uncached(self@.cache, names(keys@)),
    {
        assert(names(keys@).subrange(0, keys@.len() as int) =~= names(keys@));
        self.pick_uncached(keys, 0, keys.len())
    }

    fn pick_uncached(&self, keys: &Vec<String>, from: usize, to: usize) -> (out: Vec<String>)
        requires
            from <= to <= keys@.len(),
        ensures
            names(out@) == uncached(
                self@.cache,
                names(keys@).subrange(from as int, to as int),
            ),
    {
        let ghost all = names(keys@);
        let mut out: Vec<String> = Vec::new();
        let mut i: usize = from;
        assert(names(out@) =~= uncached(self@.cache, all.subrange(from as int, from as int)));
        while i < to
            invariant
                from <= i <= to <= keys@.len(),
                all == names(keys@),
                names(out@) == uncached(self@.cache, all.subrange(from as int, i as int)),
            decreases to - i,
        {
            let ghost before = names(out@);
            proof {
                let wider = all.subrange(from as int, i + 1);
                assert(wider.drop_last() =~= all.subrange(from as int, i as int));
                assert(wider.last() == keys@[i as int]@);
            }
            if !self.cache.contains(keys[i].as_str()) {
                out.push(keys[i].clone());
                assert(names(out@) =~= before.push(keys@[i as int]@));
            }
            i = i + 1;
        }
        out
    }

    pub fn stats(&self) -> (out: IoStats)
        ensures
            out == (IoStats {
                cache_hits: self@.hits,
                cache_misses: self@.misses,
                evictions: self@.cache.evictions,
                bytes_read_backend: self@.backend_bytes,
                bytes_served: self@.served_bytes,
            }),
    {
        IoStats {
            cache_hits: self.hits,
            cache_misses: self.misses,
            evictions: self.cache.evictions(),
            bytes_read_backend: self.backend_bytes,
            bytes_served: self.served_bytes,
        }
    }
}

/// Single flight: of all who ask for a key that is not cached, the first one
/// fetches and every other one waits, until the fetch has ended.
pub proof fn concurrent_misses_share_one_fetch(engine: EngineView, key: Seq<char>)
    requires
        engine.fetch(key).1 is Fetch,
    ensures
        ({
            let asked = engine.fetch(key).0;
            asked.fetch(key) == (asked, FetchView::Wait)
        }),
{
}

/// A fetch of one key leaves the fetches of others alone.
pub proof fn fetches_are_independent(
    engine: EngineView,
    key: Seq<char>,
    other: Seq<char>,
    result: Result<Seq<u8>, ErrorView>,
)
    requires
        key != other,
    ensures
        engine.fetch(key).0.inflight.contains(other) == engine.inflight.contains(other),
        engine.fetched(key, result).inflight.contains(other) == engine.inflight.contains(other),
        !engine.fetched(key, result).inflight.contains(key),
{
}

/// What was fetched is served from the cache from then on, as far as it fits the
/// budget: reading it again is a hit with the same contents.
pub proof fn fetched_object_is_served_from_cache(
    engine: EngineView,
    key: Seq<char>,
    data: Seq<u8>,
)
    requires
        engine.consistent(),
        data.len() <= engine.cache.budget_bytes,
    ensures
        ({
            let after = engine.fetched(key, Ok(data));
            &&& after.consistent()
            &&& after.read(key).1 == Some(data)
            &&& after.read(key).0.hits == counted(engine.hits, 1)
            &&& after.read(key).0.backend_bytes == after.backend_bytes
        }),
{
    cache::cached_object_is_found(engine.cache, key, data);
    cache::budget_is_never_exceeded(engine.cache, key, data);
}

/// A failed fetch caches nothing, and the next reader may try again.
pub proof fn failed_fetch_leaves_no_trace(engine: EngineView, key: Seq<char>, error: ErrorView)
    requires
        engine.fetch(key).1 is Fetch,
    ensures
        ({
            let after = engine.fetch(key).0.fetched(key, Err(error));
            &&& after == engine
            &&& after.fetch(key).1 is Fetch
        }),
{
    assert(engine.inflight.insert(key).remove(key) =~= engine.inflight);
}

/// Those who wait get what the one who fetched got; a failure comes with the
/// message of the error.
pub proof fn waiting_readers_get_the_result(
    key: Seq<char>,
    result: Result<Seq<u8>, ErrorView>,
)
    ensures
        match result {
            Ok(data) => awaited(key, Some(told(result))) == Ok::<Seq<u8>, ErrorView>(data),
            Err(e) => awaited(key, Some(told(result))) == Err::<Seq<u8>, ErrorView>(
                ErrorView::Internal(e.message()),
            ),
        },
{
}

/// A range within a cached object is served as exactly those bytes, and one
/// beyond its end is cut off there.
pub proof fn cached_ranges_are_exact(
    engine: EngineView,
    key: Seq<char>,
    data: Seq<u8>,
    start: u64,
    end: u64,
)
    requires
        engine.cache.get(key).1 == Some(data),
        start <= end,
    ensures
        end <= data.len() ==> engine.read_range(key, start, end).1 == Some(
            data.subrange(start as int, end as int),
        ),
        end > data.len() && start <= data.len() ==> engine.read_range(key, start, end).1 == Some(
            data.skip(start as int),
        ),
        start > data.len() ==> engine.read_range(key, start, end).1 == Some(Seq::<u8>::empty()),
{
    if end > data.len() && start <= data.len() {
        assert(slice_of(data, start, end) =~= data.skip(start as int));
    }
    if start > data.len() {
        assert(slice_of(data, start, end) =~= Seq::<u8>::empty());
    }
}

/// A new engine has the cache budget and the prefetch depth it was made with, an
/// empty cache, no counts and no fetch under way.
pub proof fn a_new_engine_is_empty(cache_bytes: u64, prefetch_depth: u32, key: Seq<char>)
    ensures
        ({
            let engine = EngineView::initial(cache_bytes, prefetch_depth);
            &&& engine.cache.budget_bytes == cache_bytes
            &&& engine.cache.entries.len() == 0
            &&& engine.cache.evictions == 0
            &&& engine.prefetch_depth == prefetch_depth
            &&& engine.hits == 0
            &&& engine.misses == 0
            &&& engine.backend_bytes == 0
            &&& engine.served_bytes == 0
            &&& !engine.inflight.contains(key)
        }),
{
}

/// A counter goes up by what is counted, and starts over behind 64 bits.
pub proof fn counters_wrap_around(counter: u64, n: nat)
    ensures
        counted(counter, n) == (counter + n) % 0x1_0000_0000_0000_0000,
{
}

/// A read of a cached object is a hit: it hands the object out whole, and one hit
/// and the bytes handed out are counted. Any other read is a miss and counted as one.
/// Ranges are read in the same way, with the bytes of the range.
pub proof fn reads_are_hits_or_misses(engine: EngineView, key: Seq<char>, start: u64, end: u64)
    requires
        engine.consistent(),
    ensures
        ({
            let (touched, cached) = engine.cache.get(key);
            let (whole, object) = engine.read(key);
            let (ranged, part) = engine.read_range(key, start, end);
            let length = cached->0.len();
            let to: int = if end <= length {
                end as int
            } else {
                length as int
            };
            let from: int = if start <= to {
                start as int
            } else {
                to
            };
            &&& object == cached
            &&& part is Some <==> cached is Some
            &&& cached is Some ==> part->0 == cached->0.subrange(from, to)
            &&& cached is Some ==> whole.hits == (engine.hits + 1) % 0x1_0000_0000_0000_0000
            &&& cached is Some ==> ranged.hits == (engine.hits + 1) % 0x1_0000_0000_0000_0000
            &&& cached is Some ==> whole.served_bytes == (engine.served_bytes + length)
                % 0x1_0000_0000_0000_0000
            &&& cached is Some ==> ranged.served_bytes == (engine.served_bytes + (to - from))
                % 0x1_0000_0000_0000_0000
            &&& cached is Some ==> whole.misses == engine.misses && ranged.misses == engine.misses
            &&& cached is None ==> whole.misses == (engine.misses + 1) % 0x1_0000_0000_0000_0000
            &&& cached is None ==> ranged.misses == (engine.misses + 1) % 0x1_0000_0000_0000_0000
            &&& cached is None ==> whole.hits == engine.hits && ranged.hits == engine.hits
            &&& cached is None ==> whole.served_bytes == engine.served_bytes
                && ranged.served_bytes == engine.served_bytes
            &&& whole.cache == touched && ranged.cache == touched
            &&& whole.backend_bytes == engine.backend_bytes && ranged.backend_bytes
                == engine.backend_bytes
            &&& whole.inflight == engine.inflight && ranged.inflight == engine.inflight
            &&& whole.prefetch_depth == engine.prefetch_depth && ranged.prefetch_depth
                == engine.prefetch_depth
        }),
{
}

/// Who asks for an object to be fetched gets it from the cache, or waits for the
/// fetch under way, or is the one to fetch it; only the last is noted. No counter
/// changes.
pub proof fn a_fetch_is_started_once(engine: EngineView, key: Seq<char>)
    ensures
        ({
            let (touched, cached) = engine.cache.get(key);
            let (after, plan) = engine.fetch(key);
            let waits = engine.inflight.contains(key);
            &&& cached is Some ==> plan == FetchView::Cached(cached->0) && after.inflight
                == engine.inflight
            &&& cached is None && waits ==> plan == FetchView::Wait && after.inflight
                == engine.inflight
            &&& cached is None && !waits ==> plan == FetchView::Fetch && after.inflight
                == engine.inflight.insert(key)
            &&& after.cache == touched
            &&& after.hits == engine.hits
            &&& after.misses == engine.misses
            &&& after.backend_bytes == engine.backend_bytes
            &&& after.served_bytes == engine.served_bytes
            &&& after.prefetch_depth == engine.prefetch_depth
        }),
{
}

/// When a fetch has ended it is no longer under way. What it brought is put into the
/// cache and its bytes are counted as read from the backend; a failure brings
/// nothing. No other counter changes.
pub proof fn an_ended_fetch_is_cached_and_counted(
    engine: EngineView,
    key: Seq<char>,
    data: Seq<u8>,
    failure: ErrorView,
)
    ensures
        ({
            let brought = engine.fetched(key, Ok(data));
            let failed = engine.fetched(key, Err(failure));
            &&& brought.cache == engine.cache.inserted(key, data)
            &&& brought.backend_bytes == (engine.backend_bytes + data.len())
                % 0x1_0000_0000_0000_0000
            &&& failed.cache == engine.cache
            &&& failed.backend_bytes == engine.backend_bytes
            &&& brought.inflight == engine.inflight.remove(key)
            &&& failed.inflight == engine.inflight.remove(key)
            &&& brought.hits == engine.hits && failed.hits == engine.hits
            &&& brought.misses == engine.misses && failed.misses == engine.misses
            &&& brought.served_bytes == engine.served_bytes && failed.served_bytes
                == engine.served_bytes
            &&& brought.prefetch_depth == engine.prefetch_depth && failed.prefetch_depth
                == engine.prefetch_depth
        }),
{
}

/// Who waits in vain is told so.
pub proof fn a_dropped_fetch_is_an_error(key: Seq<char>)
    ensures
        awaited(key, None) == Err::<Seq<u8>, ErrorView>(
            ErrorView::Internal("in-flight fetch for "@ + key + " dropped"@),
        ),
{
}

/// What is prefetched are the keys behind the cursor, as many as the depth says and
/// as there are, in their order and without those that are cached.
pub proof fn prefetching_goes_ahead_of_the_cursor(
    cache: CacheView,
    keys: Seq<Seq<char>>,
    cursor: usize,
    depth: u32,
    i: int,
)
    ensures
        ({
            let next = upcoming(keys, cursor, depth);
            let left = if cursor + 1 < keys.len() {
                keys.len() - (cursor + 1)
            } else {
                0
            };
            &&& next.len() == if depth <= left {
                depth as int
            } else {
                left
            }
            &&& 0 <= i < next.len() ==> next[i] == keys[cursor + 1 + i]
            &&& uncached(cache, next) == next.filter(|key: Seq<char>| !cache.has(key))
            &&& uncached(cache, keys) == keys.filter(|key: Seq<char>| !cache.has(key))
        }),
{
    lemma_uncached_filters(cache, upcoming(keys, cursor, depth));
    lemma_uncached_filters(cache, keys);
}

proof fn lemma_uncached_filters(cache: CacheView, keys: Seq<Seq<char>>)
    ensures
        uncached(cache, keys) == keys.filter(|key: Seq<char>| !cache.has(key)),
    decreases keys.len(),
{
    reveal(Seq::filter);
    if keys.len() > 0 {
        lemma_uncached_filters(cache, keys.drop_last());
    }
    assert(uncached(cache, keys) =~= keys.filter(|key: Seq<char>| !cache.has(key)));
}

/// Plans, results and messages are seen as they are.
pub proof fn plans_are_seen_as_they_are(
    read: ReadPlan,
    fetch: FetchPlan,
    result: Result<Bytes, DtrError>,
    news: Result<Bytes, String>,
    keys: Seq<String>,
    i: int,
)
    ensures
        match read {
            ReadPlan::Hit(data) => read@ == Some(outside::contents(data)),
            ReadPlan::Miss => read@ is None,
        },
        match fetch {
            FetchPlan::Cached(data) => fetch@ == FetchView::Cached(outside::contents(data)),
            FetchPlan::Wait => fetch@ == FetchView::Wait,
            FetchPlan::Fetch => fetch@ == FetchView::Fetch,
        },
        match result {
            Ok(data) => outcome(result) == Ok::<Seq<u8>, ErrorView>(outside::contents(data)),
            Err(e) => outcome(result) == Err::<Seq<u8>, ErrorView>(e@),
        },
        match news {
            Ok(data) => message(news) == Ok::<Seq<u8>, Seq<char>>(outside::contents(data)),
            Err(m) => message(news) == Err::<Seq<u8>, Seq<char>>(m@),
        },
        received(Some(news)) == Some(message(news)),
        received(None) is None,
        names(keys).len() == keys.len(),
        0 <= i < keys.len() ==> names(keys)[i] == keys[i]@,
{
}

} // verus!
