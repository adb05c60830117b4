//! Byte-budgeted LRU cache for whole objects.
//!
//! Values are `Bytes` (cheap to clone); the budget counts value bytes only.
//! An object larger than the whole budget is never cached (it would evict
//! everything for a single-use read).

use crate::outside;
use crate::text;
use bytes::Bytes;
use vstd::prelude::*;

verus! {

/// A cached object: its key and its contents.
pub type Cached = (Seq<char>, Seq<u8>);

/// How many bytes the objects hold together.
pub open spec fn used(entries: Seq<Cached>) -> nat
    decreases entries.len(),
{
    if entries.len() == 0 {
        0
    } else {
        entries[0].1.len() + used(entries.drop_first())
    }
}

/// The position of a key.
pub open spec fn position(entries: Seq<Cached>, key: Seq<char>) -> Option<int>
    decreases entries.len(),
{
    if entries.len() == 0 {
        None
    } else if entries.last().0 == key {
        Some(entries.len() - 1)
    } else {
        position(entries.drop_last(), key)
    }
}

/// What remains when the least recently used objects go until the rest takes
/// `room` bytes at most.
pub open spec fn evicted(entries: Seq<Cached>, room: nat) -> Seq<Cached>
    decreases entries.len(),
{
    if entries.len() > 0 && used(entries) > room {
        evicted(entries.drop_first(), room)
    } else {
        entries
    }
}

/// The objects without the one under `key`.
pub open spec fn without(entries: Seq<Cached>, key: Seq<char>) -> Seq<Cached> {
    match position(entries, key) {
        Some(i) => entries.remove(i),
        None => entries,
    }
}

/// What a cache holds: the objects from the least to the most recently used.
#[verifier::ext_equal]
pub struct CacheView {
    pub entries: Seq<Cached>,
    pub budget_bytes: u64,
    pub evictions: u64,
}

impl CacheView {
    /// No key occurs twice, and the objects keep to the budget.
    pub open spec fn consistent(self) -> bool {
        &&& forall|i: int, j: int|
            0 <= i < j < self.entries.len() ==> self.entries[i].0 != self.entries[j].0
        &&& used(self.entries) <= self.budget_bytes
    }

    pub open spec fn has(self, key: Seq<char>) -> bool {
        position(self.entries, key) is Some
    }

    /// What reading does to the cache, and what is read: the object becomes the
    /// most recently used.
    pub open spec fn get(self, key: Seq<char>) -> (CacheView, Option<Seq<u8>>) {
        match position(self.entries, key) {
            Some(i) => (
                CacheView {
                    entries: self.entries.remove(i).push(self.entries[i]),
                    ..self
                },
                Some(self.entries[i].1),
            ),
            None => (self, None),
        }
    }

    /// What inserting does to the cache: the object replaces what was under its
    /// key, and the least recently used ones make room for it.
    pub open spec fn inserted(self, key: Seq<char>, data: Seq<u8>) -> CacheView {
        if data.len() > self.budget_bytes {
            self
        } else {
            let others = without(self.entries, key);
            let kept = evicted(others, (self.budget_bytes - data.len()) as nat);
            CacheView {
                entries: kept.push((key, data)),
                evictions: ((self.evictions + (others.len() - kept.len()))
                    % 0x1_0000_0000_0000_0000) as u64,
                ..self
            }
        }
    }
}

struct Entry {
    key: String,
    data: Bytes,
}

spec fn cached(entries: Seq<Entry>) -> Seq<Cached> {
    entries.map_values(|e: Entry| (e.key@, outside::contents(e.data)))
}

pub struct LruByteCache {
    /// From the least to the most recently used.
    entries: Vec<Entry>,
    used_bytes: u64,
    budget_bytes: u64,
    evictions: u64,
}

impl View for LruByteCache {
    type V = CacheView;

    closed spec fn view(&self) -> CacheView {
        CacheView {
            entries: cached(self.entries@),
            budget_bytes: self.budget_bytes,
            evictions: self.evictions,
        }
    }
}

proof fn lemma_used_joins(a: Seq<Cached>, b: Seq<Cached>)
    ensures
        used(a + b) == used(a) + used(b),
    decreases a.len(),
{
    if a.len() == 0 {
        assert(a + b =~= b);
    } else {
        lemma_used_joins(a.drop_first(), b);
        assert((a + b).drop_first() =~= a.drop_first() + b);
    }
}

proof fn lemma_used_push(a: Seq<Cached>, e: Cached)
    ensures
        used(a.push(e)) == used(a) + e.1.len(),
{
    let one = seq![e];
    assert(one.drop_first() =~= Seq::<Cached>::empty());
    assert(used(one) == e.1.len() + used(one.drop_first()));
    assert(a.push(e) =~= a + one);
    lemma_used_joins(a, one);
}

proof fn lemma_used_remove(a: Seq<Cached>, i: int)
    requires
        0 <= i < a.len(),
    ensures
        used(a.remove(i)) + a[i].1.len() == used(a),
{
    let left = a.take(i);
    let right = a.skip(i + 1);
    assert(a.remove(i) =~= left + right);
    assert(a =~= left.push(a[i]) + right);
    lemma_used_joins(left, right);
    lemma_used_joins(left.push(a[i]), right);
    lemma_used_push(left, a[i]);
}

/// What `position` finds is the key, and without a find the key is not there.
proof fn lemma_position(entries: Seq<Cached>, key: Seq<char>)
    ensures
        match position(entries, key) {
            Some(i) => 0 <= i < entries.len() && entries[i].0 == key && forall|j: int|
                i < j < entries.len() ==> entries[j].0 != key,
            None => forall|j: int| 0 <= j < entries.len() ==> entries[j].0 != key,
        },
    decreases entries.len(),
{
    if entries.len() > 0 && entries.last().0 != key {
        lemma_position(entries.drop_last(), key);
        assert forall|j: int| 0 <= j < entries.len() - 1 implies entries[j]
            == entries.drop_last()[j] by {}
    }
}

/// What is kept is the more recently used end of the objects.
proof fn lemma_evicted(entries: Seq<Cached>, room: nat)
    ensures
        evicted(entries, room).len() <= entries.len(),
        evicted(entries, room) == entries.skip(entries.len() - evicted(entries, room).len()),
        used(evicted(entries, room)) <= room,
    decreases entries.len(),
{
    if entries.len() > 0 && used(entries) > room {
        lemma_evicted(entries.drop_first(), room);
        let kept = evicted(entries, room);
        assert(entries.skip(entries.len() - kept.len()) =~= entries.drop_first().skip(
            entries.drop_first().len() - kept.len(),
        ));
    } else {
        assert(entries.skip(0) =~= entries);
    }
}

impl LruByteCache {
    /// The objects keep to the budget, and the bytes in use are counted.
    pub closed spec fn wf(self) -> bool {
        self@.consistent() && self.used_bytes == used(self@.entries)
    }

    /// What well-formedness says about the contents.
    pub proof fn lemma_wf(&self)
        requires
            self.wf(),
        ensures
            self@.consistent(),
    {
    }

    pub fn new(budget_bytes: u64) -> (out: Self)
        ensures
            out.wf(),
            out@ == (CacheView { entries: Seq::empty(), budget_bytes, evictions: 0 }),
    {
        let out = LruByteCache { entries: Vec::new(), used_bytes: 0, budget_bytes, evictions: 0 };
        assert(out@.entries =~= Seq::<Cached>::empty());
        out
    }

    fn find(&self, key: &str) -> (out: Option<usize>)
        ensures
            match out {
                Some(i) => position(self@.entries, key@) == Some(i as int) && i
                    < self.entries@.len(),
                None => position(self@.entries, key@) is None,
            },
    {
        let ghost all = cached(self.entries@);
        let mut left: usize = self.entries.len();
        assert(all.take(left as int) =~= all);
        while left > 0
            invariant
                left <= self.entries@.len(),
                all == cached(self.entries@),
                position(all, key@) == position(all.take(left as int), key@),
            decreases left,
        {
            assert(all.take(left as int).last() == all[left - 1]);
            assert(all.take(left as int).drop_last() =~= all.take(left - 1));
            if text::same(self.entries[left - 1].key.as_str(), key) {
                return Some(left - 1);
            }
            left = left - 1;
        }
        None
    }

    /// The object under a key, which becomes the most recently used.
    pub fn get(&mut self, key: &str) -> (out: Option<Bytes>)
        requires
            old(self).wf(),
        ensures
            final(self).wf(),
            final(self)@ == old(self)@.get(key@).0,
            match out {
                Some(data) => old(self)@.get(key@).1 == Some(outside::contents(data)),
                None => old(self)@.get(key@).1 is None,
            },
    {
        match self.find(key) {
            None => None,
            Some(i) => {
                let ghost before = self@.entries;
                let entry: Entry = self.entries.remove(i);
                let data: Bytes = outside::bytes_clone(&entry.data);
                self.entries.push(entry);
                proof {
                    assert(self@.entries =~= before.remove(i as int).push(before[i as int]));
                    lemma_used_remove(before, i as int);
                    lemma_used_push(before.remove(i as int), before[i as int]);
                    lemma_position(before, key@);
                    lemma_move_keeps_keys_apart(before, i as int);
                }
                Some(data)
            },
        }
    }

    pub fn contains(&self, key: &str) -> (out: bool)
        ensures
            out == self@.has(key@),
    {
        self.find(key).is_some()
    }

    /// Puts an object in the cache, evicting the least recently used ones until
    /// it fits. Objects larger than the whole budget are never cached.
    pub fn insert(&mut self, key: &str, data: Bytes)
        requires
            old(self).wf(),
        ensures
            final(self).wf(),
            final(self)@ == old(self)@.inserted(key@, outside::contents(data)),
    {
        let ghost start = self@;
        let ghost contents = outside::contents(data);
        let size: u64 = outside::bytes_len(&data) as u64;
        if size > self.budget_bytes {
            return;
        }
        let room: u64 = self.budget_bytes - size;
        if let Some(i) = self.find(key) {
            proof {
                lemma_position(start.entries, key@);
                lemma_used_remove(start.entries, i as int);
            }
            let old_entry: Entry = self.entries.remove(i);
            assert(self@.entries =~= start.entries.remove(i as int));
            self.used_bytes = self.used_bytes - outside::bytes_len(&old_entry.data) as u64;
        }
        let ghost others = self@.entries;
        proof {
            assert(others == without(start.entries, key@));
            lemma_without(start.entries, key@);
        }
        // Evict LRU entries until the new object fits.
        while self.entries.len() > 0 && self.used_bytes > room
            invariant
                self.used_bytes == used(self@.entries),
                self.budget_bytes == start.budget_bytes,
                evicted(self@.entries, room as nat) == evicted(others, room as nat),
                self@.entries.len() <= others.len(),
                self@.entries == others.skip(others.len() - self@.entries.len()),
                self.evictions == (start.evictions + (others.len() - self@.entries.len()))
                    % 0x1_0000_0000_0000_0000,
            decreases self.entries@.len(),
        {
            let ghost was = self@.entries;
            let entry: Entry = self.entries.remove(0);
            assert(self@.entries =~= was.drop_first());
            assert(self@.entries =~= others.skip(others.len() - self@.entries.len()));
            self.used_bytes = self.used_bytes - outside::bytes_len(&entry.data) as u64;
            self.evictions = self.evictions.wrapping_add(1);
        }
        let ghost kept = self@.entries;
        proof {
            lemma_used_push(kept, (key@, contents));
            if kept.len() == 0 {
                assert(used(kept) == 0);
            }
            assert(kept == evicted(others, room as nat));
        }
        self.used_bytes = self.used_bytes + size;
        self.entries.push(Entry { key: key.to_owned(), data });
        assert(self@.entries =~= kept.push((key@, contents)));
    }

    pub fn used_bytes(&self) -> (out: u64)
        requires
            self.wf(),
        ensures
            out == used(self@.entries),
    {
        self.used_bytes
    }

    /// How many objects were evicted, modulo 2^64.
    pub fn evictions(&self) -> (out: u64)
        ensures
            out == self@.evictions,
    {
        self.evictions
    }
}

proof fn lemma_move_keeps_keys_apart(entries: Seq<Cached>, i: int)
    requires
        0 <= i < entries.len(),
        forall|a: int, b: int| 0 <= a < b < entries.len() ==> entries[a].0 != entries[b].0,
    ensures
        ({
            let moved = entries.remove(i).push(entries[i]);
            forall|a: int, b: int| 0 <= a < b < moved.len() ==> moved[a].0 != moved[b].0
        }),
{
    let moved = entries.remove(i).push(entries[i]);
    let was = |k: int|
        if k == moved.len() - 1 {
            i
        } else if k < i {
            k
        } else {
            k + 1
        };
    assert forall|a: int, b: int| 0 <= a < b < moved.len() implies moved[a].0 != moved[b].0 by {
        assert(moved[a] == entries[was(a)] && moved[b] == entries[was(b)]);
        assert(was(a) != was(b));
        if was(a) < was(b) {
            assert(entries[was(a)].0 != entries[was(b)].0);
        } else {
            assert(entries[was(b)].0 != entries[was(a)].0);
        }
    }
}

/// Without a key the others stay, in order, and the key is gone.
proof fn lemma_without(entries: Seq<Cached>, key: Seq<char>)
    requires
        forall|a: int, b: int| 0 <= a < b < entries.len() ==> entries[a].0 != entries[b].0,
    ensures
        forall|a: int, b: int|
            0 <= a < b < without(entries, key).len() ==> without(entries, key)[a].0 != without(
                entries,
                key,
            )[b].0,
        forall|a: int|
            0 <= a < without(entries, key).len() ==> (#[trigger] without(entries, key)[a]).0 != key,
{
    lemma_position(entries, key);
    let rest = without(entries, key);
    if let Some(i) = position(entries, key) {
        assert forall|a: int| 0 <= a < rest.len() implies (#[trigger] rest[a]).0 != key && rest[a]
            == entries[if a < i { a } else { a + 1 }] by {
            if a < i {
                assert(entries[a].0 != entries[i].0);
            } else {
                assert(entries[i].0 != entries[a + 1].0);
            }
        }
    }
}

/// A cached object is found again, as it was put in.
pub proof fn cached_object_is_found(cache: CacheView, key: Seq<char>, data: Seq<u8>)
    requires
        cache.consistent(),
        data.len() <= cache.budget_bytes,
    ensures
        cache.inserted(key, data).get(key).1 == Some(data),
{
    let entries = cache.inserted(key, data).entries;
    assert(entries.last() == (key, data));
}

/// An object larger than the whole budget leaves the cache as it is.
pub proof fn oversized_object_is_ignored(cache: CacheView, key: Seq<char>, data: Seq<u8>)
    requires
        data.len() > cache.budget_bytes,
    ensures
        cache.inserted(key, data) == cache,
{
}

/// Whatever is done to a cache, its keys stay apart and its objects keep to the
/// budget.
pub proof fn budget_is_never_exceeded(cache: CacheView, key: Seq<char>, data: Seq<u8>)
    requires
        cache.consistent(),
    ensures
        cache.get(key).0.consistent(),
        cache.inserted(key, data).consistent(),
        used(cache.get(key).0.entries) == used(cache.entries),
{
    lemma_position(cache.entries, key);
    if let Some(i) = position(cache.entries, key) {
        lemma_used_remove(cache.entries, i);
        lemma_used_push(cache.entries.remove(i), cache.entries[i]);
        lemma_move_keeps_keys_apart(cache.entries, i);
    }
    if data.len() <= cache.budget_bytes {
        lemma_without(cache.entries, key);
        let others = without(cache.entries, key);
        let room = (cache.budget_bytes - data.len()) as nat;
        lemma_evicted(others, room);
        let kept = evicted(others, room);
        lemma_used_push(kept, (key, data));
        let gone = others.len() - kept.len();
        let after = cache.inserted(key, data).entries;
        assert forall|a: int, b: int| 0 <= a < b < after.len() implies after[a].0
            != after[b].0 by {
            assert(after[a] == others[gone + a]);
            if b < kept.len() {
                assert(after[b] == others[gone + b]);
            }
        }
    }
}

/// Eviction takes the least recently used objects, and no more of them than it
/// has to: what is kept is an end of the order of use, and with one object more
/// it would not fit.
pub proof fn eviction_goes_by_use(entries: Seq<Cached>, room: nat)
    ensures
        ({
            let kept = evicted(entries, room);
            let gone = entries.len() - kept.len();
            &&& 0 <= gone
            &&& kept == entries.skip(gone)
            &&& used(kept) <= room
            &&& gone > 0 ==> used(entries.skip(gone - 1)) > room
        }),
    decreases entries.len(),
{
    lemma_evicted(entries, room);
    if entries.len() > 0 && used(entries) > room {
        let rest = entries.drop_first();
        eviction_goes_by_use(rest, room);
        let kept = evicted(entries, room);
        let gone = entries.len() - kept.len();
        if gone == 1 {
            assert(entries.skip(0) =~= entries);
        } else {
            assert(entries.skip(gone - 1) =~= rest.skip(gone - 2));
        }
    }
}

/// Reading an object makes it the last to be evicted, and changes no contents.
pub proof fn reading_makes_most_recent(cache: CacheView, key: Seq<char>)
    requires
        cache.consistent(),
        cache.has(key),
    ensures
        cache.get(key).0.entries.last().0 == key,
        cache.get(key).0.entries.to_multiset() == cache.entries.to_multiset(),
        cache.get(key).0.get(key).1 == cache.get(key).1,
{
    broadcast use vstd::seq_lib::group_to_multiset_ensures;

    lemma_position(cache.entries, key);
    let i = position(cache.entries, key)->0;
    assert(cache.entries.contains(cache.entries[i]));
    assert(cache.get(key).0.entries.to_multiset() =~= cache.entries.to_multiset());
}

/// The bytes in use are those of the objects, added up one by one.
pub proof fn objects_use_their_length(entries: Seq<Cached>, key: Seq<char>, data: Seq<u8>)
    ensures
        used(Seq::<Cached>::empty()) == 0,
        used(entries.push((key, data))) == used(entries) + data.len(),
{
    lemma_used_push(entries, (key, data));
}

/// A read finds an object exactly if it was put in under that key and hands it out
/// whole. The object is then the most recently used one; the others keep their
/// order, and nothing else changes.
pub proof fn a_read_finds_what_is_cached(cache: CacheView, key: Seq<char>, i: int)
    requires
        cache.consistent(),
    ensures
        0 <= i < cache.entries.len() && cache.entries[i].0 == key ==> {
            let (after, out) = cache.get(key);
            &&& cache.has(key)
            &&& out == Some(cache.entries[i].1)
            &&& after.entries == cache.entries.remove(i).push(cache.entries[i])
            &&& after.budget_bytes == cache.budget_bytes
            &&& after.evictions == cache.evictions
        },
        (forall|j: int| 0 <= j < cache.entries.len() ==> (#[trigger] cache.entries[j]).0 != key)
            ==> !cache.has(key) && cache.get(key) == (cache, None::<Seq<u8>>),
{
    lemma_position(cache.entries, key);
}

/// An object that fits the budget is put in as the most recently used one, in place
/// of what the key held. Of the others those used longest ago make room, as many as
/// must and no more; each of them is counted.
pub proof fn an_insert_evicts_what_it_must(
    cache: CacheView,
    key: Seq<char>,
    data: Seq<u8>,
    i: int,
)
    requires
        cache.consistent(),
        data.len() <= cache.budget_bytes,
        -1 <= i < cache.entries.len(),
        i >= 0 ==> cache.entries[i].0 == key,
        i == -1 ==> forall|j: int|
            0 <= j < cache.entries.len() ==> (#[trigger] cache.entries[j]).0 != key,
    ensures
        ({
            let after = cache.inserted(key, data);
            let others = if i == -1 {
                cache.entries
            } else {
                cache.entries.remove(i)
            };
            let gone = others.len() - (after.entries.len() - 1);
            &&& after.entries.len() > 0
            &&& after.entries.last() == (key, data)
            &&& gone >= 0
            &&& after.entries.drop_last() == others.skip(gone)
            &&& used(after.entries) <= cache.budget_bytes
            &&& gone > 0 ==> used(others.skip(gone - 1)) + data.len() > cache.budget_bytes
            &&& after.evictions == (cache.evictions + gone) % 0x1_0000_0000_0000_0000
            &&& after.budget_bytes == cache.budget_bytes
        }),
{
    lemma_position(cache.entries, key);
    let others = without(cache.entries, key);
    let room = (cache.budget_bytes - data.len()) as nat;
    eviction_goes_by_use(others, room);
    let kept = evicted(others, room);
    lemma_used_push(kept, (key, data));
    let after = cache.inserted(key, data);
    assert(after.entries.drop_last() =~= kept);
}

} // verus!
