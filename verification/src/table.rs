//! A table from text keys to values, kept in the order of insertion.

use crate::text;
use vstd::prelude::*;

verus! {

/// A table from text keys to values in which no key occurs twice.
pub struct Table<V> {
    entries: Vec<(String, V)>,
}

impl<V: View> View for Table<V> {
    type V = Map<Seq<char>, V::V>;

    closed spec fn view(&self) -> Map<Seq<char>, V::V> {
        Map::new(
            |k: Seq<char>| self.keys().contains(k),
            |k: Seq<char>| self.entries@[self.keys().index_of(k)].1@,
        )
    }
}

impl<V: View> Table<V> {
    /// The keys in the order in which the table holds them.
    pub closed spec fn keys(self) -> Seq<Seq<char>> {
        self.entries@.map_values(|e: (String, V)| e.0@)
    }

    /// No key occurs twice.
    pub closed spec fn wf(self) -> bool {
        self.keys().no_duplicates()
    }

    /// The keys are those that the table maps.
    pub proof fn lemma_keys(&self)
        requires
            self.wf(),
        ensures
            self.keys().no_duplicates(),
            self.keys().to_set() == self@.dom(),
            self@.dom().finite(),
            self@.len() == self.keys().len(),
    {
        assert(self.keys().to_set() =~= self@.dom());
        self.keys().unique_seq_to_set();
    }

    proof fn lemma_at(&self, i: int)
        requires
            self.wf(),
            0 <= i < self.entries@.len(),
        ensures
            self@.contains_key(self.entries@[i].0@),
            self@[self.entries@[i].0@] == self.entries@[i].1@,
            self.keys()[i] == self.entries@[i].0@,
    {
        let k = self.keys()[i];
        assert(self.keys().contains(k));
        let j = self.keys().index_of(k);
        assert(self.keys()[j] == k);
        assert(i == j);
    }

    pub fn new() -> (out: Self)
        ensures
            out.wf(),
            out@ == Map::<Seq<char>, V::V>::empty(),
            out.keys() == Seq::<Seq<char>>::empty(),
    {
        let out = Table { entries: Vec::new() };
        assert(out.keys() =~= Seq::<Seq<char>>::empty());
        assert(out@ =~= Map::<Seq<char>, V::V>::empty());
        out
    }

    /// How many keys the table maps.
    pub fn len(&self) -> (out: usize)
        requires
            self.wf(),
        ensures
            out == self@.len(),
            out == self.keys().len(),
    {
        proof {
            self.lemma_keys();
        }
        self.entries.len()
    }

    fn position(&self, key: &str) -> (out: Option<usize>)
        requires
            self.wf(),
        ensures
            match out {
                Some(i) => i < self.entries@.len() && self.entries@[i as int].0@ == key@
                    && self@.contains_key(key@) && self@[key@] == self.entries@[i as int].1@,
                None => !self@.contains_key(key@),
            },
    {
        let mut i: usize = 0;
        while i < self.entries.len()
            invariant
                self.wf(),
                i <= self.entries.len(),
                forall|j: int| 0 <= j < i ==> self.entries@[j].0@ != key@,
            decreases self.entries.len() - i,
        {
            if text::same(self.entries[i].0.as_str(), key) {
                proof {
                    self.lemma_at(i as int);
                }
                return Some(i);
            }
            i = i + 1;
        }
        assert(!self.keys().contains(key@)) by {
            if self.keys().contains(key@) {
                let j = self.keys().index_of(key@);
                assert(self.keys()[j] == self.entries@[j].0@);
            }
        }
        None
    }

    /// Whether the table maps `key`.
    pub fn contains(&self, key: &str) -> (out: bool)
        requires
            self.wf(),
        ensures
            out == self@.contains_key(key@),
    {
        self.position(key).is_some()
    }

    /// The value under `key`.
    pub fn get(&self, key: &str) -> (out: Option<&V>)
        requires
            self.wf(),
        ensures
            match out {
                Some(v) => self@.contains_key(key@) && v@ == self@[key@],
                None => !self@.contains_key(key@),
            },
    {
        match self.position(key) {
            Some(i) => Some(&self.entries[i].1),
            None => None,
        }
    }

    /// The `i`-th key.
    pub fn key_at(&self, i: usize) -> (out: &String)
        requires
            self.wf(),
            i < self.keys().len(),
        ensures
            out@ == self.keys()[i as int],
            self@.contains_key(out@),
    {
        proof {
            self.lemma_at(i as int);
        }
        &self.entries[i].0
    }

    /// The value under the `i`-th key.
    pub fn value_at(&self, i: usize) -> (out: &V)
        requires
            self.wf(),
            i < self.keys().len(),
        ensures
            self@.contains_key(self.keys()[i as int]),
            out@ == self@[self.keys()[i as int]],
    {
        proof {
            self.lemma_at(i as int);
        }
        &self.entries[i].1
    }

    /// Maps `key` to `value`, whether or not it was mapped before.
    pub fn put(&mut self, key: String, value: V)
        requires
            old(self).wf(),
        ensures
            final(self).wf(),
            final(self)@ == old(self)@.insert(key@, value@),
    {
        match self.position(key.as_str()) {
            Some(i) => {
                let ghost before = *self;
                self.entries.set(i, (key, value));
                proof {
                    assert(self.keys() =~= before.keys());
                    assert forall|k: Seq<char>| self@.contains_key(k) implies #[trigger] self@[k]
                        == before@.insert(key@, value@)[k] by {
                        let j = self.keys().index_of(k);
                        self.lemma_at(j);
                        before.lemma_at(j);
                        before.lemma_at(i as int);
                        if j != i {
                            assert(self.keys()[j] != self.keys()[i as int]);
                        }
                    }
                    before.lemma_at(i as int);
                    assert(self@ =~= before@.insert(key@, value@));
                }
            },
            None => {
                let ghost before = *self;
                self.entries.push((key, value));
                proof {
                    assert(self.keys() =~= before.keys().push(key@));
                    assert(self.wf()) by {
                        assert forall|a: int, b: int|
                            0 <= a < self.keys().len() && 0 <= b < self.keys().len() && a
                                != b implies self.keys()[a] != self.keys()[b] by {
                            if a == before.keys().len() {
                                assert(before.keys().contains(before.keys()[b]));
                            } else if b == before.keys().len() {
                                assert(before.keys().contains(before.keys()[a]));
                            }
                        }
                    }
                    assert forall|k: Seq<char>|
                        self.keys().contains(k) == (k == key@ || before.keys().contains(k)) by {
                        if before.keys().contains(k) {
                            let j = before.keys().index_of(k);
                            assert(self.keys()[j] == k);
                        }
                        assert(self.keys()[before.keys().len() as int] == key@);
                    }
                    assert forall|k: Seq<char>| self@.contains_key(k) implies #[trigger] self@[k]
                        == before@.insert(key@, value@)[k] by {
                        let j = self.keys().index_of(k);
                        self.lemma_at(j);
                        if j < before.keys().len() {
                            before.lemma_at(j);
                            assert(before.keys().contains(k));
                        }
                    }
                    assert(self@ =~= before@.insert(key@, value@));
                }
            },
        }
    }

    /// Removes `key`, handing out what it was mapped to.
    pub fn take(&mut self, key: &str) -> (out: Option<V>)
        requires
            old(self).wf(),
        ensures
            final(self).wf(),
            final(self)@ == old(self)@.remove(key@),
            match out {
                Some(v) => old(self)@.contains_key(key@) && v@ == old(self)@[key@],
                None => !old(self)@.contains_key(key@),
            },
    {
        match self.position(key) {
            Some(i) => {
                let ghost before = *self;
                let (_, value) = self.entries.remove(i);
                proof {
                    before.lemma_at(i as int);
                    assert(self.keys() =~= before.keys().remove(i as int));
                    assert forall|j: int|
                        0 <= j < self.keys().len() implies #[trigger] self.keys()[j]
                        == before.keys()[if j < i { j } else { j + 1 }] by {}
                    assert forall|k: Seq<char>|
                        self.keys().contains(k) == (k != key@ && before.keys().contains(k)) by {
                        if before.keys().contains(k) && k != key@ {
                            let j = before.keys().index_of(k);
                            let at = if j < i { j } else { j - 1 };
                            assert(self.keys()[at] == k);
                        }
                        if self.keys().contains(k) {
                            let j = self.keys().index_of(k);
                            let at = if j < i { j } else { j + 1 };
                            assert(before.keys()[at] == k);
                            assert(before.keys()[i as int] == key@);
                        }
                    }
                    assert forall|k: Seq<char>| self@.contains_key(k) implies #[trigger] self@[k]
                        == before@.remove(key@)[k] by {
                        let j = self.keys().index_of(k);
                        self.lemma_at(j);
                        before.lemma_at(if j < i { j } else { j + 1 });
                    }
                    assert(self@ =~= before@.remove(key@));
                }
                Some(value)
            },
            None => {
                assert(self@ =~= old(self)@.remove(key@));
                None
            },
        }
    }
}

/// Views of the identifiers in `ids`, as a set.
pub open spec fn named(ids: Seq<String>) -> Set<Seq<char>> {
    Set::new(|id: Seq<char>| exists|i: int| 0 <= i < ids.len() && #[trigger] ids[i]@ == id)
}

/// One identifier more names what the earlier ones name and its own.
pub proof fn lemma_named_grows(ids: Seq<String>, i: int)
    requires
        0 <= i < ids.len(),
    ensures
        named(ids.take(i + 1)) == named(ids.take(i)).insert(ids[i]@),
        (forall|j: int, k: int| 0 <= j < k < ids.len() ==> ids[j]@ != ids[k]@) ==> !named(
            ids.take(i),
        ).contains(ids[i]@),
{
    let so_far = named(ids.take(i));
    let id = ids[i]@;
    assert forall|other: Seq<char>|
        named(ids.take(i + 1)).contains(other) == so_far.insert(id).contains(other) by {
        if so_far.contains(other) {
            let j = choose|j: int|
                0 <= j < ids.take(i).len() && #[trigger] ids.take(i)[j]@ == other;
            assert(ids.take(i + 1)[j]@ == other);
        }
        assert(ids.take(i + 1)[i]@ == id);
        if named(ids.take(i + 1)).contains(other) && other != id {
            let j = choose|j: int|
                0 <= j < ids.take(i + 1).len() && #[trigger] ids.take(i + 1)[j]@ == other;
            assert(ids.take(i)[j]@ == other);
        }
    }
    assert(named(ids.take(i + 1)) =~= so_far.insert(id));
    if so_far.contains(id) {
        let j = choose|j: int| 0 <= j < ids.take(i).len() && #[trigger] ids.take(i)[j]@ == id;
        assert(ids[j]@ == id);
    }
}

/// Walking the keys and picking those in `wanted` keeps the picks apart.
pub proof fn lemma_picked(
    keys: Seq<Seq<char>>,
    earlier: Seq<String>,
    later: Seq<String>,
    i: int,
    wanted: Set<Seq<char>>,
)
    requires
        0 <= i < keys.len(),
        keys.no_duplicates(),
        if wanted.contains(keys[i]) {
            later.len() == earlier.len() + 1 && later.drop_last() == earlier && later.last()@
                == keys[i]
        } else {
            later == earlier
        },
        forall|j: int, k: int| 0 <= j < k < earlier.len() ==> earlier[j]@ != earlier[k]@,
        forall|j: int|
            0 <= j < earlier.len() ==> wanted.contains(#[trigger] earlier[j]@) && keys.take(
                i,
            ).contains(earlier[j]@),
        forall|k: int|
            0 <= k < i && wanted.contains(#[trigger] keys[k]) ==> named(earlier).contains(keys[k]),
    ensures
        forall|j: int, k: int| 0 <= j < k < later.len() ==> later[j]@ != later[k]@,
        forall|j: int|
            0 <= j < later.len() ==> wanted.contains(#[trigger] later[j]@) && keys.take(
                i + 1,
            ).contains(later[j]@),
        forall|k: int|
            0 <= k < i + 1 && wanted.contains(#[trigger] keys[k]) ==> named(later).contains(keys[k]),
{
    assert forall|id: Seq<char>| keys.take(i).contains(id) implies keys.take(i + 1).contains(id)
        && id != keys[i] by {
        let k = keys.take(i).index_of(id);
        assert(keys.take(i)[k] == keys[k]);
        assert(keys.take(i + 1)[k] == keys[k]);
    }
    assert(keys.take(i + 1)[i] == keys[i]);
    assert forall|j: int| 0 <= j < later.len() implies wanted.contains(#[trigger] later[j]@)
        && keys.take(i + 1).contains(later[j]@) by {
        if j < earlier.len() {
            assert(later[j] == earlier[j]);
        }
    }
    assert forall|j: int, k: int| 0 <= j < k < later.len() implies later[j]@ != later[k]@ by {
        assert(later[j] == earlier[j]);
        if k < earlier.len() {
            assert(later[k] == earlier[k]);
        }
    }
    assert forall|k: int| 0 <= k < i + 1 && wanted.contains(#[trigger] keys[k]) implies named(
        later,
    ).contains(keys[k]) by {
        if k < i {
            let j = choose|j: int| 0 <= j < earlier.len() && #[trigger] earlier[j]@ == keys[k];
            assert(later[j]@ == keys[k]);
        } else {
            assert(later[later.len() - 1]@ == keys[i]);
        }
    }
}

} // verus!
