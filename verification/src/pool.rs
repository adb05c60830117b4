//! Pools of shard indices.

use std::collections::BTreeSet;
use vstd::prelude::*;

verus! {

broadcast use {vstd::std_specs::btree::group_btree_axioms, vstd::laws_cmp::group_laws_cmp};

/// The indices of `num_shards` shards.
pub open spec fn all_shards(num_shards: u32) -> Set<u32> {
    Set::new(|shard: u32| shard < num_shards)
}

/// The indices from `begin` up to, without, `end`.
pub open spec fn span(begin: int, end: int) -> Set<u32> {
    Set::new(|shard: u32| begin <= shard < end)
}

/// `shard` is the smallest index in `pool`.
pub open spec fn is_least(pool: Set<u32>, shard: u32) -> bool {
    pool.contains(shard) && forall|other: u32| pool.contains(other) ==> shard <= other
}

/// A pool with every one of `num_shards` shards in it.
pub fn full_pool(num_shards: u32) -> (out: BTreeSet<u32>)
    ensures
        out@ == all_shards(num_shards),
{
    let mut out: BTreeSet<u32> = BTreeSet::new();
    add_span(&mut out, 0, num_shards);
    assert(out@ =~= all_shards(num_shards));
    out
}

/// Puts the indices from `begin` up to, without, `end` into the pool.
pub fn add_span(pool: &mut BTreeSet<u32>, begin: u32, end: u32)
    ensures
        final(pool)@ == old(pool)@.union(span(begin as int, end as int)),
{
    let mut shard: u32 = begin;
    assert(pool@ =~= old(pool)@.union(span(begin as int, shard as int)));
    while shard < end
        invariant
            begin <= shard,
            shard <= end || shard == begin,
            pool@ == old(pool)@.union(span(begin as int, shard as int)),
        decreases end - shard,
    {
        pool.insert(shard);
        shard = shard + 1;
        assert(pool@ =~= old(pool)@.union(span(begin as int, shard as int)));
    }
    assert(pool@ =~= old(pool)@.union(span(begin as int, end as int)));
}

/// Takes the indices from `begin` up to, without, `end` out of the pool.
pub fn remove_span(pool: &mut BTreeSet<u32>, begin: u32, end: u32)
    ensures
        final(pool)@ == old(pool)@.difference(span(begin as int, end as int)),
{
    let mut shard: u32 = begin;
    assert(pool@ =~= old(pool)@.difference(span(begin as int, shard as int)));
    while shard < end
        invariant
            begin <= shard,
            shard <= end || shard == begin,
            pool@ == old(pool)@.difference(span(begin as int, shard as int)),
        decreases end - shard,
    {
        pool.remove(&shard);
        shard = shard + 1;
        assert(pool@ =~= old(pool)@.difference(span(begin as int, shard as int)));
    }
    assert(pool@ =~= old(pool)@.difference(span(begin as int, end as int)));
}

/// The smallest index in the pool.
pub fn least_in(pool: &BTreeSet<u32>) -> (out: Option<u32>)
    ensures
        match out {
            Some(shard) => is_least(pool@, shard),
            None => pool@ == Set::<u32>::empty(),
        },
{
    for shard in it: pool.iter()
        invariant
            it.index() == 0,
            it.seq().unref().to_set() == pool@,
            vstd::std_specs::btree::increasing_seq(it.seq()),
    {
        proof {
            let items = it.seq();
            assert(items.unref()[0] == *shard);
            assert forall|other: u32| pool@.contains(other) implies *shard <= other by {
                assert(items.unref().to_set().contains(other));
                let j = items.unref().index_of(other);
                assert(items.unref()[j] == other);
                assert(*items[j] == other);
                assert(vstd::laws_cmp::obeys_cmp::<&u32>());
                if j > 0 {
                    assert(vstd::std_specs::cmp::OrdSpec::cmp_spec(&items[0], &items[j]) is Less);
                }
            }
        }
        return Some(*shard);
    }
    assert(pool@ =~= Set::<u32>::empty());
    None
}

} // verus!
