//! Shard leasing: TTL-bound, renewable assignment of shard ranges to workers.
//!
//! Each (dataset, epoch) owns a pool of shard indices. Workers draw contiguous
//! ranges from the pool; expired leases return their shards for reassignment,
//! which is what makes worker failure survivable without restarting the epoch.

use crate::clock;
use crate::clock::Clock;
use crate::error;
use crate::error::DtrError;
use crate::error::ErrorView;
use crate::hash;
use crate::outside;
use crate::pool;
use crate::table;
use crate::table::Table;
use crate::text;
use crate::types::DatasetId;
use crate::types::LeaseId;
use crate::types::ShardRange;
use crate::types::WorkerId;
use std::collections::BTreeSet;
use std::collections::HashMap;
use vstd::prelude::*;

verus! {

broadcast use {vstd::std_specs::btree::group_btree_axioms, vstd::std_specs::hash::group_hash_axioms};

/// One TTL-bound grant of a shard range to a worker.
#[derive(Debug)]
pub struct ShardLease {
    pub lease_id: LeaseId,
    pub worker_id: WorkerId,
    pub dataset_id: DatasetId,
    pub epoch: u64,
    pub shards: ShardRange,
    /// When the lease lapses, in nanoseconds on the manager's clock.
    pub expires_at: u128,
}

/// A [`ShardLease`] with its identifiers as character sequences.
#[verifier::ext_equal]
pub struct LeaseView {
    pub lease_id: Seq<char>,
    pub worker_id: Seq<char>,
    pub dataset_id: Seq<char>,
    pub epoch: u64,
    pub shards: ShardRange,
    pub expires_at: nat,
}

impl View for ShardLease {
    type V = LeaseView;

    open spec fn view(&self) -> LeaseView {
        LeaseView {
            lease_id: self.lease_id@,
            worker_id: self.worker_id@,
            dataset_id: self.dataset_id@,
            epoch: self.epoch,
            shards: self.shards,
            expires_at: self.expires_at as nat,
        }
    }
}

impl Clone for ShardLease {
    fn clone(&self) -> (out: Self)
        ensures
            out@ == self@,
    {
        ShardLease {
            lease_id: self.lease_id.clone(),
            worker_id: self.worker_id.clone(),
            dataset_id: self.dataset_id.clone(),
            epoch: self.epoch,
            shards: self.shards,
            expires_at: self.expires_at,
        }
    }
}

struct DatasetState {
    num_shards: u32,
    /// Pool of unassigned shard indices per epoch. Populated lazily on first
    /// acquire for that epoch.
    pools: HashMap<u64, BTreeSet<u32>>,
}

/// A registered dataset: how many shards it has, and which of them are
/// unassigned in every epoch that was asked for.
#[verifier::ext_equal]
pub struct DatasetView {
    pub num_shards: u32,
    pub pools: Map<u64, Set<u32>>,
}

impl View for DatasetState {
    type V = DatasetView;

    closed spec fn view(&self) -> DatasetView {
        DatasetView {
            num_shards: self.num_shards,
            pools: self.pools@.map_values(|p: BTreeSet<u32>| p@),
        }
    }
}

/// What a lease manager knows.
#[verifier::ext_equal]
pub struct LeaseState {
    pub datasets: Map<Seq<char>, DatasetView>,
    pub leases: Map<Seq<char>, LeaseView>,
    pub ttl_ms: u64,
    pub default_shards: u32,
}

/// The handle of the dataset at `uri`.
pub open spec fn dataset_handle(uri: Seq<char>) -> Seq<char> {
    "ds-"@ + text::hex_fixed(hash::fnv1a(vstd::utf8::encode_utf8(uri)) as nat, 16)
}

/// The smallest index in a pool.
pub open spec fn least(pool: Set<u32>) -> u32 {
    choose|shard: u32| pool::is_least(pool, shard)
}

/// Where the run of indices in `pool` that starts at `from` ends, at `limit` at
/// the latest.
pub open spec fn run_end(pool: Set<u32>, from: int, limit: int) -> int
    decreases limit - from,
{
    if from < limit && 0 <= from <= u32::MAX && pool.contains(from as u32) {
        run_end(pool, from + 1, limit)
    } else {
        from
    }
}

/// The longest contiguous run at the start of a pool, `want` shards at most.
pub open spec fn grant(pool: Set<u32>, want: u32) -> ShardRange {
    let start = least(pool);
    ShardRange { begin: start, end: run_end(pool, start as int, start + want) as u32 }
}

impl LeaseState {
    /// The dataset is registered and the epoch's pool exists.
    pub open spec fn has_pool(self, dataset: Seq<char>, epoch: u64) -> bool {
        self.datasets.contains_key(dataset) && self.datasets[dataset].pools.contains_key(epoch)
    }

    /// The unassigned shards of an epoch.
    pub open spec fn pool(self, dataset: Seq<char>, epoch: u64) -> Set<u32> {
        self.datasets[dataset].pools[epoch]
    }

    /// The lease `id` covers the shard.
    pub open spec fn owns(self, id: Seq<char>, dataset: Seq<char>, epoch: u64, shard: u32) -> bool {
        &&& self.leases.contains_key(id)
        &&& self.leases[id].dataset_id == dataset
        &&& self.leases[id].epoch == epoch
        &&& self.leases[id].shards.shards().contains(shard)
    }

    /// Every lease covers a shard, no shard belongs to two leases, none is leased
    /// and in the pool at once, and all lie within their dataset.
    pub open spec fn consistent(self) -> bool {
        &&& self.default_shards >= 1
        &&& forall|id: Seq<char>| #[trigger]
            self.leases.contains_key(id) ==> self.leases[id].lease_id == id
                && self.leases[id].shards.begin < self.leases[id].shards.end
        &&& forall|a: Seq<char>, b: Seq<char>, d: Seq<char>, e: u64, shard: u32|
            self.owns(a, d, e, shard) && self.owns(b, d, e, shard) ==> a == b
        &&& forall|id: Seq<char>, d: Seq<char>, e: u64, shard: u32| #[trigger]
            self.owns(id, d, e, shard) ==> self.has_pool(d, e) && !self.pool(d, e).contains(shard)
                && shard < self.datasets[d].num_shards
        &&& forall|d: Seq<char>, e: u64, shard: u32|
            self.has_pool(d, e) && #[trigger] self.pool(d, e).contains(shard) ==> shard
                < self.datasets[d].num_shards
    }

    /// The shards of one epoch that the leases in `gone` cover.
    pub open spec fn freed(self, gone: Set<Seq<char>>, dataset: Seq<char>, epoch: u64) -> Set<u32> {
        Set::new(
            |shard: u32|
                exists|id: Seq<char>|
                    gone.contains(id) && #[trigger] self.owns(id, dataset, epoch, shard),
        )
    }

    /// The leases in `gone` are dropped and their shards return to the pools.
    pub open spec fn dropped(self, gone: Set<Seq<char>>) -> LeaseState {
        LeaseState {
            datasets: self.datasets.map_entries(
                |d: Seq<char>, dataset: DatasetView|
                    DatasetView {
                        num_shards: dataset.num_shards,
                        pools: dataset.pools.map_entries(
                            |e: u64, pool: Set<u32>| pool.union(self.freed(gone, d, e)),
                        ),
                    },
            ),
            leases: self.leases.remove_keys(gone),
            ..self
        }
    }

    /// The leases that have lapsed at `now`.
    pub open spec fn due(self, now: nat) -> Set<Seq<char>> {
        Set::new(|id: Seq<char>| self.leases.contains_key(id) && self.leases[id].expires_at <= now)
    }

    /// The leases that a worker holds.
    pub open spec fn held_by(self, worker: Seq<char>) -> Set<Seq<char>> {
        Set::new(|id: Seq<char>| self.leases.contains_key(id) && self.leases[id].worker_id == worker)
    }

    /// The leases that any of the workers holds.
    pub open spec fn held_by_any(self, workers: Set<Seq<char>>) -> Set<Seq<char>> {
        Set::new(
            |id: Seq<char>|
                self.leases.contains_key(id) && workers.contains(self.leases[id].worker_id),
        )
    }

    /// Lapsed leases are dropped.
    pub open spec fn expired(self, now: nat) -> LeaseState {
        self.dropped(self.due(now))
    }

    /// A dataset is registered; one that is known already stays as it is.
    pub open spec fn registered(self, uri: Seq<char>, num_shards: u32) -> LeaseState {
        let id = dataset_handle(uri);
        if self.datasets.contains_key(id) {
            self
        } else {
            LeaseState {
                datasets: self.datasets.insert(
                    id,
                    DatasetView { num_shards, pools: Map::empty() },
                ),
                ..self
            }
        }
    }

    /// The epoch's pool, full if the epoch was not asked for before.
    pub open spec fn opened_pool(self, dataset: Seq<char>, epoch: u64) -> Set<u32> {
        if self.has_pool(dataset, epoch) {
            self.pool(dataset, epoch)
        } else {
            pool::all_shards(self.datasets[dataset].num_shards)
        }
    }

    /// The epoch's pool is set.
    pub open spec fn with_pool(
        self,
        dataset: Seq<char>,
        epoch: u64,
        shards: Set<u32>,
    ) -> LeaseState {
        LeaseState {
            datasets: self.datasets.insert(
                dataset,
                DatasetView {
                    num_shards: self.datasets[dataset].num_shards,
                    pools: self.datasets[dataset].pools.insert(epoch, shards),
                },
            ),
            ..self
        }
    }

    /// How many shards a request asks for; zero asks for the default.
    pub open spec fn wanted(self, requested: u32) -> u32 {
        if requested == 0 {
            self.default_shards
        } else {
            requested
        }
    }

    /// What acquiring does to the state, and what it hands out: lapsed leases
    /// are dropped first, then the start of the epoch's pool is granted.
    pub open spec fn acquire(
        self,
        worker: Seq<char>,
        dataset: Seq<char>,
        epoch: u64,
        requested: u32,
        now: nat,
        uuid: Seq<char>,
    ) -> (LeaseState, Result<Option<LeaseView>, ErrorView>) {
        let swept = self.expired(now);
        if !swept.datasets.contains_key(dataset) {
            (swept, Err(ErrorView::UnknownDataset(dataset)))
        } else {
            let shards = swept.opened_pool(dataset, epoch);
            if shards == Set::<u32>::empty() {
                (swept.with_pool(dataset, epoch, shards), Ok(None))
            } else {
                let granted = grant(shards, self.wanted(requested));
                let lease = LeaseView {
                    lease_id: "lease-"@ + uuid,
                    worker_id: worker,
                    dataset_id: dataset,
                    epoch,
                    shards: granted,
                    expires_at: now + clock::millis(self.ttl_ms),
                };
                let taken = swept.with_pool(dataset, epoch, shards.difference(granted.shards()));
                (
                    LeaseState { leases: taken.leases.insert(lease.lease_id, lease), ..taken },
                    Ok(Some(lease)),
                )
            }
        }
    }

    /// What renewing does to the state, and the new expiry: lapsed leases are
    /// dropped first, so a lapsed lease is never renewed.
    pub open spec fn renew(self, id: Seq<char>, now: nat) -> (LeaseState, Result<nat, ErrorView>) {
        let swept = self.expired(now);
        if swept.leases.contains_key(id) {
            let until = now + clock::millis(self.ttl_ms);
            let lease = LeaseView { expires_at: until, ..swept.leases[id] };
            (LeaseState { leases: swept.leases.insert(id, lease), ..swept }, Ok(until))
        } else {
            (swept, Err(ErrorView::LeaseExpired(id)))
        }
    }

    /// What releasing does to the state; shards that were not completed return
    /// to their pool.
    pub open spec fn release(self, id: Seq<char>, completed: bool) -> (
        LeaseState,
        Result<(), ErrorView>,
    ) {
        if !self.leases.contains_key(id) {
            (self, Err(ErrorView::UnknownLease(id)))
        } else if completed {
            (LeaseState { leases: self.leases.remove(id), ..self }, Ok(()))
        } else {
            (self.dropped(set![id]), Ok(()))
        }
    }

    /// `listed` enumerates the leases in `gone`, each once, in no particular
    /// order.
    pub open spec fn enumerates(self, listed: Seq<LeaseView>, gone: Set<Seq<char>>) -> bool {
        &&& listed.no_duplicates()
        &&& forall|lease: LeaseView| #[trigger]
            listed.contains(lease) <==> gone.contains(lease.lease_id) && self.leases.contains_key(
                lease.lease_id,
            ) && self.leases[lease.lease_id] == lease
    }
}

impl LeaseState {
    /// One lease's shards return to their pool.
    spec fn returned(self, lease: LeaseView) -> LeaseState {
        if self.has_pool(lease.dataset_id, lease.epoch) {
            self.with_pool(
                lease.dataset_id,
                lease.epoch,
                self.pool(lease.dataset_id, lease.epoch).union(lease.shards.shards()),
            )
        } else {
            self
        }
    }

    /// Dropping no lease changes nothing.
    pub proof fn lemma_drop_none(self)
        ensures
            self.dropped(Set::<Seq<char>>::empty()) == self,
    {
        let after = self.dropped(Set::<Seq<char>>::empty());
        assert forall|d: Seq<char>| self.datasets.contains_key(d) implies after.datasets[d]
            == self.datasets[d] by {
            assert forall|e: u64| self.datasets[d].pools.contains_key(e) implies
                after.datasets[d].pools[e] == self.datasets[d].pools[e] by {
                assert(after.datasets[d].pools[e] =~= self.datasets[d].pools[e]);
            }
            assert(after.datasets[d].pools =~= self.datasets[d].pools);
        }
        assert(after.datasets =~= self.datasets);
        assert(after.leases =~= self.leases);
    }

    /// Dropping one more lease is dropping the others and then returning its
    /// shards.
    proof fn lemma_drop_one(self, gone: Set<Seq<char>>, id: Seq<char>)
        requires
            self.leases.contains_key(id),
            !gone.contains(id),
        ensures
            self.dropped(gone).leases.contains_key(id),
            self.dropped(gone).leases[id] == self.leases[id],
            self.dropped(gone.insert(id)) == (LeaseState {
                leases: self.dropped(gone).leases.remove(id),
                ..self.dropped(gone)
            }).returned(self.leases[id]),
    {
        let lease = self.leases[id];
        let part = LeaseState {
            leases: self.dropped(gone).leases.remove(id),
            ..self.dropped(gone)
        };
        let whole = self.dropped(gone.insert(id));
        let after = part.returned(lease);
        assert(whole.leases =~= after.leases);
        assert forall|d: Seq<char>| self.datasets.contains_key(d) implies whole.datasets[d]
            == after.datasets[d] by {
            assert forall|e: u64| self.datasets[d].pools.contains_key(e) implies
                whole.datasets[d].pools[e] == after.datasets[d].pools[e] by {
                assert forall|shard: u32|
                    whole.datasets[d].pools[e].contains(shard)
                        == after.datasets[d].pools[e].contains(shard) by {
                    if self.owns(id, d, e, shard) {
                        assert(gone.insert(id).contains(id));
                        assert(self.freed(gone.insert(id), d, e).contains(shard));
                    }
                    if self.freed(gone, d, e).contains(shard) {
                        let other = choose|other: Seq<char>|
                            gone.contains(other) && #[trigger] self.owns(other, d, e, shard);
                        assert(gone.insert(id).contains(other));
                    }
                }
                assert(whole.datasets[d].pools[e] =~= after.datasets[d].pools[e]);
            }
            assert(whole.datasets[d].pools =~= after.datasets[d].pools);
        }
        assert(whole.datasets =~= after.datasets);
    }

    /// Dropping some leases and then others is dropping them together.
    pub proof fn lemma_drop_union(self, first: Set<Seq<char>>, second: Set<Seq<char>>)
        ensures
            self.dropped(first).dropped(second) == self.dropped(first.union(second)),
    {
        let part = self.dropped(first);
        let after = part.dropped(second);
        let whole = self.dropped(first.union(second));
        assert forall|d: Seq<char>| self.datasets.contains_key(d) implies whole.datasets[d]
            == after.datasets[d] by {
            assert forall|e: u64| self.datasets[d].pools.contains_key(e) implies
                whole.datasets[d].pools[e] == after.datasets[d].pools[e] by {
                assert forall|shard: u32|
                    whole.datasets[d].pools[e].contains(shard)
                        == after.datasets[d].pools[e].contains(shard) by {
                    if self.freed(first, d, e).contains(shard) {
                        let id = choose|id: Seq<char>|
                            first.contains(id) && #[trigger] self.owns(id, d, e, shard);
                        assert(first.union(second).contains(id));
                    }
                    if part.freed(second, d, e).contains(shard) {
                        let id = choose|id: Seq<char>|
                            second.contains(id) && #[trigger] part.owns(id, d, e, shard);
                        assert(first.union(second).contains(id) && self.owns(id, d, e, shard));
                    }
                    if self.freed(first.union(second), d, e).contains(shard) {
                        let id = choose|id: Seq<char>|
                            first.union(second).contains(id) && #[trigger] self.owns(
                                id,
                                d,
                                e,
                                shard,
                            );
                        if !first.contains(id) {
                            assert(part.owns(id, d, e, shard));
                        }
                    }
                }
                assert(whole.datasets[d].pools[e] =~= after.datasets[d].pools[e]);
            }
            assert(whole.datasets[d].pools =~= after.datasets[d].pools);
        }
        assert(whole.datasets =~= after.datasets);
        assert(whole.leases =~= after.leases);
    }

    /// Dropping leases keeps the state consistent.
    pub proof fn lemma_dropped_consistent(self, gone: Set<Seq<char>>)
        requires
            self.consistent(),
        ensures
            self.dropped(gone).consistent(),
    {
        let after = self.dropped(gone);
        assert forall|id: Seq<char>, d: Seq<char>, e: u64, shard: u32|
            after.owns(id, d, e, shard) implies self.owns(id, d, e, shard) && !gone.contains(
            id,
        ) by {}
        assert forall|a: Seq<char>, b: Seq<char>, d: Seq<char>, e: u64, shard: u32|
            after.owns(a, d, e, shard) && after.owns(b, d, e, shard) implies a == b by {
            assert(self.owns(a, d, e, shard) && self.owns(b, d, e, shard));
        }
        assert forall|id: Seq<char>, d: Seq<char>, e: u64, shard: u32| #[trigger]
            after.owns(id, d, e, shard) implies after.has_pool(d, e) && !after.pool(d, e).contains(
            shard,
        ) && shard < after.datasets[d].num_shards by {
            assert(self.owns(id, d, e, shard));
            if self.freed(gone, d, e).contains(shard) {
                let other = choose|other: Seq<char>|
                    gone.contains(other) && #[trigger] self.owns(other, d, e, shard);
                assert(other == id);
            }
        }
        assert forall|d: Seq<char>, e: u64, shard: u32|
            after.has_pool(d, e) && #[trigger] after.pool(d, e).contains(shard) implies shard
            < after.datasets[d].num_shards by {
            if self.freed(gone, d, e).contains(shard) {
                let other = choose|other: Seq<char>|
                    gone.contains(other) && #[trigger] self.owns(other, d, e, shard);
            } else {
                assert(self.pool(d, e).contains(shard));
            }
        }
    }
}

/// Lease table with TTL expiry and shard-pool reassignment.
pub struct LeaseManager {
    datasets: Table<DatasetState>,
    leases: Table<ShardLease>,
    ttl_ms: u64,
    default_shards_per_lease: u32,
    clock: Clock,
}

impl View for LeaseManager {
    type V = LeaseState;

    closed spec fn view(&self) -> LeaseState {
        LeaseState {
            datasets: self.datasets@,
            leases: self.leases@,
            ttl_ms: self.ttl_ms,
            default_shards: self.default_shards_per_lease,
        }
    }
}

impl LeaseManager {
    spec fn tables_wf(self) -> bool {
        self.datasets.wf() && self.leases.wf()
    }

    /// The state is consistent, however it is stored.
    pub closed spec fn wf(self) -> bool {
        self.tables_wf() && self@.consistent()
    }

    /// The latest reading of the clock that deadlines are measured on.
    pub closed spec fn latest(self) -> nat {
        self.clock.latest()
    }

    /// What well-formedness says about the state.
    pub proof fn lemma_wf(&self)
        requires
            self.wf(),
        ensures
            self@.consistent(),
    {
    }

    fn return_to_pool(&mut self, lease: &ShardLease)
        requires
            old(self).tables_wf(),
        ensures
            final(self).tables_wf(),
            final(self)@ == old(self)@.returned(lease@),
            final(self).latest() == old(self).latest(),
    {
        let ghost before = self@;
        match self.datasets.take(lease.dataset_id.as_str()) {
            Some(mut dataset) => {
                let ghost whole = dataset@;
                match dataset.pools.remove(&lease.epoch) {
                    Some(mut shards) => {
                        let ghost was = shards@;
                        pool::add_span(&mut shards, lease.shards.begin, lease.shards.end);
                        let ghost now = shards@;
                        dataset.pools.insert(lease.epoch, shards);
                        assert(dataset@.pools =~= whole.pools.insert(
                            lease.epoch,
                            was.union(lease.shards.shards()),
                        ));
                    },
                    None => {
                        assert(dataset@.pools =~= whole.pools);
                    },
                }
                self.datasets.put(lease.dataset_id.to_string(), dataset);
                assert(self@.datasets =~= before.returned(lease@).datasets);
            },
            None => {
                assert(self@.datasets =~= before.datasets);
            },
        }
    }

    /// Drops the named leases and hands them out.
    fn drop_leases(&mut self, ids: &Vec<String>) -> (out: Vec<ShardLease>)
        requires
            old(self).wf(),
            forall|i: int| 0 <= i < ids@.len() ==> old(self)@.leases.contains_key(
                #[trigger] ids@[i]@,
            ),
            forall|i: int, j: int| 0 <= i < j < ids@.len() ==> ids@[i]@ != ids@[j]@,
        ensures
            final(self).wf(),
            final(self)@ == old(self)@.dropped(table::named(ids@)),
            old(self)@.enumerates(out@.map_values(|l: ShardLease| l@), table::named(ids@)),
            final(self).latest() == old(self).latest(),
    {
        let ghost start = self@;
        let mut out: Vec<ShardLease> = Vec::new();
        let mut i: usize = 0;
        proof {
            start.lemma_drop_none();
            assert(table::named(ids@.take(0)) =~= Set::<Seq<char>>::empty());
        }
        while i < ids.len()
            invariant
                i <= ids@.len(),
                self.tables_wf(),
                self.latest() == old(self).latest(),
                start.consistent(),
                self@ == start.dropped(table::named(ids@.take(i as int))),
                out@.len() == i,
                forall|j: int| 0 <= j < ids@.len() ==> start.leases.contains_key(
                    #[trigger] ids@[j]@,
                ),
                forall|j: int, k: int| 0 <= j < k < ids@.len() ==> ids@[j]@ != ids@[k]@,
                forall|j: int| 0 <= j < i ==> (#[trigger] out@[j])@ == start.leases[ids@[j]@],
            decreases ids@.len() - i,
        {
            let ghost so_far = table::named(ids@.take(i as int));
            proof {
                table::lemma_named_grows(ids@, i as int);
                start.lemma_drop_one(so_far, ids@[i as int]@);
            }
            let ghost before = self@;
            match self.leases.take(ids[i].as_str()) {
                Some(lease) => {
                    assert(self@ == (LeaseState {
                        leases: before.leases.remove(ids@[i as int]@),
                        ..before
                    }));
                    self.return_to_pool(&lease);
                    out.push(lease);
                },
                None => {
                    assert(false);
                },
            }
            i = i + 1;
        }
        proof {
            assert(ids@.take(i as int) =~= ids@);
            start.lemma_dropped_consistent(table::named(ids@));
            let listed = out@.map_values(|l: ShardLease| l@);
            assert forall|lease: LeaseView| #[trigger] listed.contains(lease) implies table::named(
                ids@,
            ).contains(lease.lease_id) && start.leases.contains_key(lease.lease_id)
                && start.leases[lease.lease_id] == lease by {
                let j = listed.index_of(lease);
                assert(listed[j] == out@[j]@);
                assert(start.leases.contains_key(ids@[j]@));
            }
            assert forall|lease: LeaseView|
                table::named(ids@).contains(lease.lease_id) && start.leases.contains_key(lease.lease_id)
                    && start.leases[lease.lease_id] == lease implies #[trigger] listed.contains(
                lease,
            ) by {
                let j = choose|j: int| 0 <= j < ids@.len() && #[trigger] ids@[j]@ == lease.lease_id;
                assert(listed[j] == lease);
            }
            assert forall|j: int, k: int|
                0 <= j < listed.len() && 0 <= k < listed.len() && j != k implies listed[j]
                != listed[k] by {
                assert(listed[j] == out@[j]@ && listed[k] == out@[k]@);
                assert(start.leases.contains_key(ids@[j]@) && start.leases.contains_key(ids@[k]@));
            }
        }
        out
    }

    /// The names of the leases that are wanted, each once.
    fn ids_of(&self, wanted: Wanted) -> (out: Vec<String>)
        requires
            self.wf(),
        ensures
            table::named(out@) == wanted.among(self@),
            forall|i: int, j: int| 0 <= i < j < out@.len() ==> out@[i]@ != out@[j]@,
    {
        let ghost all = wanted.among(self@);
        let mut out: Vec<String> = Vec::new();
        let mut i: usize = 0;
        let count: usize = self.leases.len();
        let ghost keys = self.leases.keys();
        proof {
            self.leases.lemma_keys();
        }
        while i < count
            invariant
                self.wf(),
                all == wanted.among(self@),
                keys == self.leases.keys(),
                keys.no_duplicates(),
                count == keys.len(),
                i <= count,
                forall|j: int, k: int| 0 <= j < k < out@.len() ==> out@[j]@ != out@[k]@,
                forall|j: int|
                    0 <= j < out@.len() ==> all.contains(#[trigger] out@[j]@) && keys.take(
                        i as int,
                    ).contains(out@[j]@),
                forall|k: int|
                    0 <= k < i && all.contains(#[trigger] keys[k]) ==> table::named(
                        out@,
                    ).contains(keys[k]),
            decreases count - i,
        {
            let ghost earlier = out@;
            let lease: &ShardLease = self.leases.value_at(i);
            let picked: bool = match wanted {
                Wanted::Due(now) => lease.expires_at <= now,
                Wanted::HeldBy(worker) => text::same(lease.worker_id.as_str(), worker.as_str()),
            };
            if picked {
                out.push(self.leases.key_at(i).clone());
                assert(out@.drop_last() =~= earlier);
            }
            proof {
                table::lemma_picked(keys, earlier, out@, i as int, all);
            }
            i = i + 1;
        }
        proof {
            assert forall|id: Seq<char>| all.contains(id) implies table::named(out@).contains(
                id,
            ) by {
                assert(keys.to_set().contains(id));
                let k = keys.index_of(id);
                assert(keys[k] == id);
            }
            assert(table::named(out@) =~= all);
        }
        out
    }
}

/// Which leases are looked for.
enum Wanted<'a> {
    /// Those that have lapsed at the given clock reading.
    Due(u128),
    /// Those that a worker holds.
    HeldBy(&'a WorkerId),
}

impl<'a> Wanted<'a> {
    /// The names of the leases that are looked for.
    spec fn among(self, state: LeaseState) -> Set<Seq<char>> {
        match self {
            Wanted::Due(now) => state.due(now as nat),
            Wanted::HeldBy(worker) => state.held_by(worker@),
        }
    }
}

/// A result of acquiring, in views.
pub open spec fn acquired(out: Result<Option<ShardLease>, DtrError>) -> Result<
    Option<LeaseView>,
    ErrorView,
> {
    match out {
        Ok(Some(lease)) => Ok(Some(lease@)),
        Ok(None) => Ok(None),
        Err(e) => Err(e@),
    }
}

/// A result of renewing, in views.
pub open spec fn renewed(out: Result<u128, DtrError>) -> Result<nat, ErrorView> {
    match out {
        Ok(until) => Ok(until as nat),
        Err(e) => Err(e@),
    }
}

proof fn lemma_least(pool: Set<u32>, shard: u32)
    requires
        pool::is_least(pool, shard),
    ensures
        least(pool) == shard,
{
    let other = least(pool);
    assert(pool::is_least(pool, other));
}

fn take_grant(shards: &mut BTreeSet<u32>, num_shards: u32, start: u32, want: u32) -> (out:
    ShardRange)
    requires
        pool::is_least(old(shards)@, start),
        forall|shard: u32| old(shards)@.contains(shard) ==> shard < num_shards,
        want >= 1,
    ensures
        out == grant(old(shards)@, want),
        out.begin < out.end <= num_shards,
        final(shards)@ == old(shards)@.difference(out.shards()),
        out.shards().subset_of(old(shards)@),
{
    proof {
        lemma_least(shards@, start);
    }
    let ghost limit: int = start + want;
    let mut end: u32 = start;
    while end - start < want && shards.contains(&end)
        invariant
            shards@ == old(shards)@,
            forall|shard: u32| shards@.contains(shard) ==> shard < num_shards,
            shards@.contains(start),
            start <= end <= limit,
            end <= num_shards,
            limit == start + want,
            run_end(shards@, start as int, limit) == run_end(shards@, end as int, limit),
            forall|shard: u32| start <= shard < end ==> shards@.contains(shard),
        decreases limit - end,
    {
        end = end + 1;
    }
    pool::remove_span(shards, start, end);
    let out = ShardRange { begin: start, end };
    assert(out == grant(old(shards)@, want));
    out
}

impl LeaseManager {
    pub fn new(lease_ttl_ms: u64, default_shards_per_lease: u32) -> (out: Self)
        ensures
            out.wf(),
            out@ == (LeaseState {
                datasets: Map::empty(),
                leases: Map::empty(),
                ttl_ms: lease_ttl_ms,
                default_shards: if default_shards_per_lease == 0 {
                    1
                } else {
                    default_shards_per_lease
                },
            }),
            out.latest() == 0,
    {
        Self::with_clock(Clock::start(), lease_ttl_ms, default_shards_per_lease)
    }

    /// A manager that measures its deadlines on `clock`.
    pub fn with_clock(clock: Clock, lease_ttl_ms: u64, default_shards_per_lease: u32) -> (out: Self)
        ensures
            out.wf(),
            out@ == (LeaseState {
                datasets: Map::empty(),
                leases: Map::empty(),
                ttl_ms: lease_ttl_ms,
                default_shards: if default_shards_per_lease == 0 {
                    1
                } else {
                    default_shards_per_lease
                },
            }),
            out.latest() == clock.latest(),
    {
        LeaseManager {
            datasets: Table::new(),
            leases: Table::new(),
            ttl_ms: lease_ttl_ms,
            default_shards_per_lease: if default_shards_per_lease == 0 {
                1
            } else {
                default_shards_per_lease
            },
            clock,
        }
    }

    pub fn ttl_ms(&self) -> (out: u64)
        ensures
            out == self@.ttl_ms,
    {
        self.ttl_ms
    }

    /// Register a dataset (idempotent). Returns (dataset_id, already_registered).
    pub fn register_dataset(&mut self, uri: &str, num_shards: u32) -> (out: (DatasetId, bool))
        requires
            old(self).wf(),
        ensures
            final(self).wf(),
            final(self)@ == old(self)@.registered(uri@, num_shards),
            !out.1 ==> final(self)@.datasets[out.0@].num_shards == num_shards,
            out.0@ == dataset_handle(uri@),
            out.1 == old(self)@.datasets.contains_key(dataset_handle(uri@)),
            final(self).latest() == old(self).latest(),
    {
        // Deterministic id from the URI so all ranks resolve the same handle.
        let digits: String = text::hex16_string(hash::fnv(uri.as_bytes()));
        let id = DatasetId(text::join2("ds-", digits.as_str()));
        let existed: bool = self.datasets.contains(id.as_str());
        if !existed {
            let dataset = DatasetState { num_shards, pools: HashMap::new() };
            assert(dataset@.pools =~= Map::<u64, Set<u32>>::empty());
            self.datasets.put(id.to_string(), dataset);
            proof {
                let before = old(self)@;
                let after = self@;
                assert forall|l: Seq<char>, d: Seq<char>, e: u64, shard: u32|
                    after.owns(l, d, e, shard) == before.owns(l, d, e, shard) by {}
                assert forall|d: Seq<char>, e: u64| after.has_pool(d, e) implies before.has_pool(
                    d,
                    e,
                ) && after.pool(d, e) == before.pool(d, e) by {}
            }
        }
        (id, existed)
    }

    /// Acquire up to `requested` contiguous shards for (dataset, epoch).
    /// Returns None when the epoch pool is exhausted.
    pub fn acquire(
        &mut self,
        worker_id: WorkerId,
        dataset_id: &DatasetId,
        epoch: u64,
        requested: u32,
    ) -> (out: Result<Option<ShardLease>, DtrError>)
        requires
            old(self).wf(),
        ensures
            final(self).wf(),
            old(self).latest() <= final(self).latest() <= outside::MAX_NANOS,
            exists|uuid: Seq<char>|
                outside::is_uuid_v4(uuid) && (final(self)@, acquired(out))
                    == #[trigger] old(self)@.acquire(
                    worker_id@,
                    dataset_id@,
                    epoch,
                    requested,
                    final(self).latest(),
                    uuid,
                ),
    {
        let now: u128 = self.clock.now();
        let uuid: String = outside::random_uuid();
        self.acquire_at(worker_id, dataset_id, epoch, requested, now, uuid.as_str())
    }

    /// [`LeaseManager::acquire`] at the clock reading `now`, for a lease that
    /// gets its name from `uuid`.
    pub fn acquire_at(
        &mut self,
        worker_id: WorkerId,
        dataset_id: &DatasetId,
        epoch: u64,
        requested: u32,
        now: u128,
        uuid: &str,
    ) -> (out: Result<Option<ShardLease>, DtrError>)
        requires
            old(self).wf(),
            now <= outside::MAX_NANOS,
        ensures
            final(self).wf(),
            (final(self)@, acquired(out)) == old(self)@.acquire(
                worker_id@,
                dataset_id@,
                epoch,
                requested,
                now as nat,
                uuid@,
            ),
            final(self).latest() == old(self).latest(),
    {
        self.expire_due_leases_at(now);
        let ghost swept = self@;
        match self.datasets.take(dataset_id.as_str()) {
            None => {
                assert(self@.datasets =~= swept.datasets);
                Err(DtrError::UnknownDataset(dataset_id.to_string()))
            },
            Some(mut dataset) => {
                let ghost whole = dataset@;
                let mut shards: BTreeSet<u32> = match dataset.pools.remove(&epoch) {
                    Some(shards) => shards,
                    None => pool::full_pool(dataset.num_shards),
                };
                let ghost opened = shards@;
                assert(opened == swept.opened_pool(dataset_id@, epoch));
                assert forall|shard: u32| opened.contains(shard) implies shard
                    < whole.num_shards by {
                    if swept.has_pool(dataset_id@, epoch) {
                        assert(swept.pool(dataset_id@, epoch).contains(shard));
                    }
                }
                match pool::least_in(&shards) {
                    None => {
                        dataset.pools.insert(epoch, shards);
                        assert(dataset@.pools =~= whole.pools.insert(epoch, opened));
                        self.datasets.put(dataset_id.to_string(), dataset);
                        proof {
                            assert(self@.datasets =~= swept.with_pool(
                                dataset_id@,
                                epoch,
                                opened,
                            ).datasets);
                            swept.lemma_with_pool_consistent(dataset_id@, epoch, opened);
                        }
                        Ok(None)
                    },
                    Some(start) => {
                        let want: u32 = if requested == 0 {
                            self.default_shards_per_lease
                        } else {
                            requested
                        };
                        // Take the longest contiguous run starting at the pool's
                        // minimum, capped at `want`. Contiguity keeps range reads
                        // sequential.
                        let granted: ShardRange = take_grant(
                            &mut shards,
                            dataset.num_shards,
                            start,
                            want,
                        );
                        let ghost rest = shards@;
                        dataset.pools.insert(epoch, shards);
                        assert(dataset@.pools =~= whole.pools.insert(epoch, rest));
                        self.datasets.put(dataset_id.to_string(), dataset);
                        let lease_id = LeaseId(text::join2("lease-", uuid));
                        let lease = ShardLease {
                            lease_id,
                            worker_id,
                            dataset_id: dataset_id.clone(),
                            epoch,
                            shards: granted,
                            expires_at: now + clock::millis_to_nanos(self.ttl_ms),
                        };
                        let copy: ShardLease = lease.clone();
                        self.leases.put(lease.lease_id.to_string(), copy);
                        proof {
                            let taken = swept.with_pool(dataset_id@, epoch, rest);
                            assert(self@.datasets =~= taken.datasets);
                            swept.lemma_with_pool_consistent(dataset_id@, epoch, rest);
                            assert forall|id: Seq<char>, shard: u32|
                                lease@.shards.shards().contains(
                                    shard,
                                ) implies !#[trigger] taken.owns(
                                id,
                                dataset_id@,
                                epoch,
                                shard,
                            ) by {
                                assert(opened.contains(shard));
                                assert(taken.owns(id, dataset_id@, epoch, shard) == swept.owns(
                                    id,
                                    dataset_id@,
                                    epoch,
                                    shard,
                                ));
                            }
                            taken.lemma_granted_consistent(lease@);
                        }
                        Ok(Some(lease))
                    },
                }
            },
        }
    }

    /// Renew a lease. Returns the new expiry, or LeaseExpired if it already
    /// lapsed (its shards may belong to someone else now: the caller must stop
    /// reading them).
    pub fn renew(&mut self, lease_id: &LeaseId) -> (out: Result<u128, DtrError>)
        requires
            old(self).wf(),
        ensures
            final(self).wf(),
            old(self).latest() <= final(self).latest() <= outside::MAX_NANOS,
            (final(self)@, renewed(out)) == old(self)@.renew(lease_id@, final(self).latest()),
    {
        let now: u128 = self.clock.now();
        self.renew_at(lease_id, now)
    }

    /// [`LeaseManager::renew`] at the clock reading `now`.
    pub fn renew_at(&mut self, lease_id: &LeaseId, now: u128) -> (out: Result<u128, DtrError>)
        requires
            old(self).wf(),
            now <= outside::MAX_NANOS,
        ensures
            final(self).wf(),
            (final(self)@, renewed(out)) == old(self)@.renew(lease_id@, now as nat),
            final(self).latest() == old(self).latest(),
    {
        self.expire_due_leases_at(now);
        let ghost swept = self@;
        match self.leases.take(lease_id.as_str()) {
            Some(mut lease) => {
                lease.expires_at = now + clock::millis_to_nanos(self.ttl_ms);
                let until: u128 = lease.expires_at;
                self.leases.put(lease_id.to_string(), lease);
                proof {
                    assert(self@.leases =~= swept.leases.insert(
                        lease_id@,
                        LeaseView { expires_at: until as nat, ..swept.leases[lease_id@] },
                    ));
                    swept.lemma_same_owners_consistent(self@);
                }
                Ok(until)
            },
            None => {
                assert(self@.leases =~= swept.leases);
                Err(DtrError::LeaseExpired(lease_id.to_string()))
            },
        }
    }

    /// Release a lease. If not `completed`, the shards return to the pool.
    pub fn release(&mut self, lease_id: &LeaseId, completed: bool) -> (out: Result<(), DtrError>)
        requires
            old(self).wf(),
        ensures
            final(self).wf(),
            (final(self)@, error::done(out)) == old(self)@.release(lease_id@, completed),
            final(self).latest() == old(self).latest(),
    {
        let ghost before = self@;
        match self.leases.take(lease_id.as_str()) {
            None => {
                assert(self@.leases =~= before.leases);
                Err(DtrError::UnknownLease(lease_id.to_string()))
            },
            Some(lease) => {
                proof {
                    before.lemma_forget_consistent(lease_id@);
                }
                if !completed {
                    self.return_to_pool(&lease);
                    proof {
                        before.lemma_drop_none();
                        before.lemma_drop_one(Set::<Seq<char>>::empty(), lease_id@);
                        assert(Set::<Seq<char>>::empty().insert(lease_id@) =~= set![lease_id@]);
                        before.lemma_dropped_consistent(set![lease_id@]);
                    }
                }
                Ok(())
            },
        }
    }

    /// Expire all due leases, returning their shards to their pools.
    /// Called opportunistically on every acquire/renew and by the sweeper task.
    pub fn expire_due_leases(&mut self) -> (out: Vec<ShardLease>)
        requires
            old(self).wf(),
        ensures
            final(self).wf(),
            old(self).latest() <= final(self).latest() <= outside::MAX_NANOS,
            final(self)@ == old(self)@.expired(final(self).latest()),
            old(self)@.enumerates(
                out@.map_values(|l: ShardLease| l@),
                old(self)@.due(final(self).latest()),
            ),
    {
        let now: u128 = self.clock.now();
        self.expire_due_leases_at(now)
    }

    /// [`LeaseManager::expire_due_leases`] at the clock reading `now`.
    pub fn expire_due_leases_at(&mut self, now: u128) -> (out: Vec<ShardLease>)
        requires
            old(self).wf(),
        ensures
            final(self).wf(),
            final(self)@ == old(self)@.expired(now as nat),
            old(self)@.enumerates(
                out@.map_values(|l: ShardLease| l@),
                old(self)@.due(now as nat),
            ),
            final(self).latest() == old(self).latest(),
    {
        let due: Vec<String> = self.ids_of(Wanted::Due(now));
        assert forall|i: int| 0 <= i < due@.len() implies self@.leases.contains_key(
            #[trigger] due@[i]@,
        ) by {
            assert(table::named(due@).contains(due@[i]@));
        }
        self.drop_leases(&due)
    }

    /// Drop all leases held by a worker (on eviction), returning shards.
    pub fn revoke_worker(&mut self, worker_id: &WorkerId) -> (out: Vec<ShardLease>)
        requires
            old(self).wf(),
        ensures
            final(self).wf(),
            final(self)@ == old(self)@.dropped(old(self)@.held_by(worker_id@)),
            old(self)@.enumerates(
                out@.map_values(|l: ShardLease| l@),
                old(self)@.held_by(worker_id@),
            ),
            final(self).latest() == old(self).latest(),
    {
        let held: Vec<String> = self.ids_of(Wanted::HeldBy(worker_id));
        assert forall|i: int| 0 <= i < held@.len() implies self@.leases.contains_key(
            #[trigger] held@[i]@,
        ) by {
            assert(table::named(held@).contains(held@[i]@));
        }
        self.drop_leases(&held)
    }

    pub fn active_lease_count(&self) -> (out: usize)
        requires
            self.wf(),
        ensures
            out == self@.leases.len(),
    {
        self.leases.len()
    }
}

impl LeaseState {
    /// Setting a pool to shards that no lease covers keeps the state
    /// consistent.
    pub proof fn lemma_with_pool_consistent(self, dataset: Seq<char>, epoch: u64, shards: Set<u32>)
        requires
            self.consistent(),
            self.datasets.contains_key(dataset),
            shards.subset_of(self.opened_pool(dataset, epoch)),
        ensures
            self.with_pool(dataset, epoch, shards).consistent(),
    {
        let after = self.with_pool(dataset, epoch, shards);
        assert forall|id: Seq<char>, d: Seq<char>, e: u64, shard: u32|
            after.owns(id, d, e, shard) == self.owns(id, d, e, shard) by {}
        assert forall|id: Seq<char>, d: Seq<char>, e: u64, shard: u32| #[trigger]
            after.owns(id, d, e, shard) implies after.has_pool(d, e) && !after.pool(d, e).contains(
            shard,
        ) && shard < after.datasets[d].num_shards by {
            assert(self.owns(id, d, e, shard));
        }
        assert forall|d: Seq<char>, e: u64, shard: u32|
            after.has_pool(d, e) && #[trigger] after.pool(d, e).contains(shard) implies shard
            < after.datasets[d].num_shards by {
            if d == dataset && e == epoch {
                assert(self.opened_pool(dataset, epoch).contains(shard));
                if self.has_pool(dataset, epoch) {
                    assert(self.pool(dataset, epoch).contains(shard));
                }
            } else {
                assert(self.has_pool(d, e) && self.pool(d, e).contains(shard));
            }
        }
    }

    /// Granting shards that are neither pooled nor leased keeps the state
    /// consistent.
    pub proof fn lemma_granted_consistent(self, lease: LeaseView)
        requires
            self.consistent(),
            lease.shards.begin < lease.shards.end,
            self.has_pool(lease.dataset_id, lease.epoch),
            lease.shards.end <= self.datasets[lease.dataset_id].num_shards,
            forall|shard: u32|
                lease.shards.shards().contains(shard) ==> !self.pool(
                    lease.dataset_id,
                    lease.epoch,
                ).contains(shard),
            forall|id: Seq<char>, shard: u32|
                lease.shards.shards().contains(shard) ==> !#[trigger] self.owns(
                    id,
                    lease.dataset_id,
                    lease.epoch,
                    shard,
                ),
        ensures
            (LeaseState {
                leases: self.leases.insert(lease.lease_id, lease),
                ..self
            }).consistent(),
    {
        let after = LeaseState { leases: self.leases.insert(lease.lease_id, lease), ..self };
        assert forall|id: Seq<char>, d: Seq<char>, e: u64, shard: u32|
            #[trigger] after.owns(id, d, e, shard) implies (if id == lease.lease_id {
            d == lease.dataset_id && e == lease.epoch && lease.shards.shards().contains(shard)
        } else {
            self.owns(id, d, e, shard)
        }) by {}
        assert forall|a: Seq<char>, b: Seq<char>, d: Seq<char>, e: u64, shard: u32|
            after.owns(a, d, e, shard) && after.owns(b, d, e, shard) implies a == b by {
            if a == lease.lease_id && b != lease.lease_id {
                assert(self.owns(b, d, e, shard));
            }
            if b == lease.lease_id && a != lease.lease_id {
                assert(self.owns(a, d, e, shard));
            }
        }
        assert forall|id: Seq<char>, d: Seq<char>, e: u64, shard: u32| #[trigger]
            after.owns(id, d, e, shard) implies after.has_pool(d, e) && !after.pool(d, e).contains(
            shard,
        ) && shard < after.datasets[d].num_shards by {
            if id != lease.lease_id {
                assert(self.owns(id, d, e, shard));
            }
        }
        assert forall|d: Seq<char>, e: u64, shard: u32|
            after.has_pool(d, e) && #[trigger] after.pool(d, e).contains(shard) implies shard
            < after.datasets[d].num_shards by {
            assert(self.has_pool(d, e) && self.pool(d, e).contains(shard));
        }
    }

    /// A state with the same pools, whose leases cover the same shards, is as
    /// consistent.
    pub proof fn lemma_same_owners_consistent(self, after: LeaseState)
        requires
            self.consistent(),
            after.datasets == self.datasets,
            after.default_shards == self.default_shards,
            forall|id: Seq<char>| #[trigger]
                after.leases.contains_key(id) ==> self.leases.contains_key(id)
                    && after.leases[id].lease_id == self.leases[id].lease_id
                    && after.leases[id].dataset_id == self.leases[id].dataset_id
                    && after.leases[id].epoch == self.leases[id].epoch && after.leases[id].shards
                    == self.leases[id].shards,
        ensures
            after.consistent(),
    {
        assert forall|id: Seq<char>, d: Seq<char>, e: u64, shard: u32|
            #[trigger] after.owns(id, d, e, shard) implies self.owns(id, d, e, shard) by {}
        assert forall|a: Seq<char>, b: Seq<char>, d: Seq<char>, e: u64, shard: u32|
            after.owns(a, d, e, shard) && after.owns(b, d, e, shard) implies a == b by {
            assert(self.owns(a, d, e, shard) && self.owns(b, d, e, shard));
        }
        assert forall|d: Seq<char>, e: u64| after.has_pool(d, e) implies self.has_pool(d, e)
            && after.pool(d, e) == self.pool(d, e) by {}
    }

    /// Forgetting a lease keeps the state consistent.
    pub proof fn lemma_forget_consistent(self, id: Seq<char>)
        requires
            self.consistent(),
        ensures
            (LeaseState { leases: self.leases.remove(id), ..self }).consistent(),
    {
        self.lemma_same_owners_consistent(LeaseState { leases: self.leases.remove(id), ..self });
    }
}

} // verus!
