//! What holds of shard leasing as a whole.

use crate::clock;
use crate::error::DtrError;
use crate::error::ErrorView;
use crate::hash;
use crate::lease;
use crate::lease::LeaseState;
use crate::lease::LeaseView;
use crate::lease::ShardLease;
use crate::pool;
use crate::text;
use vstd::prelude::*;

verus! {

proof fn lemma_least_below(shards: Set<u32>, shard: u32)
    requires
        shards.contains(shard),
    ensures
        pool::is_least(shards, lease::least(shards)),
    decreases shard,
{
    if exists|other: u32| shards.contains(other) && other < shard {
        let other = choose|other: u32| shards.contains(other) && other < shard;
        lemma_least_below(shards, other);
    } else {
        assert(pool::is_least(shards, shard));
    }
}

proof fn lemma_run(shards: Set<u32>, from: int, limit: int)
    requires
        0 <= from <= limit,
        !shards.contains(u32::MAX),
        from <= u32::MAX,
    ensures
        from <= lease::run_end(shards, from, limit) <= limit,
        lease::run_end(shards, from, limit) <= u32::MAX,
        forall|shard: u32|
            from <= shard < lease::run_end(shards, from, limit) ==> shards.contains(shard),
        lease::run_end(shards, from, limit) == limit || !shards.contains(
            lease::run_end(shards, from, limit) as u32,
        ),
    decreases limit - from,
{
    if from < limit && shards.contains(from as u32) {
        lemma_run(shards, from + 1, limit);
    }
}

/// A grant is the longest contiguous run that starts at the pool's minimum,
/// capped at what was wanted.
pub proof fn grant_is_the_longest_run(shards: Set<u32>, want: u32, member: u32)
    requires
        shards.contains(member),
        !shards.contains(u32::MAX),
        want >= 1,
    ensures
        ({
            let granted = lease::grant(shards, want);
            &&& pool::is_least(shards, granted.begin)
            &&& granted.begin < granted.end
            &&& granted.end - granted.begin <= want
            &&& granted.shards().subset_of(shards)
            &&& granted.end - granted.begin == want || !shards.contains(granted.end)
        }),
{
    lemma_least_below(shards, member);
    let start = lease::least(shards);
    lemma_run(shards, start as int, start + want);
    assert(lease::run_end(shards, start as int, start + want) > start) by {
        lemma_run(shards, start + 1, start + want);
    }
}

/// Two leases on the same epoch never share a shard, and what is leased is not
/// in the pool: no shard has two readers.
pub proof fn leased_shards_are_exclusive(state: LeaseState, a: Seq<char>, b: Seq<char>)
    requires
        state.consistent(),
        state.leases.contains_key(a),
        state.leases.contains_key(b),
        a != b,
        state.leases[a].dataset_id == state.leases[b].dataset_id,
        state.leases[a].epoch == state.leases[b].epoch,
    ensures
        state.leases[a].shards.shards().disjoint(state.leases[b].shards.shards()),
        state.leases[a].shards.shards().disjoint(
            state.pool(state.leases[a].dataset_id, state.leases[a].epoch),
        ),
{
    let d = state.leases[a].dataset_id;
    let e = state.leases[a].epoch;
    assert forall|shard: u32|
        state.leases[a].shards.shards().contains(
            shard,
        ) implies !state.leases[b].shards.shards().contains(shard) by {
        assert(state.owns(a, d, e, shard));
        if state.leases[b].shards.shards().contains(shard) {
            assert(state.owns(b, d, e, shard));
        }
    }
    assert forall|shard: u32|
        state.leases[a].shards.shards().contains(shard) implies !state.pool(d, e).contains(
        shard,
    ) by {
        assert(state.owns(a, d, e, shard));
    }
}

/// The shards of an epoch that are still to be read: in the pool or leased.
pub open spec fn outstanding(state: LeaseState, dataset: Seq<char>, epoch: u64) -> Set<u32> {
    Set::new(
        |shard: u32|
            state.pool(dataset, epoch).contains(shard) || exists|id: Seq<char>| #[trigger]
                state.owns(id, dataset, epoch, shard),
    )
}

/// Dropping leases, whether they lapsed, were revoked or were released
/// unfinished, loses no shard: what was outstanding stays outstanding.
pub proof fn dropping_leases_loses_no_shard(
    state: LeaseState,
    gone: Set<Seq<char>>,
    dataset: Seq<char>,
    epoch: u64,
)
    requires
        state.has_pool(dataset, epoch),
    ensures
        state.dropped(gone).has_pool(dataset, epoch),
        outstanding(state.dropped(gone), dataset, epoch) == outstanding(state, dataset, epoch),
{
    let after = state.dropped(gone);
    assert forall|shard: u32|
        outstanding(after, dataset, epoch).contains(shard) == outstanding(
            state,
            dataset,
            epoch,
        ).contains(shard) by {
        if exists|id: Seq<char>| #[trigger] state.owns(id, dataset, epoch, shard) {
            let id = choose|id: Seq<char>| #[trigger] state.owns(id, dataset, epoch, shard);
            if gone.contains(id) {
                assert(state.freed(gone, dataset, epoch).contains(shard));
            } else {
                assert(after.owns(id, dataset, epoch, shard));
            }
        }
        if exists|id: Seq<char>| #[trigger] after.owns(id, dataset, epoch, shard) {
            let id = choose|id: Seq<char>| #[trigger] after.owns(id, dataset, epoch, shard);
            assert(state.owns(id, dataset, epoch, shard));
        }
        if state.freed(gone, dataset, epoch).contains(shard) {
            let id = choose|id: Seq<char>|
                gone.contains(id) && #[trigger] state.owns(id, dataset, epoch, shard);
        }
    }
    assert(outstanding(after, dataset, epoch) =~= outstanding(state, dataset, epoch));
}

proof fn lemma_swept_first(state: LeaseState, dataset: Seq<char>, epoch: u64, now: nat)
    requires
        state.consistent(),
    ensures
        state.expired(now).consistent(),
        state.expired(now).datasets.dom() == state.datasets.dom(),
        state.datasets.contains_key(dataset) ==> state.expired(now).datasets[dataset].num_shards
            == state.datasets[dataset].num_shards,
        state.expired(now).has_pool(dataset, epoch) == state.has_pool(dataset, epoch),
        state.has_pool(dataset, epoch) ==> outstanding(state.expired(now), dataset, epoch)
            == outstanding(state, dataset, epoch),
{
    state.lemma_dropped_consistent(state.due(now));
    assert(state.expired(now).datasets.dom() =~= state.datasets.dom());
    if state.has_pool(dataset, epoch) {
        dropping_leases_loses_no_shard(state, state.due(now), dataset, epoch);
    }
}

/// What an epoch has outstanding after an acquire: what it had before, or every
/// shard of the dataset if it is the epoch's first.
proof fn lemma_acquire(
    state: LeaseState,
    worker: Seq<char>,
    dataset: Seq<char>,
    epoch: u64,
    requested: u32,
    now: nat,
    uuid: Seq<char>,
    d: Seq<char>,
    e: u64,
)
    requires
        state.consistent(),
        !state.expired(now).leases.contains_key("lease-"@ + uuid),
    ensures
        ({
            let after = state.acquire(worker, dataset, epoch, requested, now, uuid).0;
            &&& after.consistent()
            &&& after.datasets.dom() == state.datasets.dom()
            &&& state.datasets.contains_key(d) ==> after.datasets[d].num_shards
                == state.datasets[d].num_shards
            &&& after.has_pool(d, e) <==> state.has_pool(d, e) || (d == dataset && e == epoch
                && state.datasets.contains_key(d))
            &&& state.has_pool(d, e) ==> outstanding(after, d, e) == outstanding(state, d, e)
            &&& !state.has_pool(d, e) && after.has_pool(d, e) ==> outstanding(after, d, e)
                == pool::all_shards(state.datasets[d].num_shards)
        }),
{
    let swept = state.expired(now);
    lemma_swept_first(state, d, e, now);
    lemma_swept_first(state, dataset, epoch, now);
    let (after, out) = state.acquire(worker, dataset, epoch, requested, now, uuid);
    if swept.datasets.contains_key(dataset) {
        let shards = swept.opened_pool(dataset, epoch);
        let id = "lease-"@ + uuid;
        assert(after.datasets.dom() =~= state.datasets.dom());
        assert(!swept.leases.contains_key(id));
        assert(!swept.has_pool(d, e) ==> forall|l: Seq<char>, shard: u32|
            !#[trigger] swept.owns(l, d, e, shard));
        if shards == Set::<u32>::empty() {
            swept.lemma_with_pool_consistent(dataset, epoch, shards);
            assert forall|l: Seq<char>, shard: u32|
                after.owns(l, d, e, shard) == swept.owns(l, d, e, shard) by {}
            if swept.has_pool(d, e) {
                assert(outstanding(after, d, e) =~= outstanding(swept, d, e));
            } else if after.has_pool(d, e) {
                assert(outstanding(after, d, e) =~= shards);
            }
        } else {
            assert(exists|shard: u32| shards.contains(shard)) by {
                if forall|shard: u32| !shards.contains(shard) {
                    assert(shards =~= Set::<u32>::empty());
                }
            }
            let member = choose|shard: u32| shards.contains(shard);
            assert forall|shard: u32| shards.contains(shard) implies shard
                < swept.datasets[dataset].num_shards by {
                if swept.has_pool(dataset, epoch) {
                    assert(swept.pool(dataset, epoch).contains(shard));
                }
            }
            let want = state.wanted(requested);
            let granted = lease::grant(shards, want);
            grant_is_the_longest_run(shards, want, member);
            let rest = shards.difference(granted.shards());
            let taken = swept.with_pool(dataset, epoch, rest);
            swept.lemma_with_pool_consistent(dataset, epoch, rest);
            assert forall|l: Seq<char>, shard: u32|
                granted.shards().contains(shard) implies !#[trigger] taken.owns(
                l,
                dataset,
                epoch,
                shard,
            ) by {
                assert(shards.contains(shard));
                assert(taken.owns(l, dataset, epoch, shard) == swept.owns(
                    l,
                    dataset,
                    epoch,
                    shard,
                ));
            }
            assert(granted.end <= swept.datasets[dataset].num_shards) by {
                assert(granted.shards().contains((granted.end - 1) as u32));
            }
            taken.lemma_granted_consistent(out->Ok_0->0);
            let before = if swept.has_pool(d, e) {
                outstanding(swept, d, e)
            } else {
                shards
            };
            if after.has_pool(d, e) {
                let here = d == dataset && e == epoch;
                assert forall|l: Seq<char>, shard: u32|
                    #[trigger] after.owns(l, d, e, shard) == (if l == id {
                        here && granted.shards().contains(shard)
                    } else {
                        swept.owns(l, d, e, shard)
                    }) by {}
                assert forall|shard: u32|
                    outstanding(after, d, e).contains(shard) == before.contains(shard) by {
                    if exists|l: Seq<char>| #[trigger] swept.owns(l, d, e, shard) {
                        let l = choose|l: Seq<char>| #[trigger] swept.owns(l, d, e, shard);
                        assert(after.owns(l, d, e, shard));
                    }
                    if here && granted.shards().contains(shard) {
                        assert(after.owns(id, d, e, shard));
                        assert(shards.contains(shard));
                    }
                    if exists|l: Seq<char>| #[trigger] after.owns(l, d, e, shard) {
                        let l = choose|l: Seq<char>| #[trigger] after.owns(l, d, e, shard);
                        assert((l == id && here) || swept.owns(l, d, e, shard));
                    }
                }
                assert(outstanding(after, d, e) =~= before);
            }
        }
    }
}

/// Acquiring under a new name moves shards from the pool to a lease and loses
/// none.
pub proof fn acquiring_loses_no_shard(
    state: LeaseState,
    worker: Seq<char>,
    dataset: Seq<char>,
    epoch: u64,
    requested: u32,
    now: nat,
    uuid: Seq<char>,
)
    requires
        state.consistent(),
        state.has_pool(dataset, epoch),
        !state.expired(now).leases.contains_key("lease-"@ + uuid),
    ensures
        ({
            let after = state.acquire(worker, dataset, epoch, requested, now, uuid).0;
            after.has_pool(dataset, epoch) && outstanding(after, dataset, epoch) == outstanding(
                state,
                dataset,
                epoch,
            )
        }),
{
    lemma_acquire(state, worker, dataset, epoch, requested, now, uuid, dataset, epoch);
}

/// The first acquire of an epoch, under a new name, makes every shard of the
/// dataset outstanding.
pub proof fn first_acquire_puts_every_shard_up(
    state: LeaseState,
    worker: Seq<char>,
    dataset: Seq<char>,
    epoch: u64,
    requested: u32,
    now: nat,
    uuid: Seq<char>,
)
    requires
        state.consistent(),
        state.datasets.contains_key(dataset),
        !state.has_pool(dataset, epoch),
        !state.expired(now).leases.contains_key("lease-"@ + uuid),
    ensures
        ({
            let after = state.acquire(worker, dataset, epoch, requested, now, uuid).0;
            after.has_pool(dataset, epoch) && outstanding(after, dataset, epoch)
                == pool::all_shards(state.datasets[dataset].num_shards)
        }),
{
    lemma_acquire(state, worker, dataset, epoch, requested, now, uuid, dataset, epoch);
}

/// Completing a lease takes exactly its shards off what is outstanding.
pub proof fn completing_settles_exactly_its_shards(state: LeaseState, id: Seq<char>)
    requires
        state.consistent(),
        state.leases.contains_key(id),
    ensures
        ({
            let held = state.leases[id];
            let after = state.release(id, true).0;
            outstanding(after, held.dataset_id, held.epoch) == outstanding(
                state,
                held.dataset_id,
                held.epoch,
            ).difference(held.shards.shards())
        }),
{
    let held = state.leases[id];
    let after = state.release(id, true).0;
    let d = held.dataset_id;
    let e = held.epoch;
    let left = outstanding(after, d, e);
    let unsettled = outstanding(state, d, e).difference(held.shards.shards());
    assert forall|shard: u32| #[trigger] left.contains(shard) == unsettled.contains(shard) by {
        if held.shards.shards().contains(shard) {
            assert(state.owns(id, d, e, shard));
            if exists|l: Seq<char>| #[trigger] after.owns(l, d, e, shard) {
                let l = choose|l: Seq<char>| #[trigger] after.owns(l, d, e, shard);
                assert(state.owns(l, d, e, shard));
            }
        } else {
            if exists|l: Seq<char>| #[trigger] state.owns(l, d, e, shard) {
                let l = choose|l: Seq<char>| #[trigger] state.owns(l, d, e, shard);
                assert(after.owns(l, d, e, shard));
            }
            if exists|l: Seq<char>| #[trigger] after.owns(l, d, e, shard) {
                let l = choose|l: Seq<char>| #[trigger] after.owns(l, d, e, shard);
                assert(state.owns(l, d, e, shard));
            }
        }
    }
    assert(left =~= unsettled);
}

/// Fencing: a lapsed lease cannot be renewed, and its shards are back in the
/// pool for any worker to acquire.
pub proof fn lapsed_lease_is_fenced(state: LeaseState, id: Seq<char>, now: nat, shard: u32)
    requires
        state.consistent(),
        state.leases.contains_key(id),
        state.leases[id].expires_at <= now,
        state.leases[id].shards.shards().contains(shard),
    ensures
        state.renew(id, now).1 == Err::<nat, ErrorView>(ErrorView::LeaseExpired(id)),
        !state.renew(id, now).0.leases.contains_key(id),
        state.renew(id, now).0.pool(
            state.leases[id].dataset_id,
            state.leases[id].epoch,
        ).contains(shard),
{
    let d = state.leases[id].dataset_id;
    let e = state.leases[id].epoch;
    assert(state.owns(id, d, e, shard));
    assert(state.due(now).contains(id));
    assert(state.freed(state.due(now), d, e).contains(shard));
}

/// A lease that has not lapsed can be renewed: it then runs a full TTL from the
/// renewal and still covers the same shards for the same worker.
pub proof fn renewing_extends_a_live_lease(state: LeaseState, id: Seq<char>, now: nat)
    requires
        state.leases.contains_key(id),
        state.leases[id].expires_at > now,
    ensures
        state.renew(id, now).1 == Ok::<nat, ErrorView>(now + clock::millis(state.ttl_ms)),
        state.renew(id, now).0.leases[id] == (LeaseView {
            expires_at: now + clock::millis(state.ttl_ms),
            ..state.leases[id]
        }),
{
}

/// Revoking a worker leaves it without leases and touches no other lease.
pub proof fn revoked_worker_holds_nothing(state: LeaseState, worker: Seq<char>)
    ensures
        state.dropped(state.held_by(worker)).held_by(worker) == Set::<Seq<char>>::empty(),
        forall|id: Seq<char>|
            state.leases.contains_key(id) && state.leases[id].worker_id != worker ==>
                #[trigger] state.dropped(state.held_by(worker)).leases.contains_key(id)
                && state.dropped(state.held_by(worker)).leases[id] == state.leases[id],
{
    assert(state.dropped(state.held_by(worker)).held_by(worker) =~= Set::<Seq<char>>::empty());
}

/// Registering a dataset again changes nothing, whatever shard count comes with
/// it.
pub proof fn registering_twice_is_registering_once(
    state: LeaseState,
    uri: Seq<char>,
    num_shards: u32,
    other_shards: u32,
)
    ensures
        state.registered(uri, num_shards).registered(uri, other_shards) == state.registered(
            uri,
            num_shards,
        ),
        state.registered(uri, num_shards).datasets.contains_key(lease::dataset_handle(uri)),
{
}

/// An epoch that nobody has asked for has a fresh pool: the first lease on it
/// starts at shard zero.
pub proof fn fresh_epoch_starts_at_shard_zero(
    state: LeaseState,
    worker: Seq<char>,
    dataset: Seq<char>,
    epoch: u64,
    requested: u32,
    now: nat,
    uuid: Seq<char>,
)
    requires
        state.consistent(),
        state.datasets.contains_key(dataset),
        !state.has_pool(dataset, epoch),
        state.datasets[dataset].num_shards > 0,
    ensures
        state.acquire(worker, dataset, epoch, requested, now, uuid).1 matches Ok(Some(granted))
            && granted.shards.begin == 0 && granted.shards.end > 0,
{
    let swept = state.expired(now);
    assert(!swept.has_pool(dataset, epoch));
    let shards = swept.opened_pool(dataset, epoch);
    assert(shards.contains(0));
    grant_is_the_longest_run(shards, state.wanted(requested), 0);
}

/// An epoch whose pool is empty, with no lease on it due, grants nothing.
pub proof fn exhausted_epoch_grants_nothing(
    state: LeaseState,
    worker: Seq<char>,
    dataset: Seq<char>,
    epoch: u64,
    requested: u32,
    now: nat,
    uuid: Seq<char>,
)
    requires
        state.has_pool(dataset, epoch),
        state.pool(dataset, epoch) == Set::<u32>::empty(),
        forall|id: Seq<char>| #[trigger]
            state.due(now).contains(id) ==> state.leases[id].dataset_id != dataset
                || state.leases[id].epoch != epoch,
    ensures
        state.acquire(worker, dataset, epoch, requested, now, uuid).1 == Ok::<
            Option<LeaseView>,
            ErrorView,
        >(None),
{
    let swept = state.expired(now);
    assert forall|shard: u32| !swept.pool(dataset, epoch).contains(shard) by {
        if state.freed(state.due(now), dataset, epoch).contains(shard) {
            let id = choose|id: Seq<char>|
                state.due(now).contains(id) && #[trigger] state.owns(id, dataset, epoch, shard);
        }
    }
    assert(swept.opened_pool(dataset, epoch) =~= Set::<u32>::empty());
}

/// What can be asked of the leases.
pub enum Request {
    Register { uri: Seq<char>, num_shards: u32 },
    Acquire {
        worker: Seq<char>,
        dataset: Seq<char>,
        epoch: u64,
        requested: u32,
        now: nat,
        uuid: Seq<char>,
    },
    Renew { id: Seq<char>, now: nat },
    Release { id: Seq<char>, completed: bool },
    Expire { now: nat },
    Revoke { worker: Seq<char> },
}

/// The leases after a request.
pub open spec fn after(state: LeaseState, request: Request) -> LeaseState {
    match request {
        Request::Register { uri, num_shards } => state.registered(uri, num_shards),
        Request::Acquire { worker, dataset, epoch, requested, now, uuid } => state.acquire(
            worker,
            dataset,
            epoch,
            requested,
            now,
            uuid,
        ).0,
        Request::Renew { id, now } => state.renew(id, now).0,
        Request::Release { id, completed } => state.release(id, completed).0,
        Request::Expire { now } => state.expired(now),
        Request::Revoke { worker } => state.dropped(state.held_by(worker)),
    }
}

/// The shards of an epoch that a request reports as completed.
pub open spec fn settled(
    state: LeaseState,
    request: Request,
    dataset: Seq<char>,
    epoch: u64,
) -> Set<u32> {
    Set::new(
        |shard: u32|
            request matches Request::Release { id, completed } && completed && state.owns(
                id,
                dataset,
                epoch,
                shard,
            ),
    )
}

/// A new lease gets a name that is not in use once lapsed leases are dropped.
pub open spec fn names_anew(state: LeaseState, request: Request) -> bool {
    request matches Request::Acquire { now, uuid, .. } ==> !state.expired(
        now,
    ).leases.contains_key("lease-"@ + uuid)
}

/// The leases after a series of requests.
pub open spec fn replayed(state: LeaseState, requests: Seq<Request>) -> LeaseState
    decreases requests.len(),
{
    if requests.len() == 0 {
        state
    } else {
        after(replayed(state, requests.drop_last()), requests.last())
    }
}

/// Every new lease in the series gets a name that is not in use.
pub open spec fn all_name_anew(state: LeaseState, requests: Seq<Request>) -> bool
    decreases requests.len(),
{
    requests.len() == 0 || (all_name_anew(state, requests.drop_last()) && names_anew(
        replayed(state, requests.drop_last()),
        requests.last(),
    ))
}

/// The shards of an epoch that were reported as completed in a series of
/// requests.
pub open spec fn completed(
    state: LeaseState,
    requests: Seq<Request>,
    dataset: Seq<char>,
    epoch: u64,
) -> Set<u32>
    decreases requests.len(),
{
    if requests.len() == 0 {
        Set::empty()
    } else {
        completed(state, requests.drop_last(), dataset, epoch).union(
            settled(
                replayed(state, requests.drop_last()),
                requests.last(),
                dataset,
                epoch,
            ),
        )
    }
}

proof fn lemma_same_shards(state: LeaseState, then: LeaseState, dataset: Seq<char>, epoch: u64)
    requires
        then.pool(dataset, epoch) == state.pool(dataset, epoch),
        forall|id: Seq<char>, shard: u32|
            #[trigger] then.owns(id, dataset, epoch, shard) == state.owns(
                id,
                dataset,
                epoch,
                shard,
            ),
    ensures
        outstanding(then, dataset, epoch) == outstanding(state, dataset, epoch),
{
    assert forall|shard: u32|
        outstanding(then, dataset, epoch).contains(shard) == outstanding(
            state,
            dataset,
            epoch,
        ).contains(shard) by {
        if exists|id: Seq<char>| #[trigger] state.owns(id, dataset, epoch, shard) {
            let id = choose|id: Seq<char>| #[trigger] state.owns(id, dataset, epoch, shard);
            assert(then.owns(id, dataset, epoch, shard));
        }
    }
    assert(outstanding(then, dataset, epoch) =~= outstanding(state, dataset, epoch));
}

proof fn lemma_one_request(state: LeaseState, request: Request, dataset: Seq<char>, epoch: u64)
    requires
        state.consistent(),
        names_anew(state, request),
    ensures
        ({
            let then = after(state, request);
            let done = settled(state, request, dataset, epoch);
            &&& then.consistent()
            &&& state.datasets.contains_key(dataset) ==> then.datasets.contains_key(dataset)
                && then.datasets[dataset].num_shards == state.datasets[dataset].num_shards
            &&& state.has_pool(dataset, epoch) ==> then.has_pool(dataset, epoch) && outstanding(
                then,
                dataset,
                epoch,
            ) == outstanding(state, dataset, epoch).difference(done) && done.subset_of(
                outstanding(state, dataset, epoch),
            )
            &&& !state.has_pool(dataset, epoch) ==> done == Set::<u32>::empty()
            &&& !state.has_pool(dataset, epoch) && then.has_pool(dataset, epoch)
                ==> state.datasets.contains_key(dataset) && outstanding(then, dataset, epoch)
                == pool::all_shards(state.datasets[dataset].num_shards)
        }),
{
    let then = after(state, request);
    let done = settled(state, request, dataset, epoch);
    assert forall|id: Seq<char>, shard: u32| #[trigger]
        state.owns(id, dataset, epoch, shard) implies state.has_pool(dataset, epoch)
        && outstanding(state, dataset, epoch).contains(shard) by {}
    if !state.has_pool(dataset, epoch) {
        assert(done =~= Set::<u32>::empty());
    }
    let completing = request matches Request::Release { id, completed } && completed;
    if !completing {
        assert(done =~= Set::<u32>::empty());
        assert(outstanding(state, dataset, epoch).difference(done) =~= outstanding(
            state,
            dataset,
            epoch,
        ));
    }
    match request {
        Request::Register { uri, num_shards } => {
            assert forall|l: Seq<char>, d: Seq<char>, e: u64, shard: u32|
                then.owns(l, d, e, shard) == state.owns(l, d, e, shard) by {}
            assert forall|d: Seq<char>, e: u64| then.has_pool(d, e) == state.has_pool(d, e) && (
            state.has_pool(d, e) ==> then.pool(d, e) == state.pool(d, e) && then.datasets[d]
                == state.datasets[d]) by {}
            if state.has_pool(dataset, epoch) {
                lemma_same_shards(state, then, dataset, epoch);
            }
        },
        Request::Acquire { worker, dataset: d, epoch: e, requested, now, uuid } => {
            lemma_acquire(state, worker, d, e, requested, now, uuid, dataset, epoch);
        },
        Request::Renew { id, now } => {
            let swept = state.expired(now);
            lemma_swept_first(state, dataset, epoch, now);
            swept.lemma_same_owners_consistent(then);
            assert forall|l: Seq<char>, shard: u32|
                #[trigger] then.owns(l, dataset, epoch, shard) == swept.owns(
                    l,
                    dataset,
                    epoch,
                    shard,
                ) by {}
            lemma_same_shards(swept, then, dataset, epoch);
        },
        Request::Release { id, completed } => {
            if state.leases.contains_key(id) {
                if completed {
                    state.lemma_forget_consistent(id);
                    let held = state.leases[id];
                    if held.dataset_id == dataset && held.epoch == epoch {
                        completing_settles_exactly_its_shards(state, id);
                        assert(done =~= held.shards.shards());
                    } else {
                        assert(done =~= Set::<u32>::empty());
                        assert forall|l: Seq<char>, shard: u32|
                            #[trigger] then.owns(l, dataset, epoch, shard) == state.owns(
                                l,
                                dataset,
                                epoch,
                                shard,
                            ) by {}
                        lemma_same_shards(state, then, dataset, epoch);
                        assert(outstanding(state, dataset, epoch).difference(done)
                            =~= outstanding(state, dataset, epoch));
                    }
                } else {
                    state.lemma_dropped_consistent(set![id]);
                    if state.has_pool(dataset, epoch) {
                        dropping_leases_loses_no_shard(state, set![id], dataset, epoch);
                    }
                }
            } else {
                assert(done =~= Set::<u32>::empty());
                assert(outstanding(state, dataset, epoch).difference(done) =~= outstanding(
                    state,
                    dataset,
                    epoch,
                ));
            }
        },
        Request::Expire { now } => {
            lemma_swept_first(state, dataset, epoch, now);
        },
        Request::Revoke { worker } => {
            let gone = state.held_by(worker);
            state.lemma_dropped_consistent(gone);
            if state.has_pool(dataset, epoch) {
                dropping_leases_loses_no_shard(state, gone, dataset, epoch);
            }
        },
    }
}

/// No shard is lost and none is read twice at once: whatever is asked of a new
/// manager, every shard of an epoch that was asked for is either completed or
/// outstanding, never both, and an outstanding one is in the pool or in exactly
/// one lease. The series leaves out that a random lease name repeats one in use.
pub proof fn every_shard_is_accounted_for(
    start: LeaseState,
    requests: Seq<Request>,
    dataset: Seq<char>,
    epoch: u64,
)
    requires
        start.datasets.dom() == Set::<Seq<char>>::empty(),
        start.leases.dom() == Set::<Seq<char>>::empty(),
        start.default_shards >= 1,
        all_name_anew(start, requests),
    ensures
        ({
            let state = replayed(start, requests);
            let done = completed(start, requests, dataset, epoch);
            &&& state.consistent()
            &&& state.has_pool(dataset, epoch) ==> outstanding(state, dataset, epoch).union(done)
                == pool::all_shards(state.datasets[dataset].num_shards)
            &&& state.has_pool(dataset, epoch) ==> outstanding(state, dataset, epoch).disjoint(
                done,
            )
            &&& !state.has_pool(dataset, epoch) ==> done == Set::<u32>::empty()
            &&& forall|id: Seq<char>, shard: u32| #[trigger]
                state.owns(id, dataset, epoch, shard) ==> !state.pool(dataset, epoch).contains(
                    shard,
                )
            &&& forall|a: Seq<char>, b: Seq<char>, shard: u32|
                #![trigger state.owns(a, dataset, epoch, shard), state.owns(b, dataset, epoch, shard)]
                state.owns(a, dataset, epoch, shard) && state.owns(b, dataset, epoch, shard) ==> a
                    == b
        }),
    decreases requests.len(),
{
    let state = replayed(start, requests);
    let done = completed(start, requests, dataset, epoch);
    if requests.len() > 0 {
        let before = replayed(start, requests.drop_last());
        let earlier = completed(start, requests.drop_last(), dataset, epoch);
        let now_done = settled(before, requests.last(), dataset, epoch);
        every_shard_is_accounted_for(start, requests.drop_last(), dataset, epoch);
        lemma_one_request(before, requests.last(), dataset, epoch);
        if before.has_pool(dataset, epoch) {
            assert(outstanding(state, dataset, epoch).union(done) =~= outstanding(
                before,
                dataset,
                epoch,
            ).union(earlier));
        } else {
            assert(done =~= Set::<u32>::empty());
            if state.has_pool(dataset, epoch) {
                assert(outstanding(state, dataset, epoch).union(done) =~= outstanding(
                    state,
                    dataset,
                    epoch,
                ));
            }
        }
    } else {
        assert forall|id: Seq<char>| !start.leases.contains_key(id) by {}
        assert forall|id: Seq<char>, d: Seq<char>, e: u64, shard: u32|
            !start.owns(id, d, e, shard) by {}
        assert forall|d: Seq<char>, e: u64| !start.has_pool(d, e) by {}
    }
}

/// Registering a URI that is not known yet files a dataset with exactly the shard
/// count given, of which no epoch has been asked for. Nothing else changes.
pub proof fn a_new_dataset_has_the_shards_it_was_given(
    state: LeaseState,
    uri: Seq<char>,
    num_shards: u32,
)
    requires
        !state.datasets.contains_key(lease::dataset_handle(uri)),
    ensures
        ({
            let after = state.registered(uri, num_shards);
            let id = lease::dataset_handle(uri);
            &&& after.datasets.contains_key(id)
            &&& after.datasets[id].num_shards == num_shards
            &&& forall|epoch: u64| !#[trigger] after.datasets[id].pools.contains_key(epoch)
            &&& forall|other: Seq<char>|
                other != id ==> (#[trigger] after.datasets.contains_key(other)
                    <==> state.datasets.contains_key(other))
            &&& forall|other: Seq<char>|
                other != id && state.datasets.contains_key(other)
                    ==> #[trigger] after.datasets[other] == state.datasets[other]
            &&& after.leases == state.leases
            &&& after.ttl_ms == state.ttl_ms
            &&& after.default_shards == state.default_shards
        }),
{
}

/// After a dataset of `num_shards` shards was registered, the first acquire of an
/// epoch under a new name leaves every index below `num_shards` in the pool or in
/// a lease of that epoch, and no other index.
pub proof fn a_new_dataset_offers_every_shard(
    state: LeaseState,
    uri: Seq<char>,
    num_shards: u32,
    worker: Seq<char>,
    epoch: u64,
    requested: u32,
    now: nat,
    uuid: Seq<char>,
    shard: u32,
)
    requires
        state.consistent(),
        !state.datasets.contains_key(lease::dataset_handle(uri)),
        !state.expired(now).leases.contains_key("lease-"@ + uuid),
    ensures
        ({
            let id = lease::dataset_handle(uri);
            let after = state.registered(uri, num_shards).acquire(
                worker,
                id,
                epoch,
                requested,
                now,
                uuid,
            ).0;
            let leased = exists|l: Seq<char>| #[trigger]
                after.leases.contains_key(l) && after.leases[l].dataset_id == id
                    && after.leases[l].epoch == epoch && after.leases[l].shards.begin <= shard
                    < after.leases[l].shards.end;
            shard < num_shards <==> after.datasets[id].pools[epoch].contains(shard) || leased
        }),
{
    let id = lease::dataset_handle(uri);
    let known = state.registered(uri, num_shards);
    lemma_one_request(state, Request::Register { uri, num_shards }, id, epoch);
    assert(known.expired(now).leases =~= state.expired(now).leases);
    lemma_acquire(known, worker, id, epoch, requested, now, uuid, id, epoch);
    let after = known.acquire(worker, id, epoch, requested, now, uuid).0;
    assert(outstanding(after, id, epoch).contains(shard) <==> shard < num_shards);
    if exists|l: Seq<char>| #[trigger] after.owns(l, id, epoch, shard) {
        let l = choose|l: Seq<char>| #[trigger] after.owns(l, id, epoch, shard);
        assert(after.leases.contains_key(l));
    }
    if exists|l: Seq<char>| #[trigger]
        after.leases.contains_key(l) && after.leases[l].dataset_id == id && after.leases[l].epoch
            == epoch && after.leases[l].shards.begin <= shard < after.leases[l].shards.end {
        let l = choose|l: Seq<char>| #[trigger]
            after.leases.contains_key(l) && after.leases[l].dataset_id == id
                && after.leases[l].epoch == epoch && after.leases[l].shards.begin <= shard
                < after.leases[l].shards.end;
        assert(after.owns(l, id, epoch, shard));
    }
}

/// Whoever asks a fresh epoch for all of its shards gets all of them.
pub proof fn a_fresh_epoch_can_be_leased_whole(
    state: LeaseState,
    worker: Seq<char>,
    dataset: Seq<char>,
    epoch: u64,
    requested: u32,
    now: nat,
    uuid: Seq<char>,
)
    requires
        state.consistent(),
        state.datasets.contains_key(dataset),
        !state.has_pool(dataset, epoch),
        0 < state.datasets[dataset].num_shards <= requested,
    ensures
        state.acquire(worker, dataset, epoch, requested, now, uuid).1 matches Ok(Some(granted))
            && granted.shards.begin == 0 && granted.shards.end
            == state.datasets[dataset].num_shards,
{
    let swept = state.expired(now);
    lemma_swept_first(state, dataset, epoch, now);
    let shards = swept.opened_pool(dataset, epoch);
    let total = state.datasets[dataset].num_shards;
    assert(shards.contains(0));
    assert(state.wanted(requested) == requested);
    grant_is_the_longest_run(shards, requested, 0);
    let granted = lease::grant(shards, requested);
    assert(granted.begin == 0);
    if granted.end < total {
        assert(shards.contains(granted.end));
    }
    assert(granted.end <= total) by {
        assert(granted.shards().contains((granted.end - 1) as u32));
    }
}

/// What is granted is a run of the epoch's unassigned shards from the smallest one
/// on: as many as were asked for, or the default where none were, and fewer only
/// where the run ends. The lease is under its new name, for that worker, dataset
/// and epoch, and runs for the TTL from now on. Those shards leave the pool, and
/// nothing else changes but that lapsed leases are dropped first.
pub proof fn a_grant_is_what_was_asked_for(
    state: LeaseState,
    worker: Seq<char>,
    dataset: Seq<char>,
    epoch: u64,
    requested: u32,
    now: nat,
    uuid: Seq<char>,
    shard: u32,
)
    requires
        state.consistent(),
    ensures
        ({
            let swept = state.expired(now);
            let (after, out) = state.acquire(worker, dataset, epoch, requested, now, uuid);
            let fresh = !swept.datasets[dataset].pools.contains_key(epoch);
            let free = if fresh {
                shard < state.datasets[dataset].num_shards
            } else {
                swept.datasets[dataset].pools[epoch].contains(shard)
            };
            let want = if requested == 0 {
                state.default_shards
            } else {
                requested
            };
            &&& out is Err <==> !state.datasets.contains_key(dataset)
            &&& out is Err ==> out == Err::<Option<LeaseView>, ErrorView>(
                ErrorView::UnknownDataset(dataset),
            ) && after == swept
            &&& out is Ok && out->Ok_0 is None ==> !free
            &&& out is Ok && out->Ok_0 is None ==> after.leases == swept.leases
            &&& out is Ok && out->Ok_0 is Some ==> {
                let lease = out->Ok_0->0;
                let shards = lease.shards;
                &&& lease.lease_id == "lease-"@ + uuid
                &&& lease.worker_id == worker
                &&& lease.dataset_id == dataset
                &&& lease.epoch == epoch
                &&& lease.expires_at == now + state.ttl_ms * 1000000
                &&& shards.begin < shards.end
                &&& shards.end - shards.begin <= want
                &&& shards.begin <= shard < shards.end ==> free
                &&& shard < shards.begin ==> !free
                &&& shard == shards.end && shards.end - shards.begin < want ==> !free
                &&& after.leases == swept.leases.insert("lease-"@ + uuid, lease)
                &&& after.datasets[dataset].pools[epoch].contains(shard) <==> free && !(
                shards.begin <= shard < shards.end)
            }
            &&& forall|d: Seq<char>, e: u64|
                (d != dataset || e != epoch) && swept.datasets.contains_key(d) ==> {
                    &&& #[trigger] after.datasets[d].pools.contains_key(e)
                        <==> swept.datasets[d].pools.contains_key(e)
                    &&& swept.datasets[d].pools.contains_key(e) ==> after.datasets[d].pools[e]
                        == swept.datasets[d].pools[e]
                }
            &&& after.ttl_ms == state.ttl_ms
            &&& after.default_shards == state.default_shards
        }),
{
    let swept = state.expired(now);
    lemma_swept_first(state, dataset, epoch, now);
    let (after, out) = state.acquire(worker, dataset, epoch, requested, now, uuid);
    assert(swept.datasets.contains_key(dataset) <==> state.datasets.contains_key(dataset));
    if swept.datasets.contains_key(dataset) {
        let shards = swept.opened_pool(dataset, epoch);
        assert(shards.contains(shard) <==> if swept.has_pool(dataset, epoch) {
            swept.pool(dataset, epoch).contains(shard)
        } else {
            shard < state.datasets[dataset].num_shards
        });
        if shards != Set::<u32>::empty() {
            assert(exists|shard: u32| shards.contains(shard)) by {
                if forall|shard: u32| !shards.contains(shard) {
                    assert(shards =~= Set::<u32>::empty());
                }
            }
            let member = choose|shard: u32| shards.contains(shard);
            if shards.contains(u32::MAX) && swept.has_pool(dataset, epoch) {
                assert(swept.pool(dataset, epoch).contains(u32::MAX));
            }
            let want = state.wanted(requested);
            grant_is_the_longest_run(shards, want, member);
            let granted = lease::grant(shards, want);
            assert(granted.shards().contains(shard) <==> granted.begin <= shard < granted.end);
        }
    }
}

/// Lapsed leases, and no others, are dropped: a lease stays exactly if its expiry
/// lies ahead, and stays as it is. An epoch's pool gains exactly the shards of its
/// dropped leases.
pub proof fn only_lapsed_leases_are_dropped(
    state: LeaseState,
    now: nat,
    id: Seq<char>,
    dataset: Seq<char>,
    epoch: u64,
    shard: u32,
)
    ensures
        ({
            let after = state.expired(now);
            let returned = exists|l: Seq<char>| #[trigger]
                state.leases.contains_key(l) && state.leases[l].expires_at <= now
                    && state.leases[l].dataset_id == dataset && state.leases[l].epoch == epoch
                    && state.leases[l].shards.begin <= shard < state.leases[l].shards.end;
            &&& after.leases.contains_key(id) <==> state.leases.contains_key(id)
                && state.leases[id].expires_at > now
            &&& after.leases.contains_key(id) ==> after.leases[id] == state.leases[id]
            &&& state.due(now).contains(id) <==> state.leases.contains_key(id)
                && state.leases[id].expires_at <= now
            &&& after.datasets.contains_key(dataset) <==> state.datasets.contains_key(dataset)
            &&& state.datasets.contains_key(dataset) ==> {
                &&& after.datasets[dataset].num_shards == state.datasets[dataset].num_shards
                &&& after.datasets[dataset].pools.contains_key(epoch)
                    <==> state.datasets[dataset].pools.contains_key(epoch)
                &&& state.datasets[dataset].pools.contains_key(epoch) ==> (
                after.datasets[dataset].pools[epoch].contains(shard)
                    <==> state.datasets[dataset].pools[epoch].contains(shard) || returned)
            }
            &&& after.ttl_ms == state.ttl_ms
            &&& after.default_shards == state.default_shards
        }),
{
    let gone = state.due(now);
    lemma_returned(state, gone, dataset, epoch, shard);
    assert forall|l: Seq<char>| #[trigger] state.leases.contains_key(l) implies (gone.contains(l)
        <==> state.leases[l].expires_at <= now) by {}
}

/// The shards that dropped leases leave behind are those that they covered.
pub proof fn lemma_returned(
    state: LeaseState,
    gone: Set<Seq<char>>,
    dataset: Seq<char>,
    epoch: u64,
    shard: u32,
)
    ensures
        state.freed(gone, dataset, epoch).contains(shard) <==> exists|l: Seq<char>| #[trigger]
            state.leases.contains_key(l) && gone.contains(l) && state.leases[l].dataset_id
                == dataset && state.leases[l].epoch == epoch && state.leases[l].shards.begin
                <= shard < state.leases[l].shards.end,
{
    if state.freed(gone, dataset, epoch).contains(shard) {
        let l = choose|l: Seq<char>|
            gone.contains(l) && #[trigger] state.owns(l, dataset, epoch, shard);
        assert(state.leases.contains_key(l));
    }
    if exists|l: Seq<char>| #[trigger]
        state.leases.contains_key(l) && gone.contains(l) && state.leases[l].dataset_id == dataset
            && state.leases[l].epoch == epoch && state.leases[l].shards.begin <= shard
            < state.leases[l].shards.end {
        let l = choose|l: Seq<char>| #[trigger]
            state.leases.contains_key(l) && gone.contains(l) && state.leases[l].dataset_id
                == dataset && state.leases[l].epoch == epoch && state.leases[l].shards.begin
                <= shard < state.leases[l].shards.end;
        assert(state.owns(l, dataset, epoch, shard));
    }
}

/// Revoking a worker drops exactly its leases, and every pool gains exactly the
/// shards that these covered.
pub proof fn revoking_returns_what_the_worker_held(
    state: LeaseState,
    worker: Seq<char>,
    id: Seq<char>,
    dataset: Seq<char>,
    epoch: u64,
    shard: u32,
)
    ensures
        ({
            let after = state.dropped(state.held_by(worker));
            let returned = exists|l: Seq<char>| #[trigger]
                state.leases.contains_key(l) && state.leases[l].worker_id == worker
                    && state.leases[l].dataset_id == dataset && state.leases[l].epoch == epoch
                    && state.leases[l].shards.begin <= shard < state.leases[l].shards.end;
            &&& after.leases.contains_key(id) <==> state.leases.contains_key(id)
                && state.leases[id].worker_id != worker
            &&& after.leases.contains_key(id) ==> after.leases[id] == state.leases[id]
            &&& state.held_by(worker).contains(id) <==> state.leases.contains_key(id)
                && state.leases[id].worker_id == worker
            &&& state.datasets.contains_key(dataset)
                && state.datasets[dataset].pools.contains_key(epoch) ==> (
            after.datasets[dataset].pools[epoch].contains(shard)
                <==> state.datasets[dataset].pools[epoch].contains(shard) || returned)
        }),
{
    let gone = state.held_by(worker);
    lemma_returned(state, gone, dataset, epoch, shard);
    assert forall|l: Seq<char>| #[trigger] state.leases.contains_key(l) implies (gone.contains(l)
        <==> state.leases[l].worker_id == worker) by {}
}

/// A renewal succeeds exactly for a lease whose expiry lies ahead. It then lapses
/// a full TTL after now and is otherwise as it was.
pub proof fn a_renewal_runs_for_the_ttl(state: LeaseState, id: Seq<char>, now: nat)
    ensures
        ({
            let (after, out) = state.renew(id, now);
            let until = (now + state.ttl_ms * 1000000) as nat;
            &&& out is Ok <==> state.leases.contains_key(id) && state.leases[id].expires_at > now
            &&& out is Ok ==> out->Ok_0 == until
            &&& out is Err ==> out == Err::<nat, ErrorView>(ErrorView::LeaseExpired(id))
            &&& out is Err ==> !after.leases.contains_key(id)
            &&& out is Ok ==> {
                let lease = after.leases[id];
                &&& after.leases.contains_key(id)
                &&& lease.expires_at == until
                &&& lease.lease_id == state.leases[id].lease_id
                &&& lease.worker_id == state.leases[id].worker_id
                &&& lease.dataset_id == state.leases[id].dataset_id
                &&& lease.epoch == state.leases[id].epoch
                &&& lease.shards == state.leases[id].shards
            }
            &&& after.datasets == state.expired(now).datasets
            &&& forall|other: Seq<char>|
                other != id ==> (#[trigger] after.leases.contains_key(other)
                    <==> state.leases.contains_key(other) && state.leases[other].expires_at > now)
            &&& forall|other: Seq<char>|
                other != id && #[trigger] after.leases.contains_key(other) ==> after.leases[other]
                    == state.leases[other]
        }),
{
}

/// Releasing ends exactly that lease. Shards that were completed do not come back;
/// those that were not are in their pool again, and no other pool changes. A lease
/// that is not known is an error and changes nothing.
pub proof fn releasing_ends_one_lease(
    state: LeaseState,
    id: Seq<char>,
    completed: bool,
    dataset: Seq<char>,
    epoch: u64,
    shard: u32,
)
    ensures
        ({
            let (after, out) = state.release(id, completed);
            let held = state.leases[id];
            let covered = held.dataset_id == dataset && held.epoch == epoch && held.shards.begin
                <= shard < held.shards.end;
            &&& out is Ok <==> state.leases.contains_key(id)
            &&& out is Err ==> after == state && out == Err::<(), ErrorView>(
                ErrorView::UnknownLease(id),
            )
            &&& !after.leases.contains_key(id)
            &&& forall|other: Seq<char>|
                other != id ==> (#[trigger] after.leases.contains_key(other)
                    <==> state.leases.contains_key(other))
            &&& forall|other: Seq<char>|
                other != id && #[trigger] after.leases.contains_key(other) ==> after.leases[other]
                    == state.leases[other]
            &&& completed ==> after.datasets == state.datasets
            &&& out is Ok && !completed && state.datasets.contains_key(dataset)
                && state.datasets[dataset].pools.contains_key(epoch) ==> (
            after.datasets[dataset].pools[epoch].contains(shard)
                <==> state.datasets[dataset].pools[epoch].contains(shard) || covered)
        }),
{
    if state.leases.contains_key(id) && !completed {
        lemma_returned(state, set![id], dataset, epoch, shard);
        assert(set![id].contains(id));
    }
}

/// A list of leases is complete: it holds each lease in question once, as it is
/// known, and no other.
pub proof fn lease_lists_are_complete(
    state: LeaseState,
    listed: Seq<LeaseView>,
    ids: Set<Seq<char>>,
    id: Seq<char>,
)
    requires
        state.consistent(),
        state.enumerates(listed, ids),
    ensures
        ids.contains(id) && state.leases.contains_key(id) ==> exists|i: int|
            0 <= i < listed.len() && #[trigger] listed[i] == state.leases[id],
        forall|i: int|
            0 <= i < listed.len() ==> ids.contains((#[trigger] listed[i]).lease_id)
                && state.leases.contains_key(listed[i].lease_id) && listed[i]
                == state.leases[listed[i].lease_id],
        forall|i: int, j: int|
            0 <= i < j < listed.len() ==> listed[i].lease_id != listed[j].lease_id,
{
    if ids.contains(id) && state.leases.contains_key(id) {
        assert(listed.contains(state.leases[id]));
    }
    assert forall|i: int| 0 <= i < listed.len() implies ids.contains(
        (#[trigger] listed[i]).lease_id,
    ) && state.leases.contains_key(listed[i].lease_id) && listed[i]
        == state.leases[listed[i].lease_id] by {
        assert(listed.contains(listed[i]));
    }
    assert forall|i: int, j: int| 0 <= i < j < listed.len() implies listed[i].lease_id
        != listed[j].lease_id by {
        assert(listed.contains(listed[i]) && listed.contains(listed[j]));
        assert(listed[i] != listed[j]);
    }
}

/// A lease, and what came of asking for one, are seen as they are.
pub proof fn leases_are_seen_as_they_are(
    held: ShardLease,
    acquired: Result<Option<ShardLease>, DtrError>,
    renewed: Result<u128, DtrError>,
)
    ensures
        held@.lease_id == held.lease_id@,
        held@.worker_id == held.worker_id@,
        held@.dataset_id == held.dataset_id@,
        held@.epoch == held.epoch,
        held@.shards == held.shards,
        held@.expires_at == held.expires_at,
        match acquired {
            Ok(Some(granted)) => lease::acquired(acquired) == Ok::<Option<LeaseView>, ErrorView>(
                Some(granted@),
            ),
            Ok(None) => lease::acquired(acquired) == Ok::<Option<LeaseView>, ErrorView>(None),
            Err(e) => lease::acquired(acquired) == Err::<Option<LeaseView>, ErrorView>(e@),
        },
        match renewed {
            Ok(until) => lease::renewed(renewed) == Ok::<nat, ErrorView>(until as nat),
            Err(e) => lease::renewed(renewed) == Err::<nat, ErrorView>(e@),
        },
{
}

/// The handle of a dataset is the hash of its URI in sixteen hexadecimal digits,
/// behind a mark of its kind.
pub proof fn datasets_are_named_by_their_uri(uri: Seq<char>)
    ensures
        lease::dataset_handle(uri) == "ds-"@ + text::hex_fixed(
            hash::fnv1a(vstd::utf8::encode_utf8(uri)) as nat,
            16,
        ),
{
}

} // verus!
