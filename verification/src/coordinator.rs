//! Control-plane state: membership, shard leases, checkpoint barriers.
//!
//! All of it lives behind [`Coordinator`]. Every deadline is measured on the
//! one clock that the coordinator starts.

use crate::barrier::BarrierManager;
use crate::barrier::BarrierState;
use crate::clock;
use crate::clock::Clock;
use crate::config::CoordinatorSection;
use crate::config::RuntimeConfig;
use crate::error::ErrorView;
use crate::lease::LeaseManager;
use crate::lease::LeaseState;
use crate::lease::LeaseView;
use crate::lease::ShardLease;
use crate::lease_laws;
use crate::membership::Membership;
use crate::membership::MembershipState;
use crate::membership::WorkerInfo;
use crate::membership::WorkerView;
use crate::membership_laws;
use crate::outside;
use crate::types::QuorumPolicy;
use vstd::prelude::*;

verus! {

/// Aggregates the three control-plane managers behind one handle.
pub struct Coordinator {
    pub membership: Membership,
    pub leases: LeaseManager,
    pub barriers: BarrierManager,
    pub clock: Clock,
}

/// What a coordinator knows.
#[verifier::ext_equal]
pub struct CoordinatorState {
    pub membership: MembershipState,
    pub leases: LeaseState,
    pub barriers: BarrierState,
}

impl View for Coordinator {
    type V = CoordinatorState;

    open spec fn view(&self) -> CoordinatorState {
        CoordinatorState {
            membership: self.membership@,
            leases: self.leases@,
            barriers: self.barriers@,
        }
    }
}

impl CoordinatorState {
    /// What a coordinator starts with.
    pub open spec fn initial(
        cfg: CoordinatorSection,
        quorum: QuorumPolicy,
        barrier_timeout_ms: u64,
    ) -> CoordinatorState {
        CoordinatorState {
            membership: MembershipState {
                workers: Map::empty(),
                heartbeat_interval_ms: cfg.heartbeat_interval_ms,
                missed_allowed: cfg.missed_heartbeats_allowed,
            },
            leases: LeaseState {
                datasets: Map::empty(),
                leases: Map::empty(),
                ttl_ms: cfg.lease_ttl_ms,
                default_shards: if cfg.default_shards_per_lease == 0 {
                    1
                } else {
                    cfg.default_shards_per_lease
                },
            },
            barriers: BarrierState {
                barriers: Map::empty(),
                by_step: Map::empty(),
                quorum,
                timeout_ms: barrier_timeout_ms,
            },
        }
    }

    pub open spec fn consistent(self) -> bool {
        self.membership.consistent() && self.leases.consistent() && self.barriers.consistent()
    }

    /// Silent workers are evicted, the leases they held are dropped with their
    /// shards returned, and then lapsed leases are dropped too.
    pub open spec fn swept(self, now: nat) -> CoordinatorState {
        CoordinatorState {
            membership: self.membership.swept(now),
            leases: self.leases.dropped(
                self.leases.held_by_any(self.membership.silent(now)),
            ).expired(now),
            ..self
        }
    }
}

/// The names of the first `count` workers in a list.
spec fn reached(workers: Seq<WorkerView>, count: int) -> Set<Seq<char>> {
    Set::new(
        |id: Seq<char>| exists|j: int| 0 <= j < count && #[trigger] workers[j].worker_id == id,
    )
}

/// What a sweep did.
pub struct Sweep {
    /// The evicted workers, each with the leases that were revoked from it.
    pub evicted: Vec<(WorkerInfo, Vec<ShardLease>)>,
    /// The leases that lapsed.
    pub expired: Vec<ShardLease>,
}

impl Sweep {
    /// The lists are complete: every silent worker with the leases it held, and
    /// every other lease that lapsed, each once.
    pub open spec fn tells(self, state: CoordinatorState, now: nat) -> bool {
        let silent = state.membership.silent(now);
        let rest = state.leases.dropped(state.leases.held_by_any(silent));
        &&& state.membership.enumerates(
            self.evicted@.map_values(|e: (WorkerInfo, Vec<ShardLease>)| e.0@),
            silent,
        )
        &&& forall|i: int|
            0 <= i < self.evicted@.len() ==> state.leases.enumerates(
                (#[trigger] self.evicted@[i]).1@.map_values(|l: ShardLease| l@),
                state.leases.held_by(self.evicted@[i].0.worker_id@),
            )
        &&& rest.enumerates(self.expired@.map_values(|l: ShardLease| l@), rest.due(now))
    }
}

impl Coordinator {
    pub open spec fn wf(self) -> bool {
        self.membership.wf() && self.leases.wf() && self.barriers.wf()
    }

    /// The latest reading of the clock that deadlines are measured on.
    pub open spec fn latest(self) -> nat {
        self.clock.latest()
    }

    /// What well-formedness says about the state.
    pub proof fn lemma_wf(&self)
        requires
            self.wf(),
        ensures
            self@.consistent(),
    {
        self.membership.lemma_wf();
        self.leases.lemma_wf();
        self.barriers.lemma_wf();
    }

    pub fn new(cfg: &CoordinatorSection, quorum: QuorumPolicy, barrier_timeout_ms: u64) -> (out:
        Self)
        ensures
            out.wf(),
            out@ == CoordinatorState::initial(*cfg, quorum, barrier_timeout_ms),
            out.latest() == 0,
    {
        let clock = Clock::start();
        Coordinator {
            membership: Membership::with_clock(
                clock,
                cfg.heartbeat_interval_ms,
                cfg.missed_heartbeats_allowed,
            ),
            leases: LeaseManager::with_clock(
                clock,
                cfg.lease_ttl_ms,
                cfg.default_shards_per_lease,
            ),
            barriers: BarrierManager::with_clock(clock, quorum, barrier_timeout_ms),
            clock,
        }
    }

    /// The reading of the clock that every deadline is measured on.
    /// Readings never go back, and taking one changes nothing else.
    pub fn now(&mut self) -> (out: u128)
        ensures
            old(self).latest() <= out <= outside::MAX_NANOS,
            *final(self) == (Coordinator { clock: final(self).clock, ..*old(self) }),
            final(self).latest() == out,
    {
        self.clock.now()
    }

    /// Evicts dead workers, cascades into lease revocation, and expires due
    /// leases.
    pub fn sweep(&mut self) -> (out: Sweep)
        requires
            old(self).wf(),
            old(self)@.membership.missed_allowed < u32::MAX,
            old(self)@.membership.patience() <= outside::MAX_NANOS,
        ensures
            final(self).wf(),
            old(self).latest() <= final(self).latest() <= outside::MAX_NANOS,
            final(self)@ == old(self)@.swept(final(self).latest()),
            out.tells(old(self)@, final(self).latest()),
    {
        let now: u128 = self.now();
        self.sweep_at(now)
    }

    /// [`Coordinator::sweep`] at the clock reading `now`.
    pub fn sweep_at(&mut self, now: u128) -> (out: Sweep)
        requires
            old(self).wf(),
            old(self)@.membership.missed_allowed < u32::MAX,
            old(self)@.membership.patience() <= outside::MAX_NANOS,
        ensures
            final(self).wf(),
            final(self)@ == old(self)@.swept(now as nat),
            out.tells(old(self)@, now as nat),
            final(self).latest() == old(self).latest(),
    {
        let ghost start = self@;
        proof {
            self.lemma_wf();
        }
        let workers: Vec<WorkerInfo> = self.membership.sweep_expired_at(now);
        let ghost silent = start.membership.silent(now as nat);
        let ghost gone = workers@.map_values(|w: WorkerInfo| w@);
        let mut evicted: Vec<(WorkerInfo, Vec<ShardLease>)> = Vec::new();
        let mut i: usize = 0;
        proof {
            assert(start.leases.held_by_any(reached(gone, 0)) =~= Set::<Seq<char>>::empty());
            start.leases.lemma_drop_none();
        }
        while i < workers.len()
            invariant
                i <= workers@.len(),
                start.consistent(),
                self.wf(),
                self.clock == old(self).clock,
                gone == workers@.map_values(|w: WorkerInfo| w@),
                start.membership.enumerates(gone, silent),
                self@ == (CoordinatorState {
                    membership: start.membership.swept(now as nat),
                    leases: start.leases.dropped(
                        start.leases.held_by_any(reached(gone, i as int)),
                    ),
                    ..start
                }),
                evicted@.len() == i,
                forall|j: int| 0 <= j < i ==> (#[trigger] evicted@[j]).0@ == gone[j],
                forall|j: int|
                    0 <= j < i ==> start.leases.enumerates(
                        (#[trigger] evicted@[j]).1@.map_values(|l: ShardLease| l@),
                        start.leases.held_by(evicted@[j].0.worker_id@),
                    ),
            decreases workers@.len() - i,
        {
            let ghost before = self@.leases;
            let ghost worker = gone[i as int];
            let ghost earlier = start.leases.held_by_any(reached(gone, i as int));
            proof {
                assert(gone.contains(worker));
                assert(!reached(gone, i as int).contains(worker.worker_id)) by {
                    if reached(gone, i as int).contains(worker.worker_id) {
                        let j = choose|j: int|
                            0 <= j < i && #[trigger] gone[j].worker_id == worker.worker_id;
                        assert(gone.contains(gone[j]));
                    }
                }
                assert(before.held_by(worker.worker_id) =~= start.leases.held_by(
                    worker.worker_id,
                ));
                start.leases.lemma_drop_union(earlier, start.leases.held_by(worker.worker_id));
                assert(earlier.union(start.leases.held_by(worker.worker_id))
                    =~= start.leases.held_by_any(reached(gone, i + 1))) by {
                    assert forall|w: Seq<char>|
                        reached(gone, i + 1).contains(w) == (w == worker.worker_id || reached(
                            gone,
                            i as int,
                        ).contains(w)) by {
                        if w == worker.worker_id {
                            assert(gone[i as int].worker_id == w);
                        }
                        if reached(gone, i as int).contains(w) {
                            let j = choose|j: int| 0 <= j < i && #[trigger] gone[j].worker_id == w;
                            assert(0 <= j < i + 1);
                        }
                    }
                }
            }
            let revoked: Vec<ShardLease> = self.leases.revoke_worker(&workers[i].worker_id);
            assert(start.leases.enumerates(
                revoked@.map_values(|l: ShardLease| l@),
                start.leases.held_by(worker.worker_id),
            )) by {
                assert forall|lease: LeaseView|
                    start.leases.held_by(worker.worker_id).contains(lease.lease_id) implies (
                before.leases.contains_key(lease.lease_id) && before.leases[lease.lease_id]
                    == start.leases.leases[lease.lease_id]) by {
                    assert(before.held_by(worker.worker_id).contains(lease.lease_id));
                }
            }
            evicted.push((workers[i].clone(), revoked));
            i = i + 1;
        }
        proof {
            assert forall|w: Seq<char>| reached(gone, i as int).contains(w) == silent.contains(
                w,
            ) by {
                if silent.contains(w) {
                    assert(gone.contains(start.membership.workers[w]));
                    let j = gone.index_of(start.membership.workers[w]);
                    assert(gone[j].worker_id == w);
                }
                if reached(gone, i as int).contains(w) {
                    let j = choose|j: int| 0 <= j < i && #[trigger] gone[j].worker_id == w;
                    assert(gone.contains(gone[j]));
                }
            }
            assert(reached(gone, i as int) =~= silent);
            assert(evicted@.map_values(|e: (WorkerInfo, Vec<ShardLease>)| e.0@) =~= gone);
        }
        Sweep { evicted, expired: self.leases.expire_due_leases_at(now) }
    }
}

/// Eviction cascades: once a silent worker has been swept it holds no lease, and
/// every shard that it held waits in its pool for somebody else.
pub proof fn eviction_returns_the_shards(
    state: CoordinatorState,
    now: nat,
    worker: Seq<char>,
    lease: Seq<char>,
    dataset: Seq<char>,
    epoch: u64,
    shard: u32,
)
    requires
        state.consistent(),
        state.membership.silent(now).contains(worker),
        state.leases.owns(lease, dataset, epoch, shard),
        state.leases.leases[lease].worker_id == worker,
    ensures
        state.swept(now).consistent(),
        !state.swept(now).membership.workers.contains_key(worker),
        state.swept(now).leases.held_by(worker) == Set::<Seq<char>>::empty(),
        state.swept(now).leases.has_pool(dataset, epoch),
        state.swept(now).leases.pool(dataset, epoch).contains(shard),
{
    let after = state.swept(now);
    let held = state.leases.held_by_any(state.membership.silent(now));
    let dropped = state.leases.dropped(held);
    state.leases.lemma_dropped_consistent(held);
    dropped.lemma_dropped_consistent(dropped.due(now));
    assert(after.leases.held_by(worker) =~= Set::<Seq<char>>::empty());
    assert(held.contains(lease));
    assert(state.leases.freed(held, dataset, epoch).contains(shard));
    assert(after.membership.workers.dom() =~= state.membership.workers.dom().difference(
        state.membership.silent(now),
    ));
}

/// With a valid configuration a worker that renews a lease at a heartbeat still
/// holds it at any time before the next one is due.
pub proof fn leases_outlast_the_heartbeat_interval(
    cfg: RuntimeConfig,
    leases: LeaseState,
    lease: Seq<char>,
    now: nat,
    later: nat,
)
    requires
        cfg.valid(),
        leases.ttl_ms == cfg.coordinator.lease_ttl_ms,
        leases.renew(lease, now).1 is Ok,
        later < now + clock::millis(cfg.coordinator.heartbeat_interval_ms),
    ensures
        !leases.renew(lease, now).0.due(later).contains(lease),
        leases.renew(lease, now).0.renew(lease, later).1 is Ok,
{
    let ttl = cfg.coordinator.lease_ttl_ms;
    let interval = cfg.coordinator.heartbeat_interval_ms;
    assert(clock::millis(interval) <= clock::millis(ttl));
}

/// A coordinator that was restarted knows no worker: whoever sends a heartbeat
/// is told so, and registers again.
pub proof fn restart_forgets_the_workers(
    cfg: CoordinatorSection,
    quorum: QuorumPolicy,
    barrier_timeout_ms: u64,
    worker: Seq<char>,
    token: Seq<char>,
    step: u64,
    now: nat,
)
    ensures
        CoordinatorState::initial(cfg, quorum, barrier_timeout_ms).membership.heartbeat(
            worker,
            token,
            step,
            now,
        ).1 == Err::<(), ErrorView>(ErrorView::UnknownWorker(worker)),
{
}

/// A worker that keeps its heartbeats loses no lease to a sweep before the lease
/// lapses.
pub proof fn healthy_worker_keeps_its_leases(
    state: CoordinatorState,
    now: nat,
    lease: Seq<char>,
)
    requires
        state.consistent(),
        state.leases.leases.contains_key(lease),
        !state.membership.silent(now).contains(state.leases.leases[lease].worker_id),
        now < state.leases.leases[lease].expires_at,
    ensures
        state.swept(now).leases.leases.contains_key(lease),
        state.swept(now).leases.leases[lease] == state.leases.leases[lease],
{
}

/// A coordinator starts with nobody and nothing, on exactly the configured terms. A
/// lease is for at least one shard, also where none are configured.
pub proof fn a_coordinator_starts_on_its_terms(
    cfg: CoordinatorSection,
    quorum: QuorumPolicy,
    barrier_timeout_ms: u64,
    name: Seq<char>,
)
    ensures
        ({
            let state = CoordinatorState::initial(cfg, quorum, barrier_timeout_ms);
            &&& !state.membership.workers.contains_key(name)
            &&& state.membership.heartbeat_interval_ms == cfg.heartbeat_interval_ms
            &&& state.membership.missed_allowed == cfg.missed_heartbeats_allowed
            &&& !state.leases.datasets.contains_key(name)
            &&& !state.leases.leases.contains_key(name)
            &&& state.leases.ttl_ms == cfg.lease_ttl_ms
            &&& cfg.default_shards_per_lease > 0 ==> state.leases.default_shards
                == cfg.default_shards_per_lease
            &&& cfg.default_shards_per_lease == 0 ==> state.leases.default_shards == 1
            &&& !state.barriers.barriers.contains_key(name)
            &&& !state.barriers.by_step.contains_key(name)
            &&& state.barriers.quorum == quorum
            &&& state.barriers.timeout_ms == barrier_timeout_ms
        }),
{
}

/// A sweep evicts a worker exactly if it has been silent for longer than the interval
/// times one more than the heartbeats it may miss, and drops a lease exactly if it has
/// lapsed or its holder is evicted. What stays is unchanged, and an epoch's pool gains
/// exactly the shards of the dropped leases.
pub proof fn a_sweep_frees_what_the_silent_held(
    state: CoordinatorState,
    now: nat,
    worker: Seq<char>,
    id: Seq<char>,
    dataset: Seq<char>,
    epoch: u64,
    shard: u32,
)
    requires
        state.consistent(),
    ensures
        ({
            let after = state.swept(now);
            let limit = state.membership.heartbeat_interval_ms * 1000000 * (
            state.membership.missed_allowed + 1);
            let holder = state.leases.leases[id].worker_id;
            let evicted = state.membership.workers.contains_key(holder) && now
                - state.membership.workers[holder].last_heartbeat > limit;
            let pools = state.leases.datasets[dataset].pools;
            let returned = exists|l: Seq<char>| #[trigger]
                state.leases.leases.contains_key(l) && !after.leases.leases.contains_key(l)
                    && state.leases.leases[l].dataset_id == dataset && state.leases.leases[l].epoch
                    == epoch && state.leases.leases[l].shards.begin <= shard
                    < state.leases.leases[l].shards.end;
            &&& after.membership.workers.contains_key(worker)
                <==> state.membership.workers.contains_key(worker) && now
                - state.membership.workers[worker].last_heartbeat <= limit
            &&& after.membership.workers.contains_key(worker)
                ==> after.membership.workers[worker] == state.membership.workers[worker]
            &&& after.leases.leases.contains_key(id) <==> state.leases.leases.contains_key(id)
                && state.leases.leases[id].expires_at > now && !evicted
            &&& after.leases.leases.contains_key(id) ==> after.leases.leases[id]
                == state.leases.leases[id]
            &&& state.leases.datasets.contains_key(dataset) && pools.contains_key(epoch) ==> (
            after.leases.datasets[dataset].pools[epoch].contains(shard)
                <==> pools[epoch].contains(shard) || returned)
            &&& after.barriers == state.barriers
        }),
{
    membership_laws::a_sweep_goes_by_interval_and_allowance(state.membership, worker, now);
    assert forall|l: Seq<char>| #[trigger] state.leases.leases.contains_key(l) implies (
    state.leases.held_by_any(state.membership.silent(now)).contains(l) <==> {
        let holder = state.leases.leases[l].worker_id;
        &&& state.membership.workers.contains_key(holder)
        &&& now - state.membership.workers[holder].last_heartbeat
            > state.membership.heartbeat_interval_ms * 1000000 * (
        state.membership.missed_allowed + 1)
    }) by {
        membership_laws::a_sweep_goes_by_interval_and_allowance(
            state.membership,
            state.leases.leases[l].worker_id,
            now,
        );
    }
    let gone = state.leases.held_by_any(state.membership.silent(now));
    let rest = state.leases.dropped(gone);
    let after = state.swept(now).leases;
    lease_laws::only_lapsed_leases_are_dropped(rest, now, id, dataset, epoch, shard);
    if state.leases.datasets.contains_key(dataset)
        && state.leases.datasets[dataset].pools.contains_key(epoch) {
        lease_laws::lemma_returned(state.leases, gone, dataset, epoch, shard);
        if exists|l: Seq<char>| #[trigger]
            state.leases.leases.contains_key(l) && !after.leases.contains_key(l)
                && state.leases.leases[l].dataset_id == dataset && state.leases.leases[l].epoch
                == epoch && state.leases.leases[l].shards.begin <= shard
                < state.leases.leases[l].shards.end {
            let l = choose|l: Seq<char>| #[trigger]
                state.leases.leases.contains_key(l) && !after.leases.contains_key(l)
                    && state.leases.leases[l].dataset_id == dataset && state.leases.leases[l].epoch
                    == epoch && state.leases.leases[l].shards.begin <= shard
                    < state.leases.leases[l].shards.end;
            if !gone.contains(l) {
                assert(rest.leases.contains_key(l));
                assert(rest.leases[l] == state.leases.leases[l]);
            }
        }
    }
}

/// What a sweep tells is what it did: it lists exactly the evicted workers, with each
/// of them exactly the leases that it held, and apart from these exactly the lapsed
/// leases of everybody else.
pub proof fn a_sweep_tells_what_it_did(
    sweep: Sweep,
    state: CoordinatorState,
    now: nat,
    worker: Seq<char>,
    id: Seq<char>,
    i: int,
)
    requires
        state.consistent(),
        sweep.tells(state, now),
    ensures
        ({
            let limit = state.membership.heartbeat_interval_ms * 1000000 * (
            state.membership.missed_allowed + 1);
            let holder = state.leases.leases[id].worker_id;
            &&& state.membership.workers.contains_key(worker) && now
                - state.membership.workers[worker].last_heartbeat > limit <==> exists|j: int|
                0 <= j < sweep.evicted@.len() && (#[trigger] sweep.evicted@[j]).0.worker_id@
                    == worker
            &&& 0 <= i < sweep.evicted@.len() ==> (state.leases.leases.contains_key(id) && holder
                == sweep.evicted@[i].0.worker_id@ <==> exists|k: int|
                0 <= k < sweep.evicted@[i].1@.len() && (
                #[trigger] sweep.evicted@[i].1@[k]).lease_id@ == id)
            &&& state.leases.leases.contains_key(id) && state.leases.leases[id].expires_at <= now
                && !(state.membership.workers.contains_key(holder) && now
                - state.membership.workers[holder].last_heartbeat > limit) <==> exists|k: int|
                0 <= k < sweep.expired@.len() && (#[trigger] sweep.expired@[k]).lease_id@ == id
        }),
{
    let silent = state.membership.silent(now);
    let workers = sweep.evicted@.map_values(|e: (WorkerInfo, Vec<ShardLease>)| e.0@);
    let rest = state.leases.dropped(state.leases.held_by_any(silent));
    let lapsed = sweep.expired@.map_values(|l: ShardLease| l@);
    state.leases.lemma_dropped_consistent(state.leases.held_by_any(silent));
    membership_laws::a_sweep_goes_by_interval_and_allowance(state.membership, worker, now);
    membership_laws::a_sweep_goes_by_interval_and_allowance(
        state.membership,
        state.leases.leases[id].worker_id,
        now,
    );
    membership_laws::worker_lists_are_complete(state.membership, workers, silent, worker);
    lease_laws::lease_lists_are_complete(rest, lapsed, rest.due(now), id);
    if silent.contains(worker) {
        let j = choose|j: int|
            0 <= j < workers.len() && #[trigger] workers[j] == state.membership.workers[worker];
        assert(sweep.evicted@[j].0@ == workers[j]);
    }
    if exists|j: int|
        0 <= j < sweep.evicted@.len() && (#[trigger] sweep.evicted@[j]).0.worker_id@ == worker {
        let j = choose|j: int|
            0 <= j < sweep.evicted@.len() && (#[trigger] sweep.evicted@[j]).0.worker_id@ == worker;
        assert(workers[j].worker_id == worker);
    }
    if 0 <= i < sweep.evicted@.len() {
        let held = sweep.evicted@[i].1@;
        let listed = held.map_values(|l: ShardLease| l@);
        let whose = sweep.evicted@[i].0.worker_id@;
        lease_laws::lease_lists_are_complete(
            state.leases,
            listed,
            state.leases.held_by(whose),
            id,
        );
        if state.leases.leases.contains_key(id) && state.leases.leases[id].worker_id == whose {
            let k = choose|k: int|
                0 <= k < listed.len() && #[trigger] listed[k] == state.leases.leases[id];
            assert(held[k]@ == listed[k]);
        }
        if exists|k: int| 0 <= k < held.len() && (#[trigger] held[k]).lease_id@ == id {
            let k = choose|k: int| 0 <= k < held.len() && (#[trigger] held[k]).lease_id@ == id;
            assert(listed[k].lease_id == id);
        }
    }
    if rest.leases.contains_key(id) && rest.leases[id].expires_at <= now {
        let k = choose|k: int| 0 <= k < lapsed.len() && #[trigger] lapsed[k] == rest.leases[id];
        assert(sweep.expired@[k]@ == lapsed[k]);
    }
    if exists|k: int|
        0 <= k < sweep.expired@.len() && (#[trigger] sweep.expired@[k]).lease_id@ == id {
        let k = choose|k: int|
            0 <= k < sweep.expired@.len() && (#[trigger] sweep.expired@[k]).lease_id@ == id;
        assert(lapsed[k].lease_id == id);
    }
}

} // verus!
