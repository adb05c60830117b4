//! Worker membership: registration, session tokens, heartbeat deadlines.

use crate::clock;
use crate::clock::Clock;
use crate::error;
use crate::error::DtrError;
use crate::error::ErrorView;
use crate::outside;
use crate::table;
use crate::table::Table;
use crate::text;
use crate::types::WorkerId;
use std::collections::HashMap;
use vstd::prelude::*;

verus! {

#[derive(Debug)]
pub struct WorkerInfo {
    pub worker_id: WorkerId,
    pub rank: u32,
    pub world_size: u32,
    pub session_token: String,
    pub labels: HashMap<String, String>,
    /// When the worker was last heard of, in nanoseconds on the registry's clock.
    pub last_heartbeat: u128,
    pub current_step: u64,
}

/// A [`WorkerInfo`] with its identifiers as character sequences.
#[verifier::ext_equal]
pub struct WorkerView {
    pub worker_id: Seq<char>,
    pub rank: u32,
    pub world_size: u32,
    pub session_token: Seq<char>,
    pub labels: Map<String, String>,
    pub last_heartbeat: nat,
    pub current_step: u64,
}

impl View for WorkerInfo {
    type V = WorkerView;

    open spec fn view(&self) -> WorkerView {
        WorkerView {
            worker_id: self.worker_id@,
            rank: self.rank,
            world_size: self.world_size,
            session_token: self.session_token@,
            labels: self.labels@,
            last_heartbeat: self.last_heartbeat as nat,
            current_step: self.current_step,
        }
    }
}

impl Clone for WorkerInfo {
    fn clone(&self) -> (out: Self)
        ensures
            out@ == self@,
    {
        WorkerInfo {
            worker_id: self.worker_id.clone(),
            rank: self.rank,
            world_size: self.world_size,
            session_token: self.session_token.clone(),
            labels: self.labels.clone(),
            last_heartbeat: self.last_heartbeat,
            current_step: self.current_step,
        }
    }
}

/// What a registry knows.
#[verifier::ext_equal]
pub struct MembershipState {
    pub workers: Map<Seq<char>, WorkerView>,
    pub heartbeat_interval_ms: u64,
    pub missed_allowed: u32,
}

impl MembershipState {
    /// Every worker is kept under its own name.
    pub open spec fn consistent(self) -> bool {
        &&& self.workers.dom().finite()
        &&& forall|id: Seq<char>| #[trigger]
            self.workers.contains_key(id) ==> self.workers[id].worker_id == id
    }

    /// How long a worker may stay silent, in nanoseconds.
    pub open spec fn patience(self) -> nat {
        clock::millis(self.heartbeat_interval_ms) * (self.missed_allowed as nat + 1)
    }

    /// The worker has been silent for too long at `now`.
    pub open spec fn overdue(self, worker: WorkerView, now: nat) -> bool {
        now > worker.last_heartbeat && now - worker.last_heartbeat > self.patience()
    }

    /// The workers that have been silent for too long at `now`.
    pub open spec fn silent(self, now: nat) -> Set<Seq<char>> {
        Set::new(
            |id: Seq<char>| self.workers.contains_key(id) && self.overdue(self.workers[id], now),
        )
    }

    /// A worker comes in, or comes back, with a fresh token.
    pub open spec fn registered(
        self,
        worker: Seq<char>,
        rank: u32,
        world_size: u32,
        labels: Map<String, String>,
        now: nat,
        token: Seq<char>,
    ) -> MembershipState {
        MembershipState {
            workers: self.workers.insert(
                worker,
                WorkerView {
                    worker_id: worker,
                    rank,
                    world_size,
                    session_token: token,
                    labels,
                    last_heartbeat: now,
                    current_step: 0,
                },
            ),
            ..self
        }
    }

    /// Whether the worker is known and the token is its own.
    pub open spec fn authenticate(self, worker: Seq<char>, token: Seq<char>) -> Result<
        (),
        ErrorView,
    > {
        if !self.workers.contains_key(worker) {
            Err(ErrorView::UnknownWorker(worker))
        } else if self.workers[worker].session_token != token {
            Err(ErrorView::InvalidSession(worker))
        } else {
            Ok(())
        }
    }

    /// What a heartbeat does to the state, and whether it is accepted.
    pub open spec fn heartbeat(
        self,
        worker: Seq<char>,
        token: Seq<char>,
        current_step: u64,
        now: nat,
    ) -> (MembershipState, Result<(), ErrorView>) {
        let out = self.authenticate(worker, token);
        if out is Ok {
            let info = WorkerView { last_heartbeat: now, current_step, ..self.workers[worker] };
            (MembershipState { workers: self.workers.insert(worker, info), ..self }, out)
        } else {
            (self, out)
        }
    }

    /// Workers that have been silent for too long are evicted.
    pub open spec fn swept(self, now: nat) -> MembershipState {
        MembershipState { workers: self.workers.remove_keys(self.silent(now)), ..self }
    }

    /// `listed` holds each of the workers in `ids` once, and no others.
    pub open spec fn enumerates(self, listed: Seq<WorkerView>, ids: Set<Seq<char>>) -> bool {
        &&& listed.no_duplicates()
        &&& forall|worker: WorkerView| #[trigger]
            listed.contains(worker) <==> ids.contains(worker.worker_id) && self.workers.contains_key(
                worker.worker_id,
            ) && self.workers[worker.worker_id] == worker
    }

    /// `size` is the largest world size that a worker reports, or zero without
    /// workers.
    pub open spec fn is_world_size(self, size: u32) -> bool {
        &&& forall|id: Seq<char>| #[trigger]
            self.workers.contains_key(id) ==> self.workers[id].world_size <= size
        &&& size == 0 || exists|id: Seq<char>| #[trigger]
            self.workers.contains_key(id) && self.workers[id].world_size == size
    }

    /// The largest world size that a worker reports, or zero without workers.
    pub open spec fn world_size(self) -> u32 {
        choose|size: u32| self.is_world_size(size)
    }
}

/// Registry of live workers with heartbeat-deadline eviction.
pub struct Membership {
    workers: Table<WorkerInfo>,
    heartbeat_interval_ms: u64,
    missed_allowed: u32,
    clock: Clock,
}

impl View for Membership {
    type V = MembershipState;

    closed spec fn view(&self) -> MembershipState {
        MembershipState {
            workers: self.workers@,
            heartbeat_interval_ms: self.heartbeat_interval_ms,
            missed_allowed: self.missed_allowed,
        }
    }
}

impl Membership {
    /// The state is consistent, however it is stored.
    pub closed spec fn wf(self) -> bool {
        self.workers.wf() && self@.consistent()
    }

    /// The latest reading of the clock that deadlines are measured on.
    pub closed spec fn latest(self) -> nat {
        self.clock.latest()
    }

    /// What well-formedness says about the state.
    pub proof fn lemma_wf(&self)
        requires
            self.wf(),
        ensures
            self@.consistent(),
    {
    }

    pub fn new(heartbeat_interval_ms: u64, missed_allowed: u32) -> (out: Self)
        ensures
            out.wf(),
            out@ == (MembershipState {
                workers: Map::empty(),
                heartbeat_interval_ms,
                missed_allowed,
            }),
            out.latest() == 0,
    {
        Self::with_clock(Clock::start(), heartbeat_interval_ms, missed_allowed)
    }

    /// A registry that measures its deadlines on `clock`.
    pub fn with_clock(clock: Clock, heartbeat_interval_ms: u64, missed_allowed: u32) -> (out: Self)
        ensures
            out.wf(),
            out@ == (MembershipState {
                workers: Map::empty(),
                heartbeat_interval_ms,
                missed_allowed,
            }),
            out.latest() == clock.latest(),
    {
        Membership { workers: Table::new(), heartbeat_interval_ms, missed_allowed, clock }
    }

    pub fn heartbeat_interval_ms(&self) -> (out: u64)
        ensures
            out == self@.heartbeat_interval_ms,
    {
        self.heartbeat_interval_ms
    }

    pub fn missed_heartbeats_allowed(&self) -> (out: u32)
        ensures
            out == self@.missed_allowed,
    {
        self.missed_allowed
    }

    /// Register (or re-register) a worker. Idempotent: re-registering the same
    /// worker_id rotates its session token and resets its deadline.
    pub fn register(
        &mut self,
        worker_id: WorkerId,
        rank: u32,
        world_size: u32,
        labels: HashMap<String, String>,
    ) -> (out: WorkerInfo)
        requires
            old(self).wf(),
        ensures
            final(self).wf(),
            old(self).latest() <= final(self).latest() <= outside::MAX_NANOS,
            outside::is_uuid_v4(out@.session_token),
            final(self)@ == old(self)@.registered(
                worker_id@,
                rank,
                world_size,
                labels@,
                final(self).latest(),
                out@.session_token,
            ),
            out@ == final(self)@.workers[worker_id@],
    {
        let now: u128 = self.clock.now();
        let token: String = outside::random_uuid();
        self.register_at(worker_id, rank, world_size, labels, now, token.as_str())
    }

    /// [`Membership::register`] at the clock reading `now`, with the session
    /// token `token`.
    pub fn register_at(
        &mut self,
        worker_id: WorkerId,
        rank: u32,
        world_size: u32,
        labels: HashMap<String, String>,
        now: u128,
        token: &str,
    ) -> (out: WorkerInfo)
        requires
            old(self).wf(),
        ensures
            final(self).wf(),
            final(self)@ == old(self)@.registered(
                worker_id@,
                rank,
                world_size,
                labels@,
                now as nat,
                token@,
            ),
            out@ == final(self)@.workers[worker_id@],
            final(self).latest() == old(self).latest(),
    {
        let key: String = worker_id.to_string();
        let info = WorkerInfo {
            worker_id,
            rank,
            world_size,
            session_token: token.to_owned(),
            labels,
            last_heartbeat: now,
            current_step: 0,
        };
        self.workers.put(key, info.clone());
        info
    }

    /// Validate a (worker, token) pair, refusing evicted or unknown workers.
    pub fn authenticate(&self, worker_id: &WorkerId, token: &str) -> (out: Result<(), DtrError>)
        requires
            self.wf(),
        ensures
            error::done(out) == self@.authenticate(worker_id@, token@),
    {
        match self.workers.get(worker_id.as_str()) {
            None => Err(DtrError::UnknownWorker(worker_id.to_string())),
            Some(info) => {
                if text::same(info.session_token.as_str(), token) {
                    Ok(())
                } else {
                    Err(DtrError::InvalidSession(worker_id.to_string()))
                }
            },
        }
    }

    /// Record a heartbeat. Returns UnknownWorker after eviction so the RPC layer
    /// can tell the client to re-register.
    pub fn heartbeat(&mut self, worker_id: &WorkerId, token: &str, current_step: u64) -> (out:
        Result<(), DtrError>)
        requires
            old(self).wf(),
        ensures
            final(self).wf(),
            old(self).latest() <= final(self).latest() <= outside::MAX_NANOS,
            (final(self)@, error::done(out)) == old(self)@.heartbeat(
                worker_id@,
                token@,
                current_step,
                final(self).latest(),
            ),
    {
        let now: u128 = self.clock.now();
        self.heartbeat_at(worker_id, token, current_step, now)
    }

    /// [`Membership::heartbeat`] at the clock reading `now`.
    pub fn heartbeat_at(
        &mut self,
        worker_id: &WorkerId,
        token: &str,
        current_step: u64,
        now: u128,
    ) -> (out: Result<(), DtrError>)
        requires
            old(self).wf(),
        ensures
            final(self).wf(),
            (final(self)@, error::done(out)) == old(self)@.heartbeat(
                worker_id@,
                token@,
                current_step,
                now as nat,
            ),
            final(self).latest() == old(self).latest(),
    {
        match self.authenticate(worker_id, token) {
            Err(e) => Err(e),
            Ok(()) => {
                let ghost before = self@;
                if let Some(mut info) = self.workers.take(worker_id.as_str()) {
                    info.last_heartbeat = now;
                    info.current_step = current_step;
                    self.workers.put(worker_id.to_string(), info);
                }
                assert(self@.workers =~= before.heartbeat(
                    worker_id@,
                    token@,
                    current_step,
                    now as nat,
                ).0.workers);
                Ok(())
            },
        }
    }

    fn silent_ids(&self, now: u128) -> (out: Vec<String>)
        requires
            self.wf(),
            self@.missed_allowed < u32::MAX,
            self@.patience() <= outside::MAX_NANOS,
        ensures
            table::named(out@) == self@.silent(now as nat),
            forall|i: int, j: int| 0 <= i < j < out@.len() ==> out@[i]@ != out@[j]@,
    {
        let interval: u128 = clock::millis_to_nanos(self.heartbeat_interval_ms);
        let deadline: u128 = interval * (self.missed_allowed + 1) as u128;
        let mut out: Vec<String> = Vec::new();
        let mut i: usize = 0;
        let count: usize = self.workers.len();
        let ghost keys = self.workers.keys();
        proof {
            self.workers.lemma_keys();
        }
        while i < count
            invariant
                self.wf(),
                deadline == self@.patience(),
                keys == self.workers.keys(),
                keys.no_duplicates(),
                count == keys.len(),
                i <= count,
                forall|j: int, k: int| 0 <= j < k < out@.len() ==> out@[j]@ != out@[k]@,
                forall|j: int|
                    0 <= j < out@.len() ==> self@.silent(now as nat).contains(#[trigger] out@[j]@)
                        && keys.take(i as int).contains(out@[j]@),
                forall|k: int|
                    0 <= k < i && self@.silent(now as nat).contains(#[trigger] keys[k])
                        ==> table::named(out@).contains(keys[k]),
            decreases count - i,
        {
            let ghost earlier = out@;
            let worker: &WorkerInfo = self.workers.value_at(i);
            if now > worker.last_heartbeat && now - worker.last_heartbeat > deadline {
                out.push(self.workers.key_at(i).clone());
                assert(out@.drop_last() =~= earlier);
            }
            proof {
                table::lemma_picked(keys, earlier, out@, i as int, self@.silent(now as nat));
            }
            i = i + 1;
        }
        proof {
            assert forall|id: Seq<char>| self@.silent(now as nat).contains(
                id,
            ) implies table::named(out@).contains(id) by {
                assert(keys.to_set().contains(id));
                let k = keys.index_of(id);
                assert(keys[k] == id);
            }
            assert(table::named(out@) =~= self@.silent(now as nat));
        }
        out
    }

    /// Evict every worker whose deadline (interval * (missed_allowed + 1))
    /// has passed. Returns the evicted workers, in no particular order, so
    /// lease and barrier state can react.
    pub fn sweep_expired(&mut self) -> (out: Vec<WorkerInfo>)
        requires
            old(self).wf(),
            old(self)@.missed_allowed < u32::MAX,
            old(self)@.patience() <= outside::MAX_NANOS,
        ensures
            final(self).wf(),
            old(self).latest() <= final(self).latest() <= outside::MAX_NANOS,
            final(self)@ == old(self)@.swept(final(self).latest()),
            old(self)@.enumerates(
                out@.map_values(|w: WorkerInfo| w@),
                old(self)@.silent(final(self).latest()),
            ),
    {
        let now: u128 = self.clock.now();
        self.sweep_expired_at(now)
    }

    /// [`Membership::sweep_expired`] at the clock reading `now`.
    pub fn sweep_expired_at(&mut self, now: u128) -> (out: Vec<WorkerInfo>)
        requires
            old(self).wf(),
            old(self)@.missed_allowed < u32::MAX,
            old(self)@.patience() <= outside::MAX_NANOS,
        ensures
            final(self).wf(),
            final(self)@ == old(self)@.swept(now as nat),
            old(self)@.enumerates(
                out@.map_values(|w: WorkerInfo| w@),
                old(self)@.silent(now as nat),
            ),
            final(self).latest() == old(self).latest(),
    {
        let ids: Vec<String> = self.silent_ids(now);
        let ghost start = self@;
        let mut out: Vec<WorkerInfo> = Vec::new();
        let mut i: usize = 0;
        proof {
            assert(table::named(ids@.take(0)) =~= Set::<Seq<char>>::empty());
            assert(start.workers.remove_keys(Set::empty()) =~= start.workers);
            assert forall|j: int| 0 <= j < ids@.len() implies start.workers.contains_key(
                #[trigger] ids@[j]@,
            ) by {
                assert(table::named(ids@).contains(ids@[j]@));
            }
        }
        while i < ids.len()
            invariant
                i <= ids@.len(),
                self.workers.wf(),
                self.clock == old(self).clock,
                start.consistent(),
                self@ == (MembershipState {
                    workers: start.workers.remove_keys(table::named(ids@.take(i as int))),
                    ..start
                }),
                out@.len() == i,
                forall|j: int| 0 <= j < ids@.len() ==> start.workers.contains_key(
                    #[trigger] ids@[j]@,
                ),
                forall|j: int, k: int| 0 <= j < k < ids@.len() ==> ids@[j]@ != ids@[k]@,
                forall|j: int| 0 <= j < i ==> (#[trigger] out@[j])@ == start.workers[ids@[j]@],
            decreases ids@.len() - i,
        {
            proof {
                table::lemma_named_grows(ids@, i as int);
            }
            match self.workers.take(ids[i].as_str()) {
                Some(worker) => {
                    out.push(worker);
                },
                None => {
                    assert(false);
                },
            }
            assert(self@.workers =~= start.workers.remove_keys(table::named(ids@.take(i + 1))));
            i = i + 1;
        }
        proof {
            self.workers.lemma_keys();
            assert(ids@.take(i as int) =~= ids@);
            let listed = out@.map_values(|w: WorkerInfo| w@);
            assert forall|worker: WorkerView| #[trigger] listed.contains(
                worker,
            ) implies table::named(ids@).contains(worker.worker_id) && start.workers.contains_key(
                worker.worker_id,
            ) && start.workers[worker.worker_id] == worker by {
                let j = listed.index_of(worker);
                assert(listed[j] == out@[j]@);
                assert(start.workers.contains_key(ids@[j]@));
            }
            assert forall|worker: WorkerView|
                table::named(ids@).contains(worker.worker_id) && start.workers.contains_key(
                    worker.worker_id,
                ) && start.workers[worker.worker_id]
                    == worker implies #[trigger] listed.contains(worker) by {
                let j = choose|j: int|
                    0 <= j < ids@.len() && #[trigger] ids@[j]@ == worker.worker_id;
                assert(listed[j] == worker);
            }
            assert forall|j: int, k: int|
                0 <= j < listed.len() && 0 <= k < listed.len() && j != k implies listed[j]
                != listed[k] by {
                assert(listed[j] == out@[j]@ && listed[k] == out@[k]@);
                assert(start.workers.contains_key(ids@[j]@) && start.workers.contains_key(
                    ids@[k]@,
                ));
            }
        }
        out
    }

    pub fn live_count(&self) -> (out: usize)
        requires
            self.wf(),
        ensures
            out == self@.workers.len(),
    {
        self.workers.len()
    }

    /// Snapshot of one worker's info (None if unknown or evicted).
    pub fn get(&self, worker_id: &WorkerId) -> (out: Option<WorkerInfo>)
        requires
            self.wf(),
        ensures
            match out {
                Some(info) => self@.workers.contains_key(worker_id@) && info@
                    == self@.workers[worker_id@],
                None => !self@.workers.contains_key(worker_id@),
            },
    {
        match self.workers.get(worker_id.as_str()) {
            Some(info) => Some(info.clone()),
            None => None,
        }
    }

    /// The largest world size that a live worker reports (0 if none).
    pub fn expected_world_size(&self) -> (out: u32)
        requires
            self.wf(),
        ensures
            self@.is_world_size(out),
            out == self@.world_size(),
    {
        let mut out: u32 = 0;
        let mut i: usize = 0;
        let count: usize = self.workers.len();
        let ghost keys = self.workers.keys();
        proof {
            self.workers.lemma_keys();
        }
        while i < count
            invariant
                self.wf(),
                keys == self.workers.keys(),
                count == keys.len(),
                i <= count,
                forall|k: int|
                    0 <= k < i ==> self@.workers[#[trigger] keys[k]].world_size <= out,
                out == 0 || exists|id: Seq<char>| #[trigger]
                    self@.workers.contains_key(id) && self@.workers[id].world_size == out,
            decreases count - i,
        {
            let worker: &WorkerInfo = self.workers.value_at(i);
            if worker.world_size > out {
                out = worker.world_size;
                assert(self@.workers.contains_key(keys[i as int]));
            }
            i = i + 1;
        }
        proof {
            assert forall|id: Seq<char>| #[trigger]
                self@.workers.contains_key(id) implies self@.workers[id].world_size <= out by {
                assert(keys.to_set().contains(id));
                let k = keys.index_of(id);
                assert(keys[k] == id);
            }
            assert(self@.is_world_size(out));
            let picked = self@.world_size();
            assert(self@.is_world_size(picked));
            assert(picked == out);
        }
        out
    }
}

} // verus!
