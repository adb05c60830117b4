//! Checkpoint barriers: per-step rendezvous with quorum policy and deadline.
//!
//! A barrier is opened by the first `begin` for a step and joined by every
//! subsequent one (idempotent token). Ranks report completion; commit is
//! allowed once the quorum is satisfied, and the barrier aborts if the
//! deadline passes first.

use crate::clock;
use crate::clock::Clock;
use crate::error;
use crate::error::DtrError;
use crate::error::ErrorView;
use crate::outside;
use crate::table;
use crate::table::Table;
use crate::text;
use crate::types::CheckpointToken;
use crate::types::QuorumPolicy;
use crate::types::TargetId;
use std::collections::BTreeSet;
use std::collections::HashMap;
use vstd::prelude::*;

verus! {

broadcast use {vstd::std_specs::btree::group_btree_axioms, vstd::std_specs::hash::group_hash_axioms};

#[derive(Debug, Clone, Copy, PartialEq, Eq, Structural)]
pub enum BarrierStatus {
    /// Waiting for more ranks (commit would return PENDING).
    Pending,
    /// Quorum satisfied; commit may verify + publish.
    Ready,
    /// Deadline passed before quorum, or explicitly aborted.
    Aborted,
    /// Manifest published.
    Committed,
}

#[derive(Debug)]
pub struct CheckpointBarrier {
    pub token: CheckpointToken,
    pub target_id: TargetId,
    pub step: u64,
    pub expected: u32,
    pub required: u32,
    /// When the barrier gives up, in nanoseconds on the manager's clock.
    pub deadline: u128,
    pub completed_ranks: BTreeSet<u32>,
    pub status: BarrierStatus,
    pub abort_reason: Option<String>,
}

/// A [`CheckpointBarrier`] with its texts as character sequences.
#[verifier::ext_equal]
pub struct BarrierView {
    pub token: Seq<char>,
    pub target_id: Seq<char>,
    pub step: u64,
    pub expected: u32,
    pub required: u32,
    pub deadline: nat,
    pub completed_ranks: Set<u32>,
    pub status: BarrierStatus,
    pub abort_reason: Option<Seq<char>>,
}

impl View for CheckpointBarrier {
    type V = BarrierView;

    open spec fn view(&self) -> BarrierView {
        BarrierView {
            token: self.token@,
            target_id: self.target_id@,
            step: self.step,
            expected: self.expected,
            required: self.required,
            deadline: self.deadline as nat,
            completed_ranks: self.completed_ranks@,
            status: self.status,
            abort_reason: text::optional(self.abort_reason),
        }
    }
}

impl Clone for CheckpointBarrier {
    fn clone(&self) -> (out: Self)
        ensures
            out@ == self@,
    {
        CheckpointBarrier {
            token: self.token.clone(),
            target_id: self.target_id.clone(),
            step: self.step,
            expected: self.expected,
            required: self.required,
            deadline: self.deadline,
            completed_ranks: self.completed_ranks.clone(),
            status: self.status,
            abort_reason: text::clone_optional(&self.abort_reason),
        }
    }
}

/// Why a barrier that ran out of time was aborted.
pub open spec fn deadline_reason() -> Seq<char> {
    "barrier deadline exceeded"@
}

/// How far a barrier has come.
pub open spec fn progress(reported: nat, required: u32) -> Seq<char> {
    text::decimal(reported) + "/"@ + text::decimal(required as nat) + " required ranks reported"@
}

impl BarrierView {
    /// The barrier with its deadline applied: a pending one whose deadline has
    /// passed is aborted.
    pub open spec fn checked(self, now: nat) -> BarrierView {
        if self.status == BarrierStatus::Pending && now > self.deadline {
            BarrierView {
                status: BarrierStatus::Aborted,
                abort_reason: Some(deadline_reason()),
                ..self
            }
        } else {
            self
        }
    }

    /// The barrier with one more rank reported.
    pub open spec fn joined(self, rank: u32) -> BarrierView {
        let ranks = self.completed_ranks.insert(rank);
        BarrierView {
            completed_ranks: ranks,
            status: if (ranks.len() as u32) >= self.required {
                BarrierStatus::Ready
            } else {
                self.status
            },
            ..self
        }
    }

    /// Why the barrier was aborted.
    pub open spec fn reason(self) -> Seq<char> {
        match self.abort_reason {
            Some(reason) => reason,
            None => deadline_reason(),
        }
    }

    /// A barrier that is ready or committed has its quorum, one that is pending
    /// lacks it once a rank has reported, and one has a reason for its abort
    /// exactly if it was aborted.
    pub open spec fn consistent(self) -> bool {
        &&& self.completed_ranks.finite()
        &&& self.status == BarrierStatus::Pending ==> (self.completed_ranks.len() == 0
            || (self.completed_ranks.len() as u32) < self.required)
        &&& (self.status == BarrierStatus::Ready || self.status == BarrierStatus::Committed)
            ==> self.completed_ranks.len() >= self.required
        &&& self.abort_reason is Some <==> self.status == BarrierStatus::Aborted
    }
}

/// The tokens of one target's barriers, by step.
struct StepTokens {
    tokens: HashMap<u64, String>,
}

impl View for StepTokens {
    type V = Map<u64, Seq<char>>;

    closed spec fn view(&self) -> Map<u64, Seq<char>> {
        self.tokens@.map_values(|t: String| t@)
    }
}

/// What a barrier manager knows.
#[verifier::ext_equal]
pub struct BarrierState {
    pub barriers: Map<Seq<char>, BarrierView>,
    pub by_step: Map<Seq<char>, Map<u64, Seq<char>>>,
    pub quorum: QuorumPolicy,
    pub timeout_ms: u64,
}

impl BarrierState {
    /// The barrier that is open for (target, step).
    pub open spec fn open_for(self, target: Seq<char>, step: u64) -> Option<BarrierView> {
        if self.by_step.contains_key(target) && self.by_step[target].contains_key(step)
            && self.barriers.contains_key(self.by_step[target][step]) {
            Some(self.barriers[self.by_step[target][step]])
        } else {
            None
        }
    }

    pub open spec fn consistent(self) -> bool {
        forall|token: Seq<char>| #[trigger]
            self.barriers.contains_key(token) ==> self.barriers[token].consistent()
                && self.barriers[token].token == token
    }

    /// The barrier is replaced.
    pub open spec fn with(self, barrier: BarrierView) -> BarrierState {
        BarrierState { barriers: self.barriers.insert(barrier.token, barrier), ..self }
    }

    /// A new barrier.
    pub open spec fn fresh(
        self,
        target: Seq<char>,
        step: u64,
        expected: u32,
        now: nat,
        uuid: Seq<char>,
    ) -> BarrierView {
        BarrierView {
            token: "ckpt-"@ + text::decimal(step as nat) + "-"@ + uuid,
            target_id: target,
            step,
            expected,
            required: self.quorum.threshold(expected),
            deadline: now + clock::millis(self.timeout_ms),
            completed_ranks: Set::empty(),
            status: BarrierStatus::Pending,
            abort_reason: None,
        }
    }

    /// What opening or joining does to the state, and the barrier that results.
    /// Joining applies the deadline, as every other look at a barrier does.
    pub open spec fn begin(
        self,
        target: Seq<char>,
        step: u64,
        expected: u32,
        now: nat,
        uuid: Seq<char>,
    ) -> (BarrierState, BarrierView) {
        match self.open_for(target, step) {
            Some(barrier) => (self.with(barrier.checked(now)), barrier.checked(now)),
            None => {
                let barrier = self.fresh(target, step, expected, now, uuid);
                let tokens = if self.by_step.contains_key(target) {
                    self.by_step[target]
                } else {
                    Map::empty()
                };
                (
                    BarrierState {
                        by_step: self.by_step.insert(target, tokens.insert(step, barrier.token)),
                        ..self.with(barrier)
                    },
                    barrier,
                )
            },
        }
    }

    /// What reporting a rank does to the state, and the number of ranks that
    /// have reported.
    pub open spec fn rank_complete(self, token: Seq<char>, rank: u32, now: nat) -> (
        BarrierState,
        Result<u32, ErrorView>,
    ) {
        if !self.barriers.contains_key(token) {
            (self, Err(ErrorView::UnknownCheckpoint(token)))
        } else {
            let barrier = self.barriers[token].checked(now);
            match barrier.status {
                BarrierStatus::Aborted => (
                    self.with(barrier),
                    Err(ErrorView::CheckpointAborted { token, reason: barrier.reason() }),
                ),
                BarrierStatus::Committed => (
                    self.with(barrier),
                    Err(
                        ErrorView::CheckpointNotReady {
                            token,
                            reason: "checkpoint already committed"@,
                        },
                    ),
                ),
                _ => {
                    let joined = barrier.joined(rank);
                    (self.with(joined), Ok(joined.completed_ranks.len() as u32))
                },
            }
        }
    }

    /// What looking at a barrier does to the state, and what is seen.
    pub open spec fn get(self, token: Seq<char>, now: nat) -> (
        BarrierState,
        Result<BarrierView, ErrorView>,
    ) {
        if !self.barriers.contains_key(token) {
            (self, Err(ErrorView::UnknownCheckpoint(token)))
        } else {
            let barrier = self.barriers[token].checked(now);
            (self.with(barrier), Ok(barrier))
        }
    }

    /// The given barriers, with deadlines applied.
    pub open spec fn looked_over_some(self, tokens: Set<Seq<char>>, now: nat) -> BarrierState {
        BarrierState {
            barriers: self.barriers.map_entries(
                |token: Seq<char>, b: BarrierView|
                    if tokens.contains(token) {
                        b.checked(now)
                    } else {
                        b
                    },
            ),
            ..self
        }
    }

    /// All barriers, with deadlines applied.
    pub open spec fn looked_over(self, now: nat) -> BarrierState {
        self.looked_over_some(self.barriers.dom(), now)
    }

    /// The barriers that are open (pending or ready) at `now`.
    pub open spec fn open_tokens(self, now: nat) -> Set<Seq<char>> {
        Set::new(
            |token: Seq<char>|
                {
                    let status = self.barriers[token].checked(now).status;
                    &&& self.barriers.contains_key(token)
                    &&& status == BarrierStatus::Pending || status == BarrierStatus::Ready
                },
        )
    }

    /// The steps of the barriers behind the tokens.
    pub open spec fn steps_of(self, tokens: Seq<Seq<char>>) -> Seq<u64> {
        tokens.map_values(|token: Seq<char>| self.barriers[token].step)
    }

    /// `steps` are the steps of the open barriers, one for each, in no
    /// particular order.
    pub open spec fn lists_open_steps(self, steps: Seq<u64>, now: nat) -> bool {
        exists|tokens: Seq<Seq<char>>|
            {
                &&& #[trigger] tokens.no_duplicates()
                &&& tokens.to_set() == self.open_tokens(now)
                &&& steps == self.steps_of(tokens)
            }
    }

    /// What committing does to the state, and whether it is allowed.
    pub open spec fn mark_committed(self, token: Seq<char>, now: nat) -> (
        BarrierState,
        Result<(), ErrorView>,
    ) {
        if !self.barriers.contains_key(token) {
            (self, Err(ErrorView::UnknownCheckpoint(token)))
        } else {
            let barrier = self.barriers[token].checked(now);
            match barrier.status {
                BarrierStatus::Pending => (
                    self.with(barrier),
                    Err(
                        ErrorView::CheckpointNotReady {
                            token,
                            reason: progress(barrier.completed_ranks.len(), barrier.required),
                        },
                    ),
                ),
                BarrierStatus::Aborted => (
                    self.with(barrier),
                    Err(ErrorView::CheckpointAborted { token, reason: barrier.reason() }),
                ),
                _ => (
                    self.with(BarrierView { status: BarrierStatus::Committed, ..barrier }),
                    Ok(()),
                ),
            }
        }
    }

    /// What aborting does to the state; a committed barrier stays committed.
    pub open spec fn abort(self, token: Seq<char>, reason: Seq<char>) -> (
        BarrierState,
        Result<(), ErrorView>,
    ) {
        if !self.barriers.contains_key(token) {
            (self, Err(ErrorView::UnknownCheckpoint(token)))
        } else if self.barriers[token].status == BarrierStatus::Committed {
            (self, Ok(()))
        } else {
            (
                self.with(
                    BarrierView {
                        status: BarrierStatus::Aborted,
                        abort_reason: Some(reason),
                        ..self.barriers[token]
                    },
                ),
                Ok(()),
            )
        }
    }
}

/// A result with a barrier in it, in views.
pub open spec fn seen(out: Result<CheckpointBarrier, DtrError>) -> Result<BarrierView, ErrorView> {
    match out {
        Ok(barrier) => Ok(barrier@),
        Err(e) => Err(e@),
    }
}

/// A result of reporting a rank, in views.
pub open spec fn counted(out: Result<u32, DtrError>) -> Result<u32, ErrorView> {
    match out {
        Ok(n) => Ok(n),
        Err(e) => Err(e@),
    }
}

/// A result with a status in it, in views.
pub open spec fn status_of(out: Result<BarrierStatus, DtrError>) -> Result<
    BarrierStatus,
    ErrorView,
> {
    match out {
        Ok(status) => Ok(status),
        Err(e) => Err(e@),
    }
}

/// Barrier registry keyed by (target, step) with idempotent open-or-join.
pub struct BarrierManager {
    barriers: Table<CheckpointBarrier>,
    by_step: Table<StepTokens>,
    quorum: QuorumPolicy,
    timeout_ms: u64,
    clock: Clock,
}

impl View for BarrierManager {
    type V = BarrierState;

    closed spec fn view(&self) -> BarrierState {
        BarrierState {
            barriers: self.barriers@,
            by_step: self.by_step@,
            quorum: self.quorum,
            timeout_ms: self.timeout_ms,
        }
    }
}

fn check_deadline(barrier: &mut CheckpointBarrier, now: u128)
    ensures
        final(barrier)@ == old(barrier)@.checked(now as nat),
{
    if barrier.status == BarrierStatus::Pending && now > barrier.deadline {
        barrier.status = BarrierStatus::Aborted;
        barrier.abort_reason = Some("barrier deadline exceeded".to_owned());
    }
}

fn abort_reason_of(barrier: &CheckpointBarrier) -> (out: String)
    ensures
        out@ == barrier@.reason(),
{
    match &barrier.abort_reason {
        Some(reason) => reason.clone(),
        None => "barrier deadline exceeded".to_owned(),
    }
}

impl BarrierManager {
    /// The state is consistent, however it is stored.
    pub closed spec fn wf(self) -> bool {
        self.barriers.wf() && self.by_step.wf() && self@.consistent()
    }

    /// The latest reading of the clock that deadlines are measured on.
    pub closed spec fn latest(self) -> nat {
        self.clock.latest()
    }

    /// What well-formedness says about the state.
    pub proof fn lemma_wf(&self)
        requires
            self.wf(),
        ensures
            self@.consistent(),
    {
    }

    pub fn new(quorum: QuorumPolicy, barrier_timeout_ms: u64) -> (out: Self)
        ensures
            out.wf(),
            out@ == (BarrierState {
                barriers: Map::empty(),
                by_step: Map::empty(),
                quorum,
                timeout_ms: barrier_timeout_ms,
            }),
            out.latest() == 0,
    {
        Self::with_clock(Clock::start(), quorum, barrier_timeout_ms)
    }

    /// A manager that measures its deadlines on `clock`.
    pub fn with_clock(clock: Clock, quorum: QuorumPolicy, barrier_timeout_ms: u64) -> (out: Self)
        ensures
            out.wf(),
            out@ == (BarrierState {
                barriers: Map::empty(),
                by_step: Map::empty(),
                quorum,
                timeout_ms: barrier_timeout_ms,
            }),
            out.latest() == clock.latest(),
    {
        BarrierManager {
            barriers: Table::new(),
            by_step: Table::new(),
            quorum,
            timeout_ms: barrier_timeout_ms,
            clock,
        }
    }

    /// The barrier that is open for (target, step).
    fn find_open(&self, target_id: &TargetId, step: u64) -> (out: Option<CheckpointBarrier>)
        requires
            self.wf(),
        ensures
            match out {
                Some(barrier) => self@.open_for(target_id@, step) == Some(barrier@),
                None => self@.open_for(target_id@, step) is None,
            },
    {
        match self.by_step.get(target_id.as_str()) {
            None => None,
            Some(steps) => match steps.tokens.get(&step) {
                None => None,
                Some(token) => match self.barriers.get(token.as_str()) {
                    None => None,
                    Some(barrier) => Some(barrier.clone()),
                },
            },
        }
    }

    /// Open the barrier for (target, step), or join it if already open.
    pub fn begin(&mut self, target_id: TargetId, step: u64, expected_participants: u32) -> (out:
        CheckpointBarrier)
        requires
            old(self).wf(),
        ensures
            final(self).wf(),
            old(self).latest() <= final(self).latest() <= outside::MAX_NANOS,
            exists|uuid: Seq<char>|
                outside::is_uuid_v4(uuid) && (final(self)@, out@) == #[trigger] old(self)@.begin(
                    target_id@,
                    step,
                    expected_participants,
                    final(self).latest(),
                    uuid,
                ),
    {
        let now: u128 = self.clock.now();
        let uuid: String = outside::random_uuid();
        self.begin_at(target_id, step, expected_participants, now, uuid.as_str())
    }

    /// [`BarrierManager::begin`] at the clock reading `now`, for a barrier whose
    /// token ends in `uuid`.
    pub fn begin_at(
        &mut self,
        target_id: TargetId,
        step: u64,
        expected_participants: u32,
        now: u128,
        uuid: &str,
    ) -> (out: CheckpointBarrier)
        requires
            old(self).wf(),
            now <= outside::MAX_NANOS,
        ensures
            final(self).wf(),
            (final(self)@, out@) == old(self)@.begin(
                target_id@,
                step,
                expected_participants,
                now as nat,
                uuid@,
            ),
            old(self)@.open_for(target_id@, step) is None ==> {
                &&& out.step == step
                &&& out.expected == expected_participants
                &&& out.required == old(self)@.quorum.threshold(expected_participants)
            },
            final(self).latest() == old(self).latest(),
    {
        if let Some(mut existing) = self.find_open(&target_id, step) {
            let ghost before = self@;
            check_deadline(&mut existing, now);
            self.barriers.put(existing.token.to_string(), existing.clone());
            assert(self@.barriers =~= before.with(existing@).barriers);
            return existing;
        }
        let mut name: String = "ckpt-".to_owned();
        name.append(text::decimal_string(step).as_str());
        name.append("-");
        name.append(uuid);
        let barrier = CheckpointBarrier {
            token: CheckpointToken(name),
            target_id: target_id.clone(),
            step,
            expected: expected_participants,
            required: self.quorum.required(expected_participants),
            deadline: now + clock::millis_to_nanos(self.timeout_ms),
            completed_ranks: BTreeSet::new(),
            status: BarrierStatus::Pending,
            abort_reason: None,
        };
        let ghost before = self@;
        let mut steps: StepTokens = match self.by_step.take(target_id.as_str()) {
            Some(steps) => steps,
            None => {
                let steps = StepTokens { tokens: HashMap::new() };
                assert(steps@ =~= Map::<u64, Seq<char>>::empty());
                steps
            },
        };
        let ghost known = steps@;
        steps.tokens.insert(step, barrier.token.to_string());
        assert(steps@ =~= known.insert(step, barrier.token@));
        self.by_step.put(target_id.to_string(), steps);
        self.barriers.put(barrier.token.to_string(), barrier.clone());
        proof {
            let expect = before.begin(
                target_id@,
                step,
                expected_participants,
                now as nat,
                uuid@,
            ).0;
            assert(self@.by_step =~= expect.by_step);
            assert(self@.barriers =~= expect.barriers);
        }
        barrier
    }

    /// Mark a rank complete. Returns the number of completed ranks.
    pub fn rank_complete(&mut self, token: &CheckpointToken, rank: u32) -> (out: Result<
        u32,
        DtrError,
    >)
        requires
            old(self).wf(),
        ensures
            final(self).wf(),
            old(self).latest() <= final(self).latest() <= outside::MAX_NANOS,
            (final(self)@, counted(out)) == old(self)@.rank_complete(
                token@,
                rank,
                final(self).latest(),
            ),
    {
        let now: u128 = self.clock.now();
        self.rank_complete_at(token, rank, now)
    }

    /// [`BarrierManager::rank_complete`] at the clock reading `now`.
    pub fn rank_complete_at(&mut self, token: &CheckpointToken, rank: u32, now: u128) -> (out:
        Result<u32, DtrError>)
        requires
            old(self).wf(),
        ensures
            final(self).wf(),
            (final(self)@, counted(out)) == old(self)@.rank_complete(token@, rank, now as nat),
            final(self).latest() == old(self).latest(),
    {
        let ghost before = self@;
        match self.barriers.take(token.as_str()) {
            None => {
                assert(self@.barriers =~= before.barriers);
                Err(DtrError::UnknownCheckpoint(token.to_string()))
            },
            Some(mut barrier) => {
                check_deadline(&mut barrier, now);
                let ghost checked = barrier@;
                let out: Result<u32, DtrError> = match barrier.status {
                    BarrierStatus::Aborted => Err(
                        DtrError::CheckpointAborted {
                            token: token.to_string(),
                            reason: abort_reason_of(&barrier),
                        },
                    ),
                    BarrierStatus::Committed => Err(
                        DtrError::CheckpointNotReady {
                            token: token.to_string(),
                            reason: "checkpoint already committed".to_owned(),
                        },
                    ),
                    _ => {
                        barrier.completed_ranks.insert(rank);
                        let count: u32 = barrier.completed_ranks.len() as u32;
                        if count >= barrier.required {
                            barrier.status = BarrierStatus::Ready;
                        }
                        assert(barrier@ == checked.joined(rank));
                        Ok(count)
                    },
                };
                self.barriers.put(token.to_string(), barrier);
                assert(self@.barriers =~= before.rank_complete(
                    token@,
                    rank,
                    now as nat,
                ).0.barriers);
                out
            },
        }
    }

    /// Current status, applying the deadline lazily.
    pub fn status(&mut self, token: &CheckpointToken) -> (out: Result<BarrierStatus, DtrError>)
        requires
            old(self).wf(),
        ensures
            final(self).wf(),
            old(self).latest() <= final(self).latest() <= outside::MAX_NANOS,
            final(self)@ == old(self)@.get(token@, final(self).latest()).0,
            status_of(out) == (match old(self)@.get(token@, final(self).latest()).1 {
                Ok(barrier) => Ok(barrier.status),
                Err(e) => Err(e),
            }),
    {
        let now: u128 = self.clock.now();
        match self.get_at(token, now) {
            Ok(barrier) => Ok(barrier.status),
            Err(e) => Err(e),
        }
    }

    /// The barrier behind a token, with its deadline applied.
    pub fn get(&mut self, token: &CheckpointToken) -> (out: Result<CheckpointBarrier, DtrError>)
        requires
            old(self).wf(),
        ensures
            final(self).wf(),
            old(self).latest() <= final(self).latest() <= outside::MAX_NANOS,
            (final(self)@, seen(out)) == old(self)@.get(token@, final(self).latest()),
    {
        let now: u128 = self.clock.now();
        self.get_at(token, now)
    }

    /// [`BarrierManager::get`] at the clock reading `now`.
    pub fn get_at(&mut self, token: &CheckpointToken, now: u128) -> (out: Result<
        CheckpointBarrier,
        DtrError,
    >)
        requires
            old(self).wf(),
        ensures
            final(self).wf(),
            (final(self)@, seen(out)) == old(self)@.get(token@, now as nat),
            final(self).latest() == old(self).latest(),
    {
        let ghost before = self@;
        match self.barriers.take(token.as_str()) {
            None => {
                assert(self@.barriers =~= before.barriers);
                Err(DtrError::UnknownCheckpoint(token.to_string()))
            },
            Some(mut barrier) => {
                check_deadline(&mut barrier, now);
                self.barriers.put(token.to_string(), barrier.clone());
                assert(self@.barriers =~= before.with(barrier@).barriers);
                Ok(barrier)
            },
        }
    }

    /// The token of every barrier, each once.
    fn all_tokens(&self) -> (out: Vec<String>)
        requires
            self.wf(),
        ensures
            table::named(out@) == self@.barriers.dom(),
            forall|i: int, j: int| 0 <= i < j < out@.len() ==> out@[i]@ != out@[j]@,
    {
        let ghost keys = self.barriers.keys();
        let mut out: Vec<String> = Vec::new();
        let mut i: usize = 0;
        let count: usize = self.barriers.len();
        proof {
            self.barriers.lemma_keys();
        }
        while i < count
            invariant
                self.wf(),
                keys == self.barriers.keys(),
                count == keys.len(),
                i <= count,
                out@.len() == i,
                forall|j: int| 0 <= j < i ==> #[trigger] out@[j]@ == keys[j],
            decreases count - i,
        {
            out.push(self.barriers.key_at(i).clone());
            i = i + 1;
        }
        proof {
            assert forall|id: Seq<char>| table::named(out@).contains(id) == keys.contains(id) by {
                if keys.contains(id) {
                    assert(out@[keys.index_of(id)]@ == id);
                }
                if table::named(out@).contains(id) {
                    let j = choose|j: int| 0 <= j < out@.len() && #[trigger] out@[j]@ == id;
                    assert(keys[j] == id);
                }
            }
            assert(table::named(out@) =~= keys.to_set());
        }
        out
    }

    /// The steps of all open barriers at the clock reading `now`, one for each, in
    /// no particular order. Every barrier has its deadline applied.
    pub fn open_steps_at(&mut self, now: u128) -> (out: Vec<u64>)
        requires
            old(self).wf(),
        ensures
            final(self).wf(),
            final(self)@ == old(self)@.looked_over(now as nat),
            old(self)@.lists_open_steps(out@, now as nat),
            final(self).latest() == old(self).latest(),
    {
        let ghost start = self@;
        let ids: Vec<String> = self.all_tokens();
        let mut out: Vec<u64> = Vec::new();
        let mut i: usize = 0;
        let ghost mut tokens = Seq::<Seq<char>>::empty();
        proof {
            assert(table::named(ids@.take(0)) =~= Set::<Seq<char>>::empty());
            assert(start.looked_over_some(Set::empty(), now as nat).barriers =~= start.barriers);
            assert(out@ =~= start.steps_of(tokens));
        }
        while i < ids.len()
            invariant
                i <= ids@.len(),
                self.wf(),
                self.latest() == old(self).latest(),
                start.consistent(),
                table::named(ids@) == start.barriers.dom(),
                forall|j: int, k: int| 0 <= j < k < ids@.len() ==> ids@[j]@ != ids@[k]@,
                self@ == start.looked_over_some(table::named(ids@.take(i as int)), now as nat),
                tokens.no_duplicates(),
                forall|token: Seq<char>|
                    tokens.contains(token) <==> start.open_tokens(now as nat).contains(token)
                        && table::named(ids@.take(i as int)).contains(token),
                out@ == start.steps_of(tokens),
            decreases ids@.len() - i,
        {
            let ghost key = ids@[i as int]@;
            let ghost before = self@;
            proof {
                table::lemma_named_grows(ids@, i as int);
                assert(table::named(ids@).contains(key));
                assert(start.barriers.contains_key(key));
                assert(before.barriers[key] == start.barriers[key]);
            }
            let token = CheckpointToken(ids[i].clone());
            if let Ok(barrier) = self.get_at(&token, now) {
                let open: bool = match barrier.status {
                    BarrierStatus::Pending | BarrierStatus::Ready => true,
                    _ => false,
                };
                if open {
                    out.push(barrier.step);
                    proof {
                        let grown = tokens.push(key);
                        assert forall|a: int, b: int|
                            0 <= a < grown.len() && 0 <= b < grown.len() && a != b implies grown[a]
                            != grown[b] by {
                            if a < tokens.len() {
                                assert(tokens.contains(tokens[a]));
                            }
                            if b < tokens.len() {
                                assert(tokens.contains(tokens[b]));
                            }
                        }
                        assert forall|t: Seq<char>|
                            grown.contains(t) == (tokens.contains(t) || t == key) by {
                            if tokens.contains(t) {
                                assert(grown[tokens.index_of(t)] == t);
                            }
                            assert(grown[tokens.len() as int] == key);
                        }
                        assert(out@ =~= start.steps_of(grown));
                        tokens = grown;
                    }
                }
            }
            assert(self@.barriers =~= start.looked_over_some(
                table::named(ids@.take(i + 1)),
                now as nat,
            ).barriers);
            i = i + 1;
        }
        proof {
            assert(ids@.take(i as int) =~= ids@);
            assert(tokens.to_set() =~= start.open_tokens(now as nat));
        }
        out
    }

    /// Transition Ready -> Committed. Refused while Pending or after abort.
    pub fn mark_committed(&mut self, token: &CheckpointToken) -> (out: Result<(), DtrError>)
        requires
            old(self).wf(),
        ensures
            final(self).wf(),
            old(self).latest() <= final(self).latest() <= outside::MAX_NANOS,
            (final(self)@, error::done(out)) == old(self)@.mark_committed(
                token@,
                final(self).latest(),
            ),
    {
        let now: u128 = self.clock.now();
        self.mark_committed_at(token, now)
    }

    /// [`BarrierManager::mark_committed`] at the clock reading `now`.
    pub fn mark_committed_at(&mut self, token: &CheckpointToken, now: u128) -> (out: Result<
        (),
        DtrError,
    >)
        requires
            old(self).wf(),
        ensures
            final(self).wf(),
            (final(self)@, error::done(out)) == old(self)@.mark_committed(token@, now as nat),
            final(self).latest() == old(self).latest(),
    {
        let ghost before = self@;
        match self.barriers.take(token.as_str()) {
            None => {
                assert(self@.barriers =~= before.barriers);
                Err(DtrError::UnknownCheckpoint(token.to_string()))
            },
            Some(mut barrier) => {
                check_deadline(&mut barrier, now);
                let out: Result<(), DtrError> = match barrier.status {
                    BarrierStatus::Pending => {
                        let mut reason: String = text::decimal_string(
                            barrier.completed_ranks.len() as u64,
                        );
                        reason.append("/");
                        reason.append(text::decimal_string(barrier.required as u64).as_str());
                        reason.append(" required ranks reported");
                        Err(DtrError::CheckpointNotReady { token: token.to_string(), reason })
                    },
                    BarrierStatus::Aborted => Err(
                        DtrError::CheckpointAborted {
                            token: token.to_string(),
                            reason: abort_reason_of(&barrier),
                        },
                    ),
                    _ => {
                        barrier.status = BarrierStatus::Committed;
                        Ok(())
                    },
                };
                self.barriers.put(token.to_string(), barrier);
                assert(self@.barriers =~= before.mark_committed(token@, now as nat).0.barriers);
                out
            },
        }
    }

    /// Explicit abort (client-initiated or verification failure).
    pub fn abort(&mut self, token: &CheckpointToken, reason: &str) -> (out: Result<(), DtrError>)
        requires
            old(self).wf(),
        ensures
            final(self).wf(),
            (final(self)@, error::done(out)) == old(self)@.abort(token@, reason@),
            final(self).latest() == old(self).latest(),
    {
        let ghost before = self@;
        match self.barriers.take(token.as_str()) {
            None => {
                assert(self@.barriers =~= before.barriers);
                Err(DtrError::UnknownCheckpoint(token.to_string()))
            },
            Some(mut barrier) => {
                if barrier.status != BarrierStatus::Committed {
                    barrier.status = BarrierStatus::Aborted;
                    barrier.abort_reason = Some(reason.to_owned());
                }
                self.barriers.put(token.to_string(), barrier);
                assert(self@.barriers =~= before.abort(token@, reason@).0.barriers);
                Ok(())
            },
        }
    }
}

} // verus!
