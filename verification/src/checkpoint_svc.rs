//! CheckpointService: barriers, chunk integrity reporting, commit/abort/recover.
//!
//! Each function answers one request against the shared state. A commit and a
//! recovery come in two halves: what is decided before storage is asked, and
//! what the outcome leads to. Functions whose name ends in `_at` take the clock
//! reading and the random identifier that the request is answered with.

use crate::barrier::BarrierStatus;
use crate::commit::CommitRun;
use crate::commit::CommitView;
use crate::error::DtrError;
use crate::error::ErrorView;
use crate::layout;
use crate::manifest;
use crate::manifest::ChunkRecord;
use crate::manifest::ChunkView;
use crate::manifest::Manifest;
use crate::manifest::ManifestView;
use crate::outside;
use crate::recover;
use crate::recover::RecoverRun;
use crate::runtime_svc;
use crate::state::AppState;
use crate::state::AppView;
use crate::status;
use crate::status::Code;
use crate::status::Status;
use crate::status::StatusView;
use crate::status::Timestamp;
use crate::text;
use crate::types::CheckpointToken;
use crate::types::TargetId;
use crate::types::WorkerId;
use vstd::prelude::*;

verus! {

#[derive(Debug)]
pub struct CheckpointSpec {
    pub uri: String,
    pub chunk_bytes: u64,
    pub keep_last: u32,
    pub write_mode: String,
}

#[derive(Debug)]
pub struct RegisterCheckpointTargetRequest {
    pub worker_id: String,
    pub session_token: String,
    pub spec: Option<CheckpointSpec>,
}

#[derive(Debug)]
pub struct RegisterCheckpointTargetResponse {
    pub target_id: String,
    pub already_registered: bool,
}

#[derive(Debug)]
pub struct BeginCheckpointRequest {
    pub worker_id: String,
    pub session_token: String,
    pub target_id: String,
    pub step: u64,
}

#[derive(Debug)]
pub struct BeginCheckpointResponse {
    pub checkpoint_token: String,
    pub upload_prefix: String,
    pub expected_participants: u32,
    pub required_participants: u32,
    pub barrier_deadline: Option<Timestamp>,
}

/// A [`BeginCheckpointResponse`] with its texts as character sequences.
#[verifier::ext_equal]
pub struct BegunView {
    pub checkpoint_token: Seq<char>,
    pub upload_prefix: Seq<char>,
    pub expected_participants: u32,
    pub required_participants: u32,
    pub barrier_deadline: Option<Timestamp>,
}

impl View for BeginCheckpointResponse {
    type V = BegunView;

    open spec fn view(&self) -> BegunView {
        BegunView {
            checkpoint_token: self.checkpoint_token@,
            upload_prefix: self.upload_prefix@,
            expected_participants: self.expected_participants,
            required_participants: self.required_participants,
            barrier_deadline: self.barrier_deadline,
        }
    }
}

#[derive(Debug)]
pub struct ReportChunkRequest {
    pub worker_id: String,
    pub session_token: String,
    pub checkpoint_token: String,
    pub chunks: Vec<ChunkRecord>,
    pub rank_complete: bool,
}

#[derive(Debug)]
pub struct CommitCheckpointRequest {
    pub worker_id: String,
    pub session_token: String,
    pub checkpoint_token: String,
}

#[derive(Debug, Clone, Copy, PartialEq, Eq, Structural)]
pub enum CommitStatus {
    Pending,
    Committed,
    Aborted,
}

#[derive(Debug)]
pub struct CommitCheckpointResponse {
    pub status: CommitStatus,
    pub manifest_key: String,
}

#[derive(Debug)]
pub struct AbortCheckpointRequest {
    pub worker_id: String,
    pub session_token: String,
    pub checkpoint_token: String,
    pub reason: String,
}

#[derive(Debug)]
pub struct GetLatestManifestResponse {
    pub found: bool,
    pub step: u64,
    pub manifest_key: String,
    pub chunks: Vec<ChunkRecord>,
}

/// A [`GetLatestManifestResponse`] with its texts as character sequences.
#[verifier::ext_equal]
pub struct LatestView {
    pub found: bool,
    pub step: u64,
    pub manifest_key: Seq<char>,
    pub chunks: Seq<ChunkView>,
}

impl View for GetLatestManifestResponse {
    type V = LatestView;

    open spec fn view(&self) -> LatestView {
        LatestView {
            found: self.found,
            step: self.step,
            manifest_key: self.manifest_key@,
            chunks: manifest::views(self.chunks@),
        }
    }
}

/// What is decided about a commit before storage is asked.
pub enum CommitStart {
    /// The request is answered.
    Answer(Result<CommitCheckpointResponse, Status>),
    /// The quorum is there: run the commit, then take in its outcome with
    /// [`commit_end`].
    Verify { run: CommitRun, bytes: u64 },
}

/// A [`CommitStart`], in views.
pub enum CommitStartView {
    Answer(Result<(CommitStatus, Seq<char>), StatusView>),
    Verify { run: CommitView, bytes: nat },
}

/// What the outcome of a commit leads to.
pub struct CommitEnd {
    pub answer: Result<CommitCheckpointResponse, Status>,
    /// The bytes of the checkpoint, if it was committed.
    pub committed_bytes: Option<u64>,
    /// Whether the checkpoint was aborted.
    pub aborted: bool,
}

/// A [`CommitEnd`], in views.
pub struct CommitEndView {
    pub answer: Result<(CommitStatus, Seq<char>), StatusView>,
    pub committed_bytes: Option<u64>,
    pub aborted: bool,
}

/// An answer to a commit, in views.
pub open spec fn commit_answered(out: Result<CommitCheckpointResponse, Status>) -> Result<
    (CommitStatus, Seq<char>),
    StatusView,
> {
    match out {
        Ok(response) => Ok((response.status, response.manifest_key@)),
        Err(refused) => Err(refused@),
    }
}

impl View for CommitStart {
    type V = CommitStartView;

    open spec fn view(&self) -> CommitStartView {
        match *self {
            CommitStart::Answer(answer) => CommitStartView::Answer(commit_answered(answer)),
            CommitStart::Verify { run, bytes } => CommitStartView::Verify {
                run: run@,
                bytes: bytes as nat,
            },
        }
    }
}

impl View for CommitEnd {
    type V = CommitEndView;

    open spec fn view(&self) -> CommitEndView {
        CommitEndView {
            answer: commit_answered(self.answer),
            committed_bytes: self.committed_bytes,
            aborted: self.aborted,
        }
    }
}

/// What registering a target does to the state, and what is answered.
pub open spec fn register_target_answer(
    state: AppView,
    req: RegisterCheckpointTargetRequest,
) -> (AppView, Result<(Seq<char>, bool), StatusView>) {
    match state.auth(req.worker_id@, req.session_token@) {
        Err(e) => (state, Err(status::status_for(e))),
        Ok(()) => match req.spec {
            None => (
                state,
                Err(runtime_svc::refusal(Code::InvalidArgument, "checkpoint spec is required"@)),
            ),
            Some(spec) => if spec.write_mode@.len() > 0 && spec.write_mode@ != "atomic"@ {
                (
                    state,
                    Err(
                        runtime_svc::refusal(
                            Code::InvalidArgument,
                            "unsupported write_mode '"@ + spec.write_mode@
                                + "' (v1 supports: atomic)"@,
                        ),
                    ),
                )
            } else {
                let (after, out) = state.register_target(
                    spec.uri@,
                    spec.chunk_bytes,
                    spec.keep_last,
                );
                (
                    after,
                    match out {
                        Ok((info, already)) => Ok((info.target_id, already)),
                        Err(e) => Err(status::status_for(e)),
                    },
                )
            },
        },
    }
}

/// What opening or joining a barrier does to the state, and what is answered.
pub open spec fn begin_answer(
    state: AppView,
    req: BeginCheckpointRequest,
    now: nat,
    uuid: Seq<char>,
    wall: i128,
) -> (AppView, Result<BegunView, StatusView>) {
    match state.auth(req.worker_id@, req.session_token@) {
        Err(e) => (state, Err(status::status_for(e))),
        Ok(()) => match state.target(req.target_id@) {
            Err(e) => (state, Err(status::status_for(e))),
            Ok(target) => {
                let expected = state.coordinator.membership.world_size();
                if expected == 0 {
                    (
                        state,
                        Err(
                            runtime_svc::refusal(
                                Code::FailedPrecondition,
                                "no registered workers; register workers before checkpointing"@,
                            ),
                        ),
                    )
                } else {
                    let (after, barrier) = state.coordinator.barriers.begin(
                        target.target_id,
                        req.step,
                        expected,
                        now,
                        uuid,
                    );
                    (
                        state.with_barriers(after),
                        Ok(
                            BegunView {
                                checkpoint_token: barrier.token,
                                upload_prefix: layout::tmp_name(target.prefix, req.step),
                                expected_participants: barrier.expected,
                                required_participants: barrier.required,
                                barrier_deadline: Some(
                                    status::timestamp(wall, state.barrier_timeout_ms),
                                ),
                            },
                        ),
                    )
                }
            },
        },
    }
}

/// Whose completion a report means: the rank of the worker, or else that of the
/// first chunk.
pub open spec fn reporting_rank(
    state: AppView,
    worker: Seq<char>,
    chunks: Seq<ChunkView>,
) -> Option<u32> {
    let workers = state.coordinator.membership.workers;
    if workers.contains_key(worker) {
        Some(workers[worker].rank)
    } else if chunks.len() > 0 {
        Some(chunks[0].rank)
    } else {
        None
    }
}

/// What a report does to the state, and what is answered. The chunks are
/// recorded before the barrier is looked at.
pub open spec fn report_answer(state: AppView, req: ReportChunkRequest, now: nat) -> (
    AppView,
    Result<u32, StatusView>,
) {
    let token = req.checkpoint_token@;
    let chunks = manifest::views(req.chunks@);
    match state.auth(req.worker_id@, req.session_token@) {
        Err(e) => (state, Err(status::status_for(e))),
        Ok(()) => {
            let recorded = state.recorded(token, chunks);
            let (seen, barrier) = recorded.coordinator.barriers.get(token, now);
            let after = recorded.with_barriers(seen);
            match barrier {
                Err(e) => (after, Err(status::status_for(e))),
                Ok(barrier) => if !req.rank_complete {
                    (after, Ok(barrier.completed_ranks.len() as u32))
                } else {
                    match reporting_rank(state, req.worker_id@, chunks) {
                        None => (
                            after,
                            Err(
                                runtime_svc::refusal(
                                    Code::InvalidArgument,
                                    "cannot resolve rank for completion report"@,
                                ),
                            ),
                        ),
                        Some(rank) => {
                            let (joined, count) = seen.rank_complete(token, rank, now);
                            (
                                recorded.with_barriers(joined),
                                match count {
                                    Ok(n) => Ok(n),
                                    Err(e) => Err(status::status_for(e)),
                                },
                            )
                        },
                    }
                },
            }
        },
    }
}

/// What asking for a commit does to the state, and what comes of it.
pub open spec fn commit_start_answer(state: AppView, req: CommitCheckpointRequest, now: nat) -> (
    AppView,
    CommitStartView,
) {
    let token = req.checkpoint_token@;
    match state.auth(req.worker_id@, req.session_token@) {
        Err(e) => (state, CommitStartView::Answer(Err(status::status_for(e)))),
        Ok(()) => {
            let (seen, barrier) = state.coordinator.barriers.get(token, now);
            let after = state.with_barriers(seen);
            (
                after,
                match barrier {
                    Err(e) => CommitStartView::Answer(Err(status::status_for(e))),
                    Ok(barrier) => match barrier.status {
                        BarrierStatus::Pending => CommitStartView::Answer(
                            Ok((CommitStatus::Pending, Seq::empty())),
                        ),
                        BarrierStatus::Aborted => CommitStartView::Answer(
                            Ok((CommitStatus::Aborted, Seq::empty())),
                        ),
                        BarrierStatus::Committed => match state.target(barrier.target_id) {
                            Err(e) => CommitStartView::Answer(Err(status::status_for(e))),
                            Ok(target) => CommitStartView::Answer(
                                Ok(
                                    (
                                        CommitStatus::Committed,
                                        layout::manifest_name(target.prefix, barrier.step),
                                    ),
                                ),
                            ),
                        },
                        BarrierStatus::Ready => match state.target(barrier.target_id) {
                            Err(e) => CommitStartView::Answer(Err(status::status_for(e))),
                            Ok(target) => CommitStartView::Verify {
                                run: CommitView::started(
                                    target.prefix,
                                    barrier.step,
                                    state.chunks_of(token),
                                    true,
                                ),
                                bytes: manifest::total(state.chunks_of(token)),
                            },
                        },
                    },
                },
            )
        },
    }
}

/// The worker is known, the barrier behind the token has its quorum and its target
/// is known: nothing is left but to verify the chunks.
pub open spec fn goes_to_verification(state: AppView, req: CommitCheckpointRequest) -> bool {
    let barriers = state.coordinator.barriers.barriers;
    let token = req.checkpoint_token@;
    &&& state.auth(req.worker_id@, req.session_token@) is Ok
    &&& barriers.contains_key(token)
    &&& barriers[token].status == BarrierStatus::Ready
    &&& state.target(barriers[token].target_id) is Ok
}

/// What the outcome of a commit does to the state, and what is answered. A
/// checkpoint that failed verification is aborted with the reason.
pub open spec fn commit_end_answer(
    state: AppView,
    token: Seq<char>,
    bytes: u64,
    outcome: Result<Seq<char>, ErrorView>,
    now: nat,
) -> (AppView, CommitEndView) {
    let barriers = state.coordinator.barriers;
    match outcome {
        Ok(manifest_key) => {
            let (after, marked) = barriers.mark_committed(token, now);
            match marked {
                Err(e) => (
                    state.with_barriers(after),
                    CommitEndView {
                        answer: Err(status::status_for(e)),
                        committed_bytes: None,
                        aborted: false,
                    },
                ),
                Ok(()) => (
                    state.with_barriers(after).forgotten(token),
                    CommitEndView {
                        answer: Ok((CommitStatus::Committed, manifest_key)),
                        committed_bytes: Some(bytes),
                        aborted: false,
                    },
                ),
            }
        },
        Err(ErrorView::CheckpointCorrupt { token: step, reason }) => {
            let e = ErrorView::CheckpointCorrupt { token: step, reason };
            let (after, aborted) = barriers.abort(token, e.message());
            match aborted {
                Err(e) => (
                    state.with_barriers(after),
                    CommitEndView {
                        answer: Err(status::status_for(e)),
                        committed_bytes: None,
                        aborted: false,
                    },
                ),
                Ok(()) => (
                    state.with_barriers(after).forgotten(token),
                    CommitEndView {
                        answer: Ok((CommitStatus::Aborted, Seq::empty())),
                        committed_bytes: None,
                        aborted: true,
                    },
                ),
            }
        },
        Err(e) => (
            state,
            CommitEndView {
                answer: Err(status::status_for(e)),
                committed_bytes: None,
                aborted: false,
            },
        ),
    }
}

/// What aborting does to the state, and what is answered.
pub open spec fn abort_answer(state: AppView, req: AbortCheckpointRequest) -> (
    AppView,
    Result<(), StatusView>,
) {
    let token = req.checkpoint_token@;
    match state.auth(req.worker_id@, req.session_token@) {
        Err(e) => (state, Err(status::status_for(e))),
        Ok(()) => {
            let (after, aborted) = state.coordinator.barriers.abort(token, req.reason@);
            match aborted {
                Err(e) => (state.with_barriers(after), Err(status::status_for(e))),
                Ok(()) => (state.with_barriers(after).forgotten(token), Ok(())),
            }
        },
    }
}

/// What a recovery is answered, given what was found.
pub open spec fn latest_answer(
    prefix: Seq<char>,
    outcome: Result<Option<ManifestView>, ErrorView>,
) -> Result<LatestView, StatusView> {
    match outcome {
        Err(e) => Err(status::status_for(e)),
        Ok(Some(found)) => Ok(
            LatestView {
                found: true,
                step: found.step,
                manifest_key: layout::manifest_name(prefix, found.step),
                chunks: found.chunks,
            },
        ),
        Ok(None) => Ok(
            LatestView {
                found: false,
                step: 0,
                manifest_key: Seq::empty(),
                chunks: Seq::empty(),
            },
        ),
    }
}

/// An answer to a registration of a target, in views.
pub open spec fn target_answered(
    out: Result<RegisterCheckpointTargetResponse, Status>,
) -> Result<(Seq<char>, bool), StatusView> {
    match out {
        Ok(response) => Ok((response.target_id@, response.already_registered)),
        Err(refused) => Err(refused@),
    }
}

/// An answer to the opening of a barrier, in views.
pub open spec fn begin_answered(out: Result<BeginCheckpointResponse, Status>) -> Result<
    BegunView,
    StatusView,
> {
    match out {
        Ok(response) => Ok(response@),
        Err(refused) => Err(refused@),
    }
}

/// The outcome of a commit, in views.
pub open spec fn commit_outcome(outcome: Result<String, DtrError>) -> Result<
    Seq<char>,
    ErrorView,
> {
    match outcome {
        Ok(key) => Ok(key@),
        Err(e) => Err(e@),
    }
}

/// The outcome of a recovery, in views.
pub open spec fn recovery_outcome(outcome: Result<Option<Manifest>, DtrError>) -> Result<
    Option<ManifestView>,
    ErrorView,
> {
    match outcome {
        Ok(Some(found)) => Ok(Some(found@)),
        Ok(None) => Ok(None),
        Err(e) => Err(e@),
    }
}

/// An answer to a recovery, in views.
pub open spec fn latest_answered(out: Result<GetLatestManifestResponse, Status>) -> Result<
    LatestView,
    StatusView,
> {
    match out {
        Ok(response) => Ok(response@),
        Err(refused) => Err(refused@),
    }
}

/// Registers a checkpoint target.
pub fn register_checkpoint_target(
    state: &mut AppState,
    req: RegisterCheckpointTargetRequest,
) -> (out: Result<RegisterCheckpointTargetResponse, Status>)
    requires
        old(state).wf(),
    ensures
        final(state).wf(),
        final(state).cfg == old(state).cfg,
        final(state).latest() == old(state).latest(),
        (final(state)@, target_answered(out)) == register_target_answer(old(state)@, req),
{
    if let Err(e) = state.auth(req.worker_id.as_str(), req.session_token.as_str()) {
        return Err(status::to_status(e));
    }
    match req.spec {
        None => Err(status::refuse(Code::InvalidArgument, "checkpoint spec is required")),
        Some(spec) => {
            if spec.write_mode.as_str().unicode_len() > 0 && !text::same(
                spec.write_mode.as_str(),
                "atomic",
            ) {
                let message: String = text::join3(
                    "unsupported write_mode '",
                    spec.write_mode.as_str(),
                    "' (v1 supports: atomic)",
                );
                return Err(status::refuse(Code::InvalidArgument, message.as_str()));
            }
            match state.register_target(spec.uri.as_str(), spec.chunk_bytes, spec.keep_last) {
                Err(e) => Err(status::to_status(e)),
                Ok((info, already_registered)) => Ok(
                    RegisterCheckpointTargetResponse {
                        target_id: info.target_id.0,
                        already_registered,
                    },
                ),
            }
        },
    }
}

/// Opens the barrier for a step, or joins it.
pub fn begin_checkpoint(state: &mut AppState, req: BeginCheckpointRequest, wall: i128) -> (out:
    Result<BeginCheckpointResponse, Status>)
    requires
        old(state).wf(),
        status::wall_clock(wall),
    ensures
        final(state).wf(),
        final(state).cfg == old(state).cfg,
        old(state).latest() <= final(state).latest() <= outside::MAX_NANOS,
        exists|uuid: Seq<char>|
            outside::is_uuid_v4(uuid) && (final(state)@, begin_answered(out))
                == #[trigger] begin_answer(old(state)@, req, final(state).latest(), uuid, wall),
{
    let now: u128 = state.coordinator.now();
    assert(state@ == old(state)@);
    let uuid: String = outside::random_uuid();
    begin_checkpoint_at(state, req, now, uuid.as_str(), wall)
}

/// [`begin_checkpoint`] at the clock reading `now`, for a barrier whose token
/// ends in `uuid`.
pub fn begin_checkpoint_at(
    state: &mut AppState,
    req: BeginCheckpointRequest,
    now: u128,
    uuid: &str,
    wall: i128,
) -> (out: Result<BeginCheckpointResponse, Status>)
    requires
        old(state).wf(),
        now <= outside::MAX_NANOS,
        status::wall_clock(wall),
    ensures
        final(state).wf(),
        final(state).cfg == old(state).cfg,
        final(state).latest() == old(state).latest(),
        (final(state)@, begin_answered(out)) == begin_answer(
            old(state)@,
            req,
            now as nat,
            uuid@,
            wall,
        ),
{
    if let Err(e) = state.auth(req.worker_id.as_str(), req.session_token.as_str()) {
        return Err(status::to_status(e));
    }
    let target = match state.target(&TargetId(req.target_id)) {
        Ok(target) => target,
        Err(e) => {
            return Err(status::to_status(e));
        },
    };
    let expected: u32 = state.coordinator.membership.expected_world_size();
    if expected == 0 {
        return Err(
            status::refuse(
                Code::FailedPrecondition,
                "no registered workers; register workers before checkpointing",
            ),
        );
    }
    let barrier = state.coordinator.barriers.begin_at(
        target.target_id.clone(),
        req.step,
        expected,
        now,
        uuid,
    );
    Ok(
        BeginCheckpointResponse {
            checkpoint_token: barrier.token.0,
            upload_prefix: layout::tmp_prefix(target.prefix.as_str(), req.step),
            expected_participants: barrier.expected,
            required_participants: barrier.required,
            barrier_deadline: Some(
                status::timestamp_after(wall, state.cfg.checkpoint.barrier_timeout_ms),
            ),
        },
    )
}

/// Records chunks and, on request, the completion of the reporting rank.
/// Answers how many ranks have completed.
pub fn report_chunk(state: &mut AppState, req: ReportChunkRequest) -> (out: Result<u32, Status>)
    requires
        old(state).wf(),
    ensures
        final(state).wf(),
        final(state).cfg == old(state).cfg,
        old(state).latest() <= final(state).latest() <= outside::MAX_NANOS,
        (final(state)@, runtime_svc::answered(out)) == report_answer(
            old(state)@,
            req,
            final(state).latest(),
        ),
{
    let now: u128 = state.coordinator.now();
    assert(state@ == old(state)@);
    report_chunk_at(state, req, now)
}

/// [`report_chunk`] at the clock reading `now`.
pub fn report_chunk_at(state: &mut AppState, req: ReportChunkRequest, now: u128) -> (out: Result<
    u32,
    Status,
>)
    requires
        old(state).wf(),
    ensures
        final(state).wf(),
        final(state).cfg == old(state).cfg,
        final(state).latest() == old(state).latest(),
        (final(state)@, runtime_svc::answered(out)) == report_answer(
            old(state)@,
            req,
            now as nat,
        ),
{
    if let Err(e) = state.auth(req.worker_id.as_str(), req.session_token.as_str()) {
        return Err(status::to_status(e));
    }
    let token = CheckpointToken(req.checkpoint_token);
    let first: Option<u32> = if req.chunks.len() > 0 {
        Some(req.chunks[0].rank)
    } else {
        None
    };
    state.record_chunks(&token, req.chunks);
    let completed: u32 = match state.coordinator.barriers.get_at(&token, now) {
        Ok(barrier) => barrier.completed_ranks.len() as u32,
        Err(e) => {
            return Err(status::to_status(e));
        },
    };
    if !req.rank_complete {
        return Ok(completed);
    }
    let rank: u32 = match state.coordinator.membership.get(&WorkerId(req.worker_id)) {
        Some(worker) => worker.rank,
        None => match first {
            Some(rank) => rank,
            None => {
                return Err(
                    status::refuse(
                        Code::InvalidArgument,
                        "cannot resolve rank for completion report",
                    ),
                );
            },
        },
    };
    match state.coordinator.barriers.rank_complete_at(&token, rank, now) {
        Ok(count) => Ok(count),
        Err(e) => Err(status::to_status(e)),
    }
}

/// Decides about a commit: it is answered at once, or its chunks have to be
/// verified first.
pub fn commit_start(state: &mut AppState, req: CommitCheckpointRequest) -> (out: CommitStart)
    requires
        old(state).wf(),
        goes_to_verification(old(state)@, req) ==> manifest::total(
            old(state)@.chunks_of(req.checkpoint_token@),
        ) <= u64::MAX,
    ensures
        final(state).wf(),
        final(state).cfg == old(state).cfg,
        old(state).latest() <= final(state).latest() <= outside::MAX_NANOS,
        (final(state)@, out@) == commit_start_answer(old(state)@, req, final(state).latest()),
        out matches CommitStart::Verify { run, .. } ==> run.wf(),
{
    let now: u128 = state.coordinator.now();
    assert(state@ == old(state)@);
    commit_start_at(state, req, now)
}

/// [`commit_start`] at the clock reading `now`.
pub fn commit_start_at(state: &mut AppState, req: CommitCheckpointRequest, now: u128) -> (out:
    CommitStart)
    requires
        old(state).wf(),
        goes_to_verification(old(state)@, req) ==> manifest::total(
            old(state)@.chunks_of(req.checkpoint_token@),
        ) <= u64::MAX,
    ensures
        final(state).wf(),
        final(state).cfg == old(state).cfg,
        final(state).latest() == old(state).latest(),
        (final(state)@, out@) == commit_start_answer(old(state)@, req, now as nat),
        out matches CommitStart::Verify { run, .. } ==> run.wf(),
{
    if let Err(e) = state.auth(req.worker_id.as_str(), req.session_token.as_str()) {
        return CommitStart::Answer(Err(status::to_status(e)));
    }
    let token = CheckpointToken(req.checkpoint_token);
    let barrier = match state.coordinator.barriers.get_at(&token, now) {
        Ok(barrier) => barrier,
        Err(e) => {
            return CommitStart::Answer(Err(status::to_status(e)));
        },
    };
    let nothing: String = String::new();
    assert(nothing@ =~= Seq::<char>::empty());
    match barrier.status {
        BarrierStatus::Pending => CommitStart::Answer(
            Ok(CommitCheckpointResponse { status: CommitStatus::Pending, manifest_key: nothing }),
        ),
        BarrierStatus::Aborted => CommitStart::Answer(
            Ok(CommitCheckpointResponse { status: CommitStatus::Aborted, manifest_key: nothing }),
        ),
        // Idempotent re-commit: return the already-published manifest.
        BarrierStatus::Committed => match state.target(&barrier.target_id) {
            Err(e) => CommitStart::Answer(Err(status::to_status(e))),
            Ok(target) => CommitStart::Answer(
                Ok(
                    CommitCheckpointResponse {
                        status: CommitStatus::Committed,
                        manifest_key: layout::manifest_key(target.prefix.as_str(), barrier.step),
                    },
                ),
            ),
        },
        BarrierStatus::Ready => match state.target(&barrier.target_id) {
            Err(e) => CommitStart::Answer(Err(status::to_status(e))),
            Ok(target) => {
                let chunks: Vec<ChunkRecord> = state.reported_chunks(&token);
                let bytes: u64 = match manifest::sum_bytes(&chunks) {
                    Some(bytes) => bytes,
                    None => {
                        assert(false);
                        0
                    },
                };
                CommitStart::Verify {
                    run: state.ckpt.commit(target.prefix.as_str(), barrier.step, chunks, true),
                    bytes,
                }
            },
        },
    }
}

/// Takes in the outcome of a commit.
pub fn commit_end(
    state: &mut AppState,
    token: &CheckpointToken,
    bytes: u64,
    outcome: Result<String, DtrError>,
) -> (out: CommitEnd)
    requires
        old(state).wf(),
    ensures
        final(state).wf(),
        final(state).cfg == old(state).cfg,
        old(state).latest() <= final(state).latest() <= outside::MAX_NANOS,
        (final(state)@, out@) == commit_end_answer(
            old(state)@,
            token@,
            bytes,
            commit_outcome(outcome),
            final(state).latest(),
        ),
{
    let now: u128 = state.coordinator.now();
    assert(state@ == old(state)@);
    commit_end_at(state, token, bytes, outcome, now)
}

/// [`commit_end`] at the clock reading `now`.
pub fn commit_end_at(
    state: &mut AppState,
    token: &CheckpointToken,
    bytes: u64,
    outcome: Result<String, DtrError>,
    now: u128,
) -> (out: CommitEnd)
    requires
        old(state).wf(),
    ensures
        final(state).wf(),
        final(state).cfg == old(state).cfg,
        final(state).latest() == old(state).latest(),
        (final(state)@, out@) == commit_end_answer(
            old(state)@,
            token@,
            bytes,
            commit_outcome(outcome),
            now as nat,
        ),
{
    match outcome {
        Ok(manifest_key) => match state.coordinator.barriers.mark_committed_at(token, now) {
            Err(e) => CommitEnd {
                answer: Err(status::to_status(e)),
                committed_bytes: None,
                aborted: false,
            },
            Ok(()) => {
                state.drop_reported(token);
                CommitEnd {
                    answer: Ok(
                        CommitCheckpointResponse { status: CommitStatus::Committed, manifest_key },
                    ),
                    committed_bytes: Some(bytes),
                    aborted: false,
                }
            },
        },
        Err(e) => {
            let corrupt: bool = match e {
                DtrError::CheckpointCorrupt { .. } => true,
                _ => false,
            };
            if !corrupt {
                return CommitEnd {
                    answer: Err(status::to_status(e)),
                    committed_bytes: None,
                    aborted: false,
                };
            }
            match state.coordinator.barriers.abort(token, e.to_string().as_str()) {
                Err(e) => CommitEnd {
                    answer: Err(status::to_status(e)),
                    committed_bytes: None,
                    aborted: false,
                },
                Ok(()) => {
                    state.drop_reported(token);
                    let nothing: String = String::new();
                    assert(nothing@ =~= Seq::<char>::empty());
                    CommitEnd {
                        answer: Ok(
                            CommitCheckpointResponse {
                                status: CommitStatus::Aborted,
                                manifest_key: nothing,
                            },
                        ),
                        committed_bytes: None,
                        aborted: true,
                    }
                },
            }
        },
    }
}

/// Aborts a checkpoint on a worker's request.
pub fn abort_checkpoint(state: &mut AppState, req: AbortCheckpointRequest) -> (out: Result<
    (),
    Status,
>)
    requires
        old(state).wf(),
    ensures
        final(state).wf(),
        final(state).cfg == old(state).cfg,
        final(state).latest() == old(state).latest(),
        (final(state)@, runtime_svc::answered(out)) == abort_answer(old(state)@, req),
{
    if let Err(e) = state.auth(req.worker_id.as_str(), req.session_token.as_str()) {
        return Err(status::to_status(e));
    }
    let token = CheckpointToken(req.checkpoint_token);
    match state.coordinator.barriers.abort(&token, req.reason.as_str()) {
        Err(e) => Err(status::to_status(e)),
        Ok(()) => {
            state.drop_reported(&token);
            Ok(())
        },
    }
}

/// Starts the recovery of a target's newest manifest. The second component is
/// the target's prefix, for [`latest_end`].
pub fn latest_start(state: &AppState, target_id: &str) -> (out: Result<
    (RecoverRun, String),
    Status,
>)
    requires
        state.wf(),
    ensures
        match out {
            Ok((run, prefix)) => state@.target(target_id@) is Ok && prefix@ == state@.target(
                target_id@,
            )->Ok_0.prefix && run.prefix() == prefix@ && run.phase()
                == recover::PhaseView::HeadPointer,
            Err(refused) => state@.target(target_id@) is Err && refused@ == status::status_for(
                state@.target(target_id@)->Err_0,
            ),
        },
{
    match state.target(&TargetId::new(target_id)) {
        Err(e) => Err(status::to_status(e)),
        Ok(target) => Ok((state.ckpt.latest_manifest(target.prefix.as_str()), target.prefix)),
    }
}

/// Answers a recovery, given what was found.
pub fn latest_end(prefix: &str, outcome: Result<Option<Manifest>, DtrError>) -> (out: Result<
    GetLatestManifestResponse,
    Status,
>)
    ensures
        latest_answered(out) == latest_answer(prefix@, recovery_outcome(outcome)),
        out is Ok <==> outcome is Ok,
        outcome matches Ok(Some(found)) ==> {
            let response = out->Ok_0;
            &&& response.found
            &&& response.step == found.step
            &&& response.manifest_key@ == text::trim(prefix@, '/') + "/manifests/step-"@
                + text::decimal(found.step as nat) + ".json"@
            &&& response.chunks@ == found.chunks@
        },
        outcome matches Ok(None) ==> !out->Ok_0.found && out->Ok_0.chunks@.len() == 0,
{
    match outcome {
        Err(e) => Err(status::to_status(e)),
        Ok(Some(found)) => Ok(
            GetLatestManifestResponse {
                found: true,
                step: found.step,
                manifest_key: layout::manifest_key(prefix, found.step),
                chunks: found.chunks,
            },
        ),
        Ok(None) => {
            let manifest_key: String = String::new();
            let chunks: Vec<ChunkRecord> = Vec::new();
            assert(manifest_key@ =~= Seq::<char>::empty());
            assert(manifest::views(chunks@) =~= Seq::<ChunkView>::empty());
            Ok(GetLatestManifestResponse { found: false, step: 0, manifest_key, chunks })
        },
    }
}

} // verus!
