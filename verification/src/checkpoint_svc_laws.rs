//! What holds of checkpoint requests across calls.

use crate::barrier::BarrierStatus;
use crate::barrier_laws;
use crate::barrier_laws::Request;
use crate::checkpoint_svc;
use crate::checkpoint_svc::AbortCheckpointRequest;
use crate::checkpoint_svc::BeginCheckpointRequest;
use crate::checkpoint_svc::BeginCheckpointResponse;
use crate::checkpoint_svc::BegunView;
use crate::checkpoint_svc::CommitCheckpointRequest;
use crate::checkpoint_svc::CommitCheckpointResponse;
use crate::checkpoint_svc::CommitEnd;
use crate::checkpoint_svc::CommitStart;
use crate::checkpoint_svc::CommitStartView;
use crate::checkpoint_svc::CommitStatus;
use crate::checkpoint_svc::GetLatestManifestResponse;
use crate::checkpoint_svc::LatestView;
use crate::checkpoint_svc::RegisterCheckpointTargetRequest;
use crate::checkpoint_svc::RegisterCheckpointTargetResponse;
use crate::checkpoint_svc::ReportChunkRequest;
use crate::commit::CommitView;
use crate::error::DtrError;
use crate::error::ErrorView;
use crate::layout;
use crate::manifest;
use crate::manifest::ChunkView;
use crate::manifest::Manifest;
use crate::manifest::ManifestView;
use crate::state::AppView;
use crate::status;
use crate::status::Code;
use crate::status::Status;
use crate::status::StatusView;
use crate::text;
use vstd::prelude::*;

verus! {

/// All ranks that begin a step of a target get the same token, the same upload
/// prefix and the same quorum, whatever was asked of the barriers in between and
/// however the workers have changed. The series leaves out that a random token
/// repeats one in use.
pub proof fn every_rank_joins_the_same_barrier(
    state: AppView,
    first: BeginCheckpointRequest,
    requests: Seq<(Request, nat)>,
    then: AppView,
    second: BeginCheckpointRequest,
    at: (nat, Seq<char>, i128),
    later: (nat, Seq<char>, i128),
)
    requires
        state.consistent(),
        first.target_id@ == second.target_id@,
        first.step == second.step,
        checkpoint_svc::begin_answer(state, first, at.0, at.1, at.2).1 is Ok,
        ({
            let after = checkpoint_svc::begin_answer(state, first, at.0, at.1, at.2).0;
            &&& barrier_laws::all_name_anew(after.coordinator.barriers, requests)
            &&& then.coordinator.barriers == barrier_laws::replayed(
                after.coordinator.barriers,
                requests,
            )
            &&& then.target(second.target_id@) == after.target(second.target_id@)
        }),
        then.auth(second.worker_id@, second.session_token@) is Ok,
        then.coordinator.membership.world_size() > 0,
    ensures
        ({
            let begun = checkpoint_svc::begin_answer(state, first, at.0, at.1, at.2).1;
            checkpoint_svc::begin_answer(then, second, later.0, later.1, later.2).1 == Ok::<
                BegunView,
                StatusView,
            >(
                BegunView {
                    barrier_deadline: Some(status::timestamp(later.2, then.barrier_timeout_ms)),
                    ..begun->Ok_0
                },
            )
        }),
{
    let after = checkpoint_svc::begin_answer(state, first, at.0, at.1, at.2).0;
    let id = state.targets[first.target_id@].target_id;
    let barriers = state.coordinator.barriers;
    let expected = state.coordinator.membership.world_size();
    assert forall|token: Seq<char>| #[trigger]
        after.coordinator.barriers.barriers.contains_key(
            token,
        ) implies after.coordinator.barriers.barriers[token].consistent()
        && after.coordinator.barriers.barriers[token].token == token by {
        if barriers.barriers.contains_key(token) {
            assert(barriers.barriers[token].consistent());
        }
    }
    assert(after.coordinator.barriers == barriers.begin(id, first.step, expected, at.0, at.1).0);
    barrier_laws::a_step_keeps_its_barrier(
        after.coordinator.barriers,
        id,
        first.step,
        requests,
        then.coordinator.membership.world_size(),
        later.0,
        later.1,
    );
}

/// Chunks are verified and a manifest comes in sight only for a checkpoint whose
/// barrier has its quorum; then all chunks reported for it are verified, with
/// their contents.
pub proof fn only_a_quorum_is_verified(state: AppView, req: CommitCheckpointRequest, now: nat)
    requires
        state.consistent(),
        checkpoint_svc::commit_start_answer(state, req, now).1 is Verify,
    ensures
        ({
            let barrier = state.coordinator.barriers.barriers[req.checkpoint_token@];
            let run = checkpoint_svc::commit_start_answer(state, req, now).1->run;
            &&& barrier.status == BarrierStatus::Ready
            &&& barrier.completed_ranks.len() >= barrier.required
            &&& run.step == barrier.step
            &&& run.chunks == state.chunks_of(req.checkpoint_token@)
            &&& run.verify_content
            &&& checkpoint_svc::commit_start_answer(state, req, now).0.coordinator.barriers.barriers
                == state.coordinator.barriers.barriers
        }),
{
    let token = req.checkpoint_token@;
    let barriers = state.coordinator.barriers;
    assert(barriers.barriers[token].consistent());
    assert(barriers.with(barriers.barriers[token]).barriers =~= barriers.barriers);
}

/// Committing is idempotent: once a checkpoint is committed, every further
/// request for it is answered with the same manifest.
pub proof fn committing_again_finds_the_manifest(
    state: AppView,
    first: CommitCheckpointRequest,
    again: CommitCheckpointRequest,
    bytes: u64,
    now: nat,
    later: nat,
    then: nat,
)
    requires
        state.consistent(),
        first.checkpoint_token@ == again.checkpoint_token@,
        checkpoint_svc::commit_start_answer(state, first, now).1 is Verify,
        state.auth(again.worker_id@, again.session_token@) is Ok,
    ensures
        ({
            let token = first.checkpoint_token@;
            let (started, start) = checkpoint_svc::commit_start_answer(state, first, now);
            let key = layout::manifest_name(start->run.prefix, start->run.step);
            let (ended, end) = checkpoint_svc::commit_end_answer(
                started,
                token,
                bytes,
                Ok(key),
                later,
            );
            &&& end.answer == Ok::<(CommitStatus, Seq<char>), StatusView>(
                (CommitStatus::Committed, key),
            )
            &&& end.committed_bytes == Some(bytes)
            &&& !ended.reported.contains_key(token)
            &&& checkpoint_svc::commit_start_answer(ended, again, then).1
                == CommitStartView::Answer(Ok((CommitStatus::Committed, key)))
        }),
{
    only_a_quorum_is_verified(state, first, now);
}

/// A checkpoint that fails verification is aborted, with the reason kept, and
/// every further request for it is answered so.
pub proof fn failed_verification_aborts(
    state: AppView,
    first: CommitCheckpointRequest,
    again: CommitCheckpointRequest,
    bytes: u64,
    step: Seq<char>,
    reason: Seq<char>,
    now: nat,
    later: nat,
    then: nat,
)
    requires
        state.consistent(),
        first.checkpoint_token@ == again.checkpoint_token@,
        checkpoint_svc::commit_start_answer(state, first, now).1 is Verify,
        state.auth(again.worker_id@, again.session_token@) is Ok,
    ensures
        ({
            let token = first.checkpoint_token@;
            let error = ErrorView::CheckpointCorrupt { token: step, reason };
            let started = checkpoint_svc::commit_start_answer(state, first, now).0;
            let (ended, end) = checkpoint_svc::commit_end_answer(
                started,
                token,
                bytes,
                Err(error),
                later,
            );
            &&& end.answer == Ok::<(CommitStatus, Seq<char>), StatusView>(
                (CommitStatus::Aborted, Seq::empty()),
            )
            &&& end.aborted
            &&& ended.coordinator.barriers.barriers[token].abort_reason == Some(error.message())
            &&& checkpoint_svc::commit_start_answer(ended, again, then).1
                == CommitStartView::Answer(Ok((CommitStatus::Aborted, Seq::empty())))
        }),
{
    only_a_quorum_is_verified(state, first, now);
}

/// A storage failure during a commit decides nothing: the barrier stays ready,
/// the reports stay, and the commit can be asked for again.
pub proof fn storage_failure_decides_nothing(
    state: AppView,
    token: Seq<char>,
    bytes: u64,
    error: ErrorView,
    now: nat,
)
    requires
        !(error is CheckpointCorrupt),
    ensures
        checkpoint_svc::commit_end_answer(state, token, bytes, Err(error), now).0 == state,
        checkpoint_svc::commit_end_answer(state, token, bytes, Err(error), now).1.answer
            == Err::<(CommitStatus, Seq<char>), StatusView>(status::status_for(error)),
{
}

/// Whoever does not authenticate changes nothing, whatever they ask for.
pub proof fn strangers_change_nothing(
    state: AppView,
    target: RegisterCheckpointTargetRequest,
    begin: BeginCheckpointRequest,
    report: ReportChunkRequest,
    commit: CommitCheckpointRequest,
    abort: AbortCheckpointRequest,
    now: nat,
    uuid: Seq<char>,
    wall: i128,
)
    ensures
        state.auth(target.worker_id@, target.session_token@) is Err
            ==> checkpoint_svc::register_target_answer(state, target).0 == state,
        state.auth(begin.worker_id@, begin.session_token@) is Err
            ==> checkpoint_svc::begin_answer(state, begin, now, uuid, wall).0 == state,
        state.auth(report.worker_id@, report.session_token@) is Err
            ==> checkpoint_svc::report_answer(state, report, now).0 == state,
        state.auth(commit.worker_id@, commit.session_token@) is Err
            ==> checkpoint_svc::commit_start_answer(state, commit, now).0 == state,
        state.auth(abort.worker_id@, abort.session_token@) is Err
            ==> checkpoint_svc::abort_answer(state, abort).0 == state,
{
}

/// Reports add up: what was reported for a checkpoint stays reported, and what
/// comes in is added behind it.
pub proof fn reports_add_up(state: AppView, req: ReportChunkRequest, now: nat)
    requires
        state.auth(req.worker_id@, req.session_token@) is Ok,
    ensures
        checkpoint_svc::report_answer(state, req, now).0.chunks_of(req.checkpoint_token@)
            == state.chunks_of(req.checkpoint_token@) + manifest::views(req.chunks@),
{
}

/// Registering a target again finds it as it was registered first.
pub proof fn registering_a_target_again_finds_it(
    state: AppView,
    uri: Seq<char>,
    first: (u64, u32),
    second: (u64, u32),
)
    requires
        state.register_target(uri, first.0, first.1).1 is Ok,
    ensures
        ({
            let (after, registered) = state.register_target(uri, first.0, first.1);
            after.register_target(uri, second.0, second.1) == (
                after,
                Ok::<(crate::state::TargetView, bool), ErrorView>((registered->Ok_0.0, true)),
            )
        }),
{
}

/// Garbage collection spares every step whose barrier is open, whether or not
/// anything was reported for it.
pub proof fn open_checkpoints_are_spared(
    state: AppView,
    steps: Seq<u64>,
    token: Seq<char>,
    now: nat,
)
    requires
        state.coordinator.barriers.lists_open_steps(steps, now),
        state.coordinator.barriers.open_tokens(now).contains(token),
    ensures
        steps.contains(state.coordinator.barriers.barriers[token].step),
{
    let barriers = state.coordinator.barriers;
    let tokens = choose|tokens: Seq<Seq<char>>|
        {
            &&& #[trigger] tokens.no_duplicates()
            &&& tokens.to_set() == barriers.open_tokens(now)
            &&& steps == barriers.steps_of(tokens)
        };
    assert(tokens.to_set().contains(token));
    let i = tokens.index_of(token);
    assert(steps[i] == barriers.barriers[token].step);
}

/// A recovery that found a manifest answers with exactly that manifest: its step,
/// the key of that step's manifest, and its chunks, all of them, one by one and in
/// their order. One that found nothing answers so, with nothing in it; a failure
/// is answered as one.
pub proof fn a_recovered_manifest_is_answered_whole(
    prefix: Seq<char>,
    found: ManifestView,
    failure: ErrorView,
    i: int,
)
    requires
        0 <= i,
    ensures
        ({
            let answer = checkpoint_svc::latest_answer(prefix, Ok(Some(found)));
            &&& answer is Ok
            &&& answer->Ok_0.found
            &&& answer->Ok_0.step == found.step
            &&& answer->Ok_0.manifest_key == text::trim(prefix, '/') + "/manifests/step-"@
                + text::decimal(found.step as nat) + ".json"@
            &&& layout::manifest_step(answer->Ok_0.manifest_key) == found.step
            &&& answer->Ok_0.chunks.len() == found.chunks.len()
            &&& i < found.chunks.len() ==> answer->Ok_0.chunks[i] == found.chunks[i]
        }),
        ({
            let answer = checkpoint_svc::latest_answer(prefix, Ok(None));
            &&& answer is Ok
            &&& !answer->Ok_0.found
            &&& answer->Ok_0.step == 0
            &&& answer->Ok_0.manifest_key.len() == 0
            &&& answer->Ok_0.chunks.len() == 0
        }),
        checkpoint_svc::latest_answer(prefix, Err(failure)) is Err,
{
    layout::manifest_key_names_its_step(prefix, found.step);
}

/// A target is registered with the URI, chunk size and retention that were asked for,
/// and the answer is its handle and whether it was known. A request without a target,
/// or for a way of writing other than the atomic one, is refused, and nothing changes.
pub proof fn a_target_is_registered_as_asked(state: AppView, req: RegisterCheckpointTargetRequest)
    requires
        state.auth(req.worker_id@, req.session_token@) is Ok,
    ensures
        ({
            let (after, out) = checkpoint_svc::register_target_answer(state, req);
            let spec = req.spec->0;
            let mode = spec.write_mode@;
            let (filed, found) = state.register_target(
                spec.uri@,
                spec.chunk_bytes,
                spec.keep_last,
            );
            let fits = req.spec is Some && (mode.len() == 0 || mode == "atomic"@);
            &&& fits ==> after == filed
            &&& fits && found is Ok ==> out == Ok::<(Seq<char>, bool), StatusView>(
                (found->Ok_0.0.target_id, found->Ok_0.1),
            )
            &&& fits && found is Err ==> out == Err::<(Seq<char>, bool), StatusView>(
                status::status_for(found->Err_0),
            )
            &&& !fits ==> after == state && out is Err && out->Err_0.code == Code::InvalidArgument
            &&& req.spec is None ==> out->Err_0.message == "checkpoint spec is required"@
            &&& req.spec is Some && !fits ==> out->Err_0.message == "unsupported write_mode '"@
                + mode + "' (v1 supports: atomic)"@
        }),
{
}

/// Who begins a checkpoint opens or joins the barrier of that target and step, for as
/// many ranks as the live workers' largest world size. The answer is the barrier's token
/// and quorum, where to upload, and when the barrier gives up. Where nobody is
/// registered, or the target is not known, it is refused, and nothing changes.
pub proof fn a_begun_checkpoint_is_its_barrier(
    state: AppView,
    req: BeginCheckpointRequest,
    now: nat,
    uuid: Seq<char>,
    wall: i128,
)
    requires
        state.auth(req.worker_id@, req.session_token@) is Ok,
    ensures
        ({
            let (after, out) = checkpoint_svc::begin_answer(state, req, now, uuid, wall);
            let known = state.targets.contains_key(req.target_id@);
            let target = state.targets[req.target_id@];
            let expected = state.coordinator.membership.world_size();
            let (begun, barrier) = state.coordinator.barriers.begin(
                target.target_id,
                req.step,
                expected,
                now,
                uuid,
            );
            &&& out is Ok <==> known && expected > 0
            &&& out is Ok ==> {
                &&& after == state.with_barriers(begun)
                &&& out->Ok_0.checkpoint_token == barrier.token
                &&& out->Ok_0.upload_prefix == text::trim(target.prefix, '/')
                    + "/tmp/ckpt-step-"@ + text::decimal(req.step as nat)
                &&& out->Ok_0.expected_participants == barrier.expected
                &&& out->Ok_0.required_participants == barrier.required
                &&& out->Ok_0.barrier_deadline == Some(
                    status::timestamp(wall, state.barrier_timeout_ms),
                )
            }
            &&& out is Err ==> after == state
            &&& !known ==> out == Err::<BegunView, StatusView>(
                status::status_for(
                    ErrorView::InvalidArgument("unknown target "@ + req.target_id@),
                ),
            )
            &&& known && expected == 0 ==> out == Err::<BegunView, StatusView>(
                StatusView {
                    code: Code::FailedPrecondition,
                    message: "no registered workers; register workers before checkpointing"@,
                },
            )
        }),
{
}

/// A report keeps the chunks for its checkpoint, every one of them. One that says the
/// rank is done counts the reporting worker's own rank; every other one answers how many
/// ranks have reported so far.
pub proof fn a_report_counts_its_worker(state: AppView, req: ReportChunkRequest, now: nat)
    requires
        state.auth(req.worker_id@, req.session_token@) is Ok,
    ensures
        ({
            let (after, out) = checkpoint_svc::report_answer(state, req, now);
            let token = req.checkpoint_token@;
            let chunks = manifest::views(req.chunks@);
            let (seen, found) = state.coordinator.barriers.get(token, now);
            let rank = state.coordinator.membership.workers[req.worker_id@].rank;
            let (joined, count) = seen.rank_complete(token, rank, now);
            &&& after.chunks_of(token) == state.chunks_of(token) + chunks
            &&& forall|other: Seq<char>|
                other != token ==> #[trigger] after.chunks_of(other) == state.chunks_of(other)
            &&& found is Err ==> out == Err::<u32, StatusView>(status::status_for(found->Err_0))
            &&& found is Ok && !req.rank_complete ==> {
                &&& after.coordinator.barriers == seen
                &&& out == Ok::<u32, StatusView>(found->Ok_0.completed_ranks.len() as u32)
            }
            &&& found is Ok && req.rank_complete ==> {
                &&& after.coordinator.barriers == joined
                &&& count is Ok ==> out == Ok::<u32, StatusView>(count->Ok_0)
                &&& count is Err ==> out == Err::<u32, StatusView>(
                    status::status_for(count->Err_0),
                )
            }
            &&& after.coordinator.membership == state.coordinator.membership
            &&& after.coordinator.leases == state.coordinator.leases
            &&& after.targets == state.targets
            &&& after.io == state.io
        }),
{
    assert(state.coordinator.membership.workers.contains_key(req.worker_id@));
}

/// Whose rank a report counts: the worker's own while it is known, else that of the
/// first chunk, and nobody's where there is none.
pub proof fn a_report_is_for_a_rank(state: AppView, worker: Seq<char>, chunks: Seq<ChunkView>)
    ensures
        ({
            let workers = state.coordinator.membership.workers;
            let rank = checkpoint_svc::reporting_rank(state, worker, chunks);
            &&& workers.contains_key(worker) ==> rank == Some(workers[worker].rank)
            &&& !workers.contains_key(worker) && chunks.len() > 0 ==> rank == Some(chunks[0].rank)
            &&& !workers.contains_key(worker) && chunks.len() == 0 ==> rank is None
        }),
{
}

/// A commit goes by the barrier: one that waits or was aborted is answered so, one that
/// is committed with its manifest's key, and one that is ready goes to verification,
/// with all chunks that were reported for it, their contents to be read, and the bytes
/// they add up to. Chunks and targets stay as they are.
pub proof fn a_commit_goes_by_its_barrier(state: AppView, req: CommitCheckpointRequest, now: nat)
    requires
        state.auth(req.worker_id@, req.session_token@) is Ok,
        state.coordinator.barriers.consistent(),
    ensures
        ({
            let (after, out) = checkpoint_svc::commit_start_answer(state, req, now);
            let token = req.checkpoint_token@;
            let barriers = state.coordinator.barriers.barriers;
            let barrier = barriers[token];
            let known = barriers.contains_key(token);
            let late = barrier.status == BarrierStatus::Pending && now > barrier.deadline;
            let filed = state.targets.contains_key(barrier.target_id);
            let prefix = state.targets[barrier.target_id].prefix;
            &&& after == state.with_barriers(state.coordinator.barriers.get(token, now).0)
            &&& !known ==> out == CommitStartView::Answer(
                Err(status::status_for(ErrorView::UnknownCheckpoint(token))),
            )
            &&& known && barrier.status == BarrierStatus::Pending && !late ==> out
                == CommitStartView::Answer(Ok((CommitStatus::Pending, Seq::empty())))
            &&& known && (late || barrier.status == BarrierStatus::Aborted) ==> out
                == CommitStartView::Answer(Ok((CommitStatus::Aborted, Seq::empty())))
            &&& known && filed && barrier.status == BarrierStatus::Committed ==> out
                == CommitStartView::Answer(
                Ok(
                    (
                        CommitStatus::Committed,
                        text::trim(prefix, '/') + "/manifests/step-"@ + text::decimal(
                            barrier.step as nat,
                        ) + ".json"@,
                    ),
                ),
            )
            &&& known && filed && barrier.status == BarrierStatus::Ready ==> out
                == (CommitStartView::Verify {
                run: CommitView::started(prefix, barrier.step, state.chunks_of(token), true),
                bytes: manifest::total(state.chunks_of(token)),
            })
            &&& known && !filed && (barrier.status == BarrierStatus::Ready || barrier.status
                == BarrierStatus::Committed) ==> out == CommitStartView::Answer(
                Err(
                    status::status_for(
                        ErrorView::InvalidArgument("unknown target "@ + barrier.target_id),
                    ),
                ),
            )
        }),
{
}

/// What a verified checkpoint ends in: its barrier is committed, what was reported for
/// it is forgotten, and the answer is its manifest's key and the bytes committed. Where
/// the barrier does not allow it, that is told, and nothing is forgotten.
pub proof fn a_verified_checkpoint_is_committed(
    state: AppView,
    token: Seq<char>,
    bytes: u64,
    key: Seq<char>,
    now: nat,
)
    ensures
        ({
            let (after, out) = checkpoint_svc::commit_end_answer(
                state,
                token,
                bytes,
                Ok(key),
                now,
            );
            let (marked, allowed) = state.coordinator.barriers.mark_committed(token, now);
            &&& after.coordinator.barriers == marked
            &&& allowed is Ok ==> out.answer == Ok::<(CommitStatus, Seq<char>), StatusView>(
                (CommitStatus::Committed, key),
            )
            &&& allowed is Ok ==> out.committed_bytes == Some(bytes)
            &&& allowed is Ok ==> !after.reported.contains_key(token)
            &&& allowed is Err ==> out.answer == Err::<(CommitStatus, Seq<char>), StatusView>(
                status::status_for(allowed->Err_0),
            )
            &&& allowed is Err ==> out.committed_bytes is None && after.reported == state.reported
            &&& !out.aborted
            &&& forall|other: Seq<char>|
                other != token ==> #[trigger] after.chunks_of(other) == state.chunks_of(other)
            &&& after.coordinator.membership == state.coordinator.membership
            &&& after.coordinator.leases == state.coordinator.leases
            &&& after.targets == state.targets
            &&& after.io == state.io
        }),
{
}

/// What a checkpoint that does not verify ends in: a corrupt one is aborted for what is
/// wrong with it, forgotten, and answered as aborted. Any other failure is told and
/// changes nothing, so that the commit can be tried again.
pub proof fn only_corruption_aborts(
    state: AppView,
    token: Seq<char>,
    bytes: u64,
    e: ErrorView,
    now: nat,
)
    ensures
        ({
            let (after, out) = checkpoint_svc::commit_end_answer(
                state,
                token,
                bytes,
                Err(e),
                now,
            );
            let (marked, done) = state.coordinator.barriers.abort(token, e.message());
            &&& out.committed_bytes is None
            &&& out.aborted <==> e is CheckpointCorrupt && done is Ok
            &&& e is CheckpointCorrupt ==> after.coordinator.barriers == marked
            &&& out.aborted ==> out.answer == Ok::<(CommitStatus, Seq<char>), StatusView>(
                (CommitStatus::Aborted, Seq::empty()),
            )
            &&& out.aborted ==> !after.reported.contains_key(token)
            &&& !(e is CheckpointCorrupt) ==> after == state && out.answer == Err::<
                (CommitStatus, Seq<char>),
                StatusView,
            >(status::status_for(e))
            &&& e is CheckpointCorrupt && done is Err ==> out.answer == Err::<
                (CommitStatus, Seq<char>),
                StatusView,
            >(status::status_for(done->Err_0))
            &&& forall|other: Seq<char>|
                other != token ==> #[trigger] after.chunks_of(other) == state.chunks_of(other)
            &&& after.coordinator.membership == state.coordinator.membership
            &&& after.coordinator.leases == state.coordinator.leases
            &&& after.targets == state.targets
            &&& after.io == state.io
        }),
{
}

/// An abort that is asked for aborts the barrier for the reason given and forgets what
/// was reported for it; a barrier that is not known is told, and nothing is forgotten.
pub proof fn an_abort_forgets_the_reports(state: AppView, req: AbortCheckpointRequest)
    requires
        state.auth(req.worker_id@, req.session_token@) is Ok,
    ensures
        ({
            let (after, out) = checkpoint_svc::abort_answer(state, req);
            let token = req.checkpoint_token@;
            let barriers = state.coordinator.barriers;
            let known = barriers.barriers.contains_key(token);
            &&& out is Ok <==> known
            &&& after.coordinator.barriers == barriers.abort(token, req.reason@).0
            &&& known ==> !after.reported.contains_key(token)
            &&& !known ==> after.reported == state.reported && out == Err::<(), StatusView>(
                status::status_for(ErrorView::UnknownCheckpoint(token)),
            )
            &&& forall|other: Seq<char>|
                other != token ==> #[trigger] after.chunks_of(other) == state.chunks_of(other)
            &&& after.coordinator.membership == state.coordinator.membership
            &&& after.coordinator.leases == state.coordinator.leases
            &&& after.targets == state.targets
            &&& after.io == state.io
        }),
{
}

/// Answers about checkpoints are seen as they are.
pub proof fn checkpoint_answers_are_seen_as_they_are(
    begun: BeginCheckpointResponse,
    latest: GetLatestManifestResponse,
    committed: Result<CommitCheckpointResponse, Status>,
    target: Result<RegisterCheckpointTargetResponse, Status>,
    end: CommitEnd,
    outcome: Result<String, DtrError>,
    i: int,
)
    ensures
        begun@.checkpoint_token == begun.checkpoint_token@,
        begun@.upload_prefix == begun.upload_prefix@,
        begun@.expected_participants == begun.expected_participants,
        begun@.required_participants == begun.required_participants,
        begun@.barrier_deadline == begun.barrier_deadline,
        checkpoint_svc::begin_answered(Ok(begun)) == Ok::<BegunView, StatusView>(begun@),
        latest@.found == latest.found,
        latest@.step == latest.step,
        latest@.manifest_key == latest.manifest_key@,
        latest@.chunks.len() == latest.chunks@.len(),
        0 <= i < latest.chunks@.len() ==> latest@.chunks[i] == latest.chunks@[i]@,
        checkpoint_svc::latest_answered(Ok(latest)) == Ok::<LatestView, StatusView>(latest@),
        match committed {
            Ok(r) => checkpoint_svc::commit_answered(committed) == Ok::<
                (CommitStatus, Seq<char>),
                StatusView,
            >((r.status, r.manifest_key@)),
            Err(refused) => checkpoint_svc::commit_answered(committed) == Err::<
                (CommitStatus, Seq<char>),
                StatusView,
            >(refused@),
        },
        match target {
            Ok(r) => checkpoint_svc::target_answered(target) == Ok::<
                (Seq<char>, bool),
                StatusView,
            >((r.target_id@, r.already_registered)),
            Err(refused) => {
                &&& checkpoint_svc::target_answered(target) == Err::<
                    (Seq<char>, bool),
                    StatusView,
                >(refused@)
                &&& checkpoint_svc::begin_answered(Err(refused)) == Err::<BegunView, StatusView>(
                    refused@,
                )
                &&& checkpoint_svc::latest_answered(Err(refused)) == Err::<
                    LatestView,
                    StatusView,
                >(refused@)
            },
        },
        end@.committed_bytes == end.committed_bytes,
        end@.aborted == end.aborted,
        end@.answer == checkpoint_svc::commit_answered(end.answer),
        match outcome {
            Ok(key) => checkpoint_svc::commit_outcome(outcome) == Ok::<Seq<char>, ErrorView>(key@),
            Err(e) => checkpoint_svc::commit_outcome(outcome) == Err::<Seq<char>, ErrorView>(e@),
        },
{
}

/// What is decided about a commit, and what a recovery found, are seen as they are.
pub proof fn outcomes_are_seen_as_they_are(
    start: CommitStart,
    outcome: Result<Option<Manifest>, DtrError>,
)
    ensures
        match start {
            CommitStart::Answer(answer) => start@ == CommitStartView::Answer(
                checkpoint_svc::commit_answered(answer),
            ),
            CommitStart::Verify { run, bytes } => start@ == (CommitStartView::Verify {
                run: run@,
                bytes: bytes as nat,
            }),
        },
        match outcome {
            Ok(Some(found)) => checkpoint_svc::recovery_outcome(outcome) == Ok::<
                Option<ManifestView>,
                ErrorView,
            >(Some(found@)),
            Ok(None) => checkpoint_svc::recovery_outcome(outcome) == Ok::<
                Option<ManifestView>,
                ErrorView,
            >(None),
            Err(e) => checkpoint_svc::recovery_outcome(outcome) == Err::<
                Option<ManifestView>,
                ErrorView,
            >(e@),
        },
{
}

/// A commit goes to verification exactly if its session counts, its barrier is ready and
/// the target of that is known, at whatever time it is asked for.
pub proof fn only_ready_checkpoints_are_verified(
    state: AppView,
    req: CommitCheckpointRequest,
    now: nat,
)
    ensures
        checkpoint_svc::goes_to_verification(state, req)
            <==> checkpoint_svc::commit_start_answer(state, req, now).1 is Verify,
        checkpoint_svc::goes_to_verification(state, req) <==> {
            let barriers = state.coordinator.barriers.barriers;
            let token = req.checkpoint_token@;
            &&& state.auth(req.worker_id@, req.session_token@) is Ok
            &&& barriers.contains_key(token)
            &&& barriers[token].status == BarrierStatus::Ready
            &&& state.targets.contains_key(barriers[token].target_id)
        },
{
}

} // verus!
