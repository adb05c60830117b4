//! RuntimeService: membership, datasets, shard leases.
//!
//! Each function answers one request against the shared state. Those whose name
//! ends in `_at` take the clock reading and the random identifier that the
//! request is answered with; the wall clock always comes from the caller.

use crate::coordinator::CoordinatorState;
use crate::error::DtrError;
use crate::error::ErrorView;
use crate::lease;
use crate::lease::LeaseState;
use crate::lease::LeaseView;
use crate::membership::MembershipState;
use crate::outside;
use crate::state::AppState;
use crate::state::AppView;
use crate::status;
use crate::status::Code;
use crate::status::Status;
use crate::status::StatusView;
use crate::status::Timestamp;
use crate::types::DatasetId;
use crate::types::LeaseId;
use crate::types::ShardRange;
use crate::types::WorkerId;
use std::collections::HashMap;
use vstd::prelude::*;

verus! {

#[derive(Debug)]
pub struct RegisterWorkerRequest {
    pub worker_id: String,
    pub rank: u32,
    pub world_size: u32,
    pub labels: HashMap<String, String>,
}

#[derive(Debug)]
pub struct RegisterWorkerResponse {
    pub session_token: String,
    pub heartbeat_interval_ms: u64,
    pub missed_heartbeats_allowed: u32,
}

/// A [`RegisterWorkerResponse`] with its token as a character sequence.
#[verifier::ext_equal]
pub struct RegisteredView {
    pub session_token: Seq<char>,
    pub heartbeat_interval_ms: u64,
    pub missed_heartbeats_allowed: u32,
}

impl View for RegisterWorkerResponse {
    type V = RegisteredView;

    open spec fn view(&self) -> RegisteredView {
        RegisteredView {
            session_token: self.session_token@,
            heartbeat_interval_ms: self.heartbeat_interval_ms,
            missed_heartbeats_allowed: self.missed_heartbeats_allowed,
        }
    }
}

#[derive(Debug)]
pub struct HeartbeatRequest {
    pub worker_id: String,
    pub session_token: String,
    pub current_step: u64,
}

#[derive(Debug, Clone, Copy, PartialEq, Eq, Structural)]
pub struct HeartbeatResponse {
    pub must_reregister: bool,
    pub server_time: Option<Timestamp>,
}

#[derive(Debug)]
pub struct DatasetSpec {
    pub uri: String,
    pub num_shards: u32,
}

#[derive(Debug)]
pub struct RegisterDatasetRequest {
    pub worker_id: String,
    pub session_token: String,
    pub spec: Option<DatasetSpec>,
}

#[derive(Debug)]
pub struct RegisterDatasetResponse {
    pub dataset_id: String,
    pub already_registered: bool,
}

#[derive(Debug)]
pub struct AcquireShardLeaseRequest {
    pub worker_id: String,
    pub session_token: String,
    pub dataset_id: String,
    pub epoch: u64,
    pub requested_shards: u32,
}

#[derive(Debug)]
pub struct AcquireShardLeaseResponse {
    pub lease_id: String,
    pub shards: Option<ShardRange>,
    pub lease_ttl_ms: u64,
    pub expires_at: Option<Timestamp>,
}

#[derive(Debug)]
pub struct RenewShardLeaseRequest {
    pub worker_id: String,
    pub session_token: String,
    pub lease_id: String,
}

#[derive(Debug, Clone, Copy, PartialEq, Eq, Structural)]
pub struct RenewShardLeaseResponse {
    pub expires_at: Option<Timestamp>,
    pub renewed: bool,
}

#[derive(Debug)]
pub struct ReleaseShardLeaseRequest {
    pub worker_id: String,
    pub session_token: String,
    pub lease_id: String,
    pub completed: bool,
}

/// An [`AcquireShardLeaseResponse`] with its identifier as a character sequence.
#[verifier::ext_equal]
pub struct GrantView {
    pub lease_id: Seq<char>,
    pub shards: Option<ShardRange>,
    pub lease_ttl_ms: u64,
    pub expires_at: Option<Timestamp>,
}

impl View for AcquireShardLeaseResponse {
    type V = GrantView;

    open spec fn view(&self) -> GrantView {
        GrantView {
            lease_id: self.lease_id@,
            shards: self.shards,
            lease_ttl_ms: self.lease_ttl_ms,
            expires_at: self.expires_at,
        }
    }
}

/// The leases are replaced.
pub open spec fn with_leases(state: AppView, leases: LeaseState) -> AppView {
    AppView { coordinator: CoordinatorState { leases, ..state.coordinator }, ..state }
}

/// The registry is replaced.
pub open spec fn with_membership(state: AppView, membership: MembershipState) -> AppView {
    AppView { coordinator: CoordinatorState { membership, ..state.coordinator }, ..state }
}

/// A refusal with the given code.
pub open spec fn refusal(code: Code, message: Seq<char>) -> StatusView {
    StatusView { code, message }
}

/// What a heartbeat is answered. A worker that is not known is told to register
/// again instead of being refused: recovery is protocol-driven.
pub open spec fn heartbeat_answer(accepted: Result<(), ErrorView>, wall: i128) -> Result<
    HeartbeatResponse,
    StatusView,
> {
    match accepted {
        Ok(()) => Ok(
            HeartbeatResponse {
                must_reregister: false,
                server_time: Some(status::timestamp(wall, 0)),
            },
        ),
        Err(ErrorView::UnknownWorker(_)) => Ok(
            HeartbeatResponse {
                must_reregister: true,
                server_time: Some(status::timestamp(wall, 0)),
            },
        ),
        Err(e) => Err(status::status_for(e)),
    }
}

/// What a heartbeat does to the state, and what is answered.
pub open spec fn heartbeat_reply(
    state: AppView,
    req: HeartbeatRequest,
    now: nat,
    wall: i128,
) -> (AppView, Result<HeartbeatResponse, StatusView>) {
    let (after, accepted) = state.coordinator.membership.heartbeat(
        req.worker_id@,
        req.session_token@,
        req.current_step,
        now,
    );
    (with_membership(state, after), heartbeat_answer(accepted, wall))
}

/// What registering a dataset does to the state, and what is answered.
pub open spec fn register_dataset_answer(state: AppView, req: RegisterDatasetRequest) -> (
    AppView,
    Result<(Seq<char>, bool), StatusView>,
) {
    match state.auth(req.worker_id@, req.session_token@) {
        Err(e) => (state, Err(status::status_for(e))),
        Ok(()) => match req.spec {
            None => (state, Err(refusal(Code::InvalidArgument, "dataset spec is required"@))),
            Some(spec) => if spec.num_shards == 0 {
                (state, Err(refusal(Code::InvalidArgument, "num_shards must be > 0"@)))
            } else {
                let leases = state.coordinator.leases;
                let id = lease::dataset_handle(spec.uri@);
                (
                    with_leases(state, leases.registered(spec.uri@, spec.num_shards)),
                    Ok((id, leases.datasets.contains_key(id))),
                )
            },
        },
    }
}

/// What a lease request is answered, given what was acquired. An exhausted pool
/// is answered with an empty response.
pub open spec fn grant_answer(
    acquired: Result<Option<LeaseView>, ErrorView>,
    ttl_ms: u64,
    wall: i128,
) -> Result<GrantView, StatusView> {
    match acquired {
        Err(e) => Err(status::status_for(e)),
        Ok(Some(lease)) => Ok(
            GrantView {
                lease_id: lease.lease_id,
                shards: Some(lease.shards),
                lease_ttl_ms: ttl_ms,
                expires_at: Some(status::timestamp(wall, ttl_ms)),
            },
        ),
        Ok(None) => Ok(
            GrantView {
                lease_id: Seq::empty(),
                shards: None,
                lease_ttl_ms: 0,
                expires_at: None,
            },
        ),
    }
}

/// What acquiring does to the state, and what is answered.
pub open spec fn acquire_answer(
    state: AppView,
    req: AcquireShardLeaseRequest,
    now: nat,
    uuid: Seq<char>,
    wall: i128,
) -> (AppView, Result<GrantView, StatusView>) {
    match state.auth(req.worker_id@, req.session_token@) {
        Err(e) => (state, Err(status::status_for(e))),
        Ok(()) => {
            let leases = state.coordinator.leases;
            let (after, acquired) = leases.acquire(
                req.worker_id@,
                req.dataset_id@,
                req.epoch,
                req.requested_shards,
                now,
                uuid,
            );
            (with_leases(state, after), grant_answer(acquired, leases.ttl_ms, wall))
        },
    }
}

/// What renewing does to the state, and what is answered. A lapsed lease is a
/// fencing signal, not an error: the worker must stop reading.
pub open spec fn renew_answer(
    state: AppView,
    req: RenewShardLeaseRequest,
    now: nat,
    wall: i128,
) -> (AppView, Result<RenewShardLeaseResponse, StatusView>) {
    match state.auth(req.worker_id@, req.session_token@) {
        Err(e) => (state, Err(status::status_for(e))),
        Ok(()) => {
            let leases = state.coordinator.leases;
            let (after, renewed) = leases.renew(req.lease_id@, now);
            (
                with_leases(state, after),
                match renewed {
                    Ok(_) => Ok(
                        RenewShardLeaseResponse {
                            expires_at: Some(status::timestamp(wall, leases.ttl_ms)),
                            renewed: true,
                        },
                    ),
                    Err(ErrorView::LeaseExpired(_)) => Ok(
                        RenewShardLeaseResponse { expires_at: None, renewed: false },
                    ),
                    Err(e) => Err(status::status_for(e)),
                },
            )
        },
    }
}

/// What releasing does to the state, and what is answered. Releasing a lease
/// that has lapsed already is a no-op, not an error.
pub open spec fn release_answer(state: AppView, req: ReleaseShardLeaseRequest) -> (
    AppView,
    Result<(), StatusView>,
) {
    match state.auth(req.worker_id@, req.session_token@) {
        Err(e) => (state, Err(status::status_for(e))),
        Ok(()) => {
            let (after, released) = state.coordinator.leases.release(req.lease_id@, req.completed);
            (
                with_leases(state, after),
                match released {
                    Ok(()) => Ok(()),
                    Err(ErrorView::UnknownLease(_)) => Ok(()),
                    Err(e) => Err(status::status_for(e)),
                },
            )
        },
    }
}

/// An answer without views of its own, with its refusal in views.
pub open spec fn answered<T>(out: Result<T, Status>) -> Result<T, StatusView> {
    match out {
        Ok(response) => Ok(response),
        Err(refused) => Err(refused@),
    }
}

/// An answer to a registration of a dataset, in views.
pub open spec fn dataset_answered(out: Result<RegisterDatasetResponse, Status>) -> Result<
    (Seq<char>, bool),
    StatusView,
> {
    match out {
        Ok(response) => Ok((response.dataset_id@, response.already_registered)),
        Err(refused) => Err(refused@),
    }
}

/// An answer to a lease request, in views.
pub open spec fn grant_answered(out: Result<AcquireShardLeaseResponse, Status>) -> Result<
    GrantView,
    StatusView,
> {
    match out {
        Ok(response) => Ok(response@),
        Err(refused) => Err(refused@),
    }
}

/// What registering a worker does to the state, and what is answered.
pub open spec fn register_worker_answer(
    state: AppView,
    req: RegisterWorkerRequest,
    now: nat,
    token: Seq<char>,
) -> (AppView, Result<RegisteredView, StatusView>) {
    let membership = state.coordinator.membership;
    if req.worker_id@.len() == 0 {
        (state, Err(refusal(Code::InvalidArgument, "worker_id must not be empty"@)))
    } else {
        (
            with_membership(
                state,
                membership.registered(
                    req.worker_id@,
                    req.rank,
                    req.world_size,
                    req.labels@,
                    now,
                    token,
                ),
            ),
            Ok(
                RegisteredView {
                    session_token: token,
                    heartbeat_interval_ms: membership.heartbeat_interval_ms,
                    missed_heartbeats_allowed: membership.missed_allowed,
                },
            ),
        )
    }
}

/// An answer to a registration of a worker, in views.
pub open spec fn worker_answered(out: Result<RegisterWorkerResponse, Status>) -> Result<
    RegisteredView,
    StatusView,
> {
    match out {
        Ok(response) => Ok(response@),
        Err(refused) => Err(refused@),
    }
}

/// Registers a worker under a fresh session token.
pub fn register_worker(state: &mut AppState, req: RegisterWorkerRequest) -> (out: Result<
    RegisterWorkerResponse,
    Status,
>)
    requires
        old(state).wf(),
    ensures
        final(state).wf(),
        final(state).cfg == old(state).cfg,
        old(state).latest() <= final(state).latest() <= outside::MAX_NANOS,
        exists|token: Seq<char>|
            outside::is_uuid_v4(token) && (final(state)@, worker_answered(out))
                == #[trigger] register_worker_answer(
                old(state)@,
                req,
                final(state).latest(),
                token,
            ),
{
    let now: u128 = state.coordinator.now();
    assert(state@ == old(state)@);
    let token: String = outside::random_uuid();
    register_worker_at(state, req, now, token.as_str())
}

/// [`register_worker`] at the clock reading `now`, with the session token
/// `token`.
pub fn register_worker_at(
    state: &mut AppState,
    req: RegisterWorkerRequest,
    now: u128,
    token: &str,
) -> (out: Result<RegisterWorkerResponse, Status>)
    requires
        old(state).wf(),
    ensures
        final(state).wf(),
        final(state).cfg == old(state).cfg,
        final(state).latest() == old(state).latest(),
        (final(state)@, worker_answered(out)) == register_worker_answer(
            old(state)@,
            req,
            now as nat,
            token@,
        ),
{
    if req.worker_id.as_str().unicode_len() == 0 {
        return Err(status::refuse(Code::InvalidArgument, "worker_id must not be empty"));
    }
    let info = state.coordinator.membership.register_at(
        WorkerId(req.worker_id),
        req.rank,
        req.world_size,
        req.labels,
        now,
        token,
    );
    Ok(
        RegisterWorkerResponse {
            session_token: info.session_token,
            heartbeat_interval_ms: state.coordinator.membership.heartbeat_interval_ms(),
            missed_heartbeats_allowed: state.coordinator.membership.missed_heartbeats_allowed(),
        },
    )
}

/// Records a heartbeat.
pub fn heartbeat(state: &mut AppState, req: HeartbeatRequest, wall: i128) -> (out: Result<
    HeartbeatResponse,
    Status,
>)
    requires
        old(state).wf(),
        status::wall_clock(wall),
    ensures
        final(state).wf(),
        final(state).cfg == old(state).cfg,
        old(state).latest() <= final(state).latest() <= outside::MAX_NANOS,
        (final(state)@, answered(out)) == heartbeat_reply(
            old(state)@,
            req,
            final(state).latest(),
            wall,
        ),
{
    let now: u128 = state.coordinator.now();
    assert(state@ == old(state)@);
    heartbeat_at(state, req, now, wall)
}

/// [`heartbeat`] at the clock reading `now`.
pub fn heartbeat_at(state: &mut AppState, req: HeartbeatRequest, now: u128, wall: i128) -> (out:
    Result<HeartbeatResponse, Status>)
    requires
        old(state).wf(),
        status::wall_clock(wall),
    ensures
        final(state).wf(),
        final(state).cfg == old(state).cfg,
        final(state).latest() == old(state).latest(),
        (final(state)@, answered(out)) == heartbeat_reply(old(state)@, req, now as nat, wall),
{
    let must_reregister: bool = match state.coordinator.membership.heartbeat_at(
        &WorkerId(req.worker_id),
        req.session_token.as_str(),
        req.current_step,
        now,
    ) {
        Ok(()) => false,
        Err(DtrError::UnknownWorker(_)) => true,
        Err(e) => {
            return Err(status::to_status(e));
        },
    };
    Ok(
        HeartbeatResponse {
            must_reregister,
            server_time: Some(status::timestamp_after(wall, 0)),
        },
    )
}

/// Registers a dataset.
pub fn register_dataset(state: &mut AppState, req: RegisterDatasetRequest) -> (out: Result<
    RegisterDatasetResponse,
    Status,
>)
    requires
        old(state).wf(),
    ensures
        final(state).wf(),
        final(state).cfg == old(state).cfg,
        final(state).latest() == old(state).latest(),
        (final(state)@, dataset_answered(out)) == register_dataset_answer(old(state)@, req),
{
    if let Err(e) = state.auth(req.worker_id.as_str(), req.session_token.as_str()) {
        return Err(status::to_status(e));
    }
    match req.spec {
        None => Err(status::refuse(Code::InvalidArgument, "dataset spec is required")),
        Some(spec) => {
            if spec.num_shards == 0 {
                return Err(status::refuse(Code::InvalidArgument, "num_shards must be > 0"));
            }
            let (dataset_id, already_registered) = state.coordinator.leases.register_dataset(
                spec.uri.as_str(),
                spec.num_shards,
            );
            Ok(RegisterDatasetResponse { dataset_id: dataset_id.0, already_registered })
        },
    }
}

/// Leases shards to a worker.
pub fn acquire_shard_lease(
    state: &mut AppState,
    req: AcquireShardLeaseRequest,
    wall: i128,
) -> (out: Result<AcquireShardLeaseResponse, Status>)
    requires
        old(state).wf(),
        status::wall_clock(wall),
    ensures
        final(state).wf(),
        final(state).cfg == old(state).cfg,
        old(state).latest() <= final(state).latest() <= outside::MAX_NANOS,
        exists|uuid: Seq<char>|
            outside::is_uuid_v4(uuid) && (final(state)@, grant_answered(out))
                == #[trigger] acquire_answer(old(state)@, req, final(state).latest(), uuid, wall),
{
    let now: u128 = state.coordinator.now();
    assert(state@ == old(state)@);
    let uuid: String = outside::random_uuid();
    acquire_shard_lease_at(state, req, now, uuid.as_str(), wall)
}

/// [`acquire_shard_lease`] at the clock reading `now`, for a lease that gets its
/// name from `uuid`.
pub fn acquire_shard_lease_at(
    state: &mut AppState,
    req: AcquireShardLeaseRequest,
    now: u128,
    uuid: &str,
    wall: i128,
) -> (out: Result<AcquireShardLeaseResponse, Status>)
    requires
        old(state).wf(),
        now <= outside::MAX_NANOS,
        status::wall_clock(wall),
    ensures
        final(state).wf(),
        final(state).cfg == old(state).cfg,
        final(state).latest() == old(state).latest(),
        (final(state)@, grant_answered(out)) == acquire_answer(
            old(state)@,
            req,
            now as nat,
            uuid@,
            wall,
        ),
{
    let worker: WorkerId = match state.auth(
        req.worker_id.as_str(),
        req.session_token.as_str(),
    ) {
        Ok(worker) => worker,
        Err(e) => {
            return Err(status::to_status(e));
        },
    };
    let ttl: u64 = state.coordinator.leases.ttl_ms();
    match state.coordinator.leases.acquire_at(
        worker,
        &DatasetId(req.dataset_id),
        req.epoch,
        req.requested_shards,
        now,
        uuid,
    ) {
        Err(e) => Err(status::to_status(e)),
        Ok(Some(lease)) => Ok(
            AcquireShardLeaseResponse {
                lease_id: lease.lease_id.0,
                shards: Some(lease.shards),
                lease_ttl_ms: ttl,
                expires_at: Some(status::timestamp_after(wall, ttl)),
            },
        ),
        // Pool exhausted for this epoch: empty response by contract.
        Ok(None) => {
            let lease_id: String = String::new();
            assert(lease_id@ =~= Seq::<char>::empty());
            Ok(
                AcquireShardLeaseResponse {
                    lease_id,
                    shards: None,
                    lease_ttl_ms: 0,
                    expires_at: None,
                },
            )
        },
    }
}

/// Renews a lease.
pub fn renew_shard_lease(state: &mut AppState, req: RenewShardLeaseRequest, wall: i128) -> (out:
    Result<RenewShardLeaseResponse, Status>)
    requires
        old(state).wf(),
        status::wall_clock(wall),
    ensures
        final(state).wf(),
        final(state).cfg == old(state).cfg,
        old(state).latest() <= final(state).latest() <= outside::MAX_NANOS,
        (final(state)@, answered(out)) == renew_answer(
            old(state)@,
            req,
            final(state).latest(),
            wall,
        ),
{
    let now: u128 = state.coordinator.now();
    assert(state@ == old(state)@);
    renew_shard_lease_at(state, req, now, wall)
}

/// [`renew_shard_lease`] at the clock reading `now`.
pub fn renew_shard_lease_at(
    state: &mut AppState,
    req: RenewShardLeaseRequest,
    now: u128,
    wall: i128,
) -> (out: Result<RenewShardLeaseResponse, Status>)
    requires
        old(state).wf(),
        now <= outside::MAX_NANOS,
        status::wall_clock(wall),
    ensures
        final(state).wf(),
        final(state).cfg == old(state).cfg,
        final(state).latest() == old(state).latest(),
        (final(state)@, answered(out)) == renew_answer(old(state)@, req, now as nat, wall),
{
    if let Err(e) = state.auth(req.worker_id.as_str(), req.session_token.as_str()) {
        return Err(status::to_status(e));
    }
    let ttl: u64 = state.coordinator.leases.ttl_ms();
    match state.coordinator.leases.renew_at(&LeaseId(req.lease_id), now) {
        Ok(_) => Ok(
            RenewShardLeaseResponse {
                expires_at: Some(status::timestamp_after(wall, ttl)),
                renewed: true,
            },
        ),
        // Fencing signal, not an error: the worker must stop reading.
        Err(DtrError::LeaseExpired(_)) => Ok(
            RenewShardLeaseResponse { expires_at: None, renewed: false },
        ),
        Err(e) => Err(status::to_status(e)),
    }
}

/// Releases a lease.
pub fn release_shard_lease(state: &mut AppState, req: ReleaseShardLeaseRequest) -> (out: Result<
    (),
    Status,
>)
    requires
        old(state).wf(),
    ensures
        final(state).wf(),
        final(state).cfg == old(state).cfg,
        final(state).latest() == old(state).latest(),
        (final(state)@, answered(out)) == release_answer(old(state)@, req),
{
    if let Err(e) = state.auth(req.worker_id.as_str(), req.session_token.as_str()) {
        return Err(status::to_status(e));
    }
    match state.coordinator.leases.release(&LeaseId(req.lease_id), req.completed) {
        // Releasing an already-expired lease is a no-op, not an error.
        Ok(()) | Err(DtrError::UnknownLease(_)) => Ok(()),
        Err(e) => Err(status::to_status(e)),
    }
}

/// Whoever does not authenticate changes nothing, whatever they ask for, and is
/// told so.
pub proof fn strangers_change_nothing(
    state: AppView,
    dataset: RegisterDatasetRequest,
    acquire: AcquireShardLeaseRequest,
    renew: RenewShardLeaseRequest,
    release: ReleaseShardLeaseRequest,
    now: nat,
    uuid: Seq<char>,
    wall: i128,
)
    ensures
        state.auth(dataset.worker_id@, dataset.session_token@) is Err ==> register_dataset_answer(
            state,
            dataset,
        ) == (
            state,
            Err::<(Seq<char>, bool), StatusView>(
                status::status_for(state.auth(dataset.worker_id@, dataset.session_token@)->Err_0),
            ),
        ),
        state.auth(acquire.worker_id@, acquire.session_token@) is Err ==> acquire_answer(
            state,
            acquire,
            now,
            uuid,
            wall,
        ) == (
            state,
            Err::<GrantView, StatusView>(
                status::status_for(state.auth(acquire.worker_id@, acquire.session_token@)->Err_0),
            ),
        ),
        state.auth(renew.worker_id@, renew.session_token@) is Err ==> renew_answer(
            state,
            renew,
            now,
            wall,
        ) == (
            state,
            Err::<RenewShardLeaseResponse, StatusView>(
                status::status_for(state.auth(renew.worker_id@, renew.session_token@)->Err_0),
            ),
        ),
        state.auth(release.worker_id@, release.session_token@) is Err ==> release_answer(
            state,
            release,
        ) == (
            state,
            Err::<(), StatusView>(
                status::status_for(state.auth(release.worker_id@, release.session_token@)->Err_0),
            ),
        ),
{
}

/// A renewal is answered `renewed = false` exactly if the lease has lapsed or is
/// not known; the answer is never an error for an authenticated worker.
pub proof fn lapsed_renewal_is_a_fencing_signal(
    state: AppView,
    req: RenewShardLeaseRequest,
    now: nat,
    wall: i128,
)
    requires
        state.auth(req.worker_id@, req.session_token@) is Ok,
    ensures
        renew_answer(state, req, now, wall).1 is Ok,
        renew_answer(state, req, now, wall).1->Ok_0.renewed <==> {
            &&& state.coordinator.leases.leases.contains_key(req.lease_id@)
            &&& now < state.coordinator.leases.leases[req.lease_id@].expires_at
        },
{
}

/// A worker that was evicted is told to register again, not refused.
pub proof fn evicted_worker_is_told_to_register(
    membership: MembershipState,
    worker: Seq<char>,
    token: Seq<char>,
    step: u64,
    now: nat,
    later: nat,
    wall: i128,
)
    requires
        membership.silent(now).contains(worker),
    ensures
        heartbeat_answer(membership.swept(now).heartbeat(worker, token, step, later).1, wall)
            == Ok::<HeartbeatResponse, StatusView>(
            HeartbeatResponse {
                must_reregister: true,
                server_time: Some(status::timestamp(wall, 0)),
            },
        ),
{
}

/// Replacing the leases, or the workers, replaces nothing else, and a refusal has the
/// code and the message it was given.
pub proof fn requests_touch_one_registry(
    state: AppView,
    leases: LeaseState,
    membership: MembershipState,
    code: Code,
    message: Seq<char>,
)
    ensures
        ({
            let after = with_leases(state, leases);
            &&& after.coordinator.leases == leases
            &&& after.coordinator.membership == state.coordinator.membership
            &&& after.coordinator.barriers == state.coordinator.barriers
            &&& after.io == state.io
            &&& after.targets == state.targets
            &&& after.reported == state.reported
            &&& after.default_chunk_bytes == state.default_chunk_bytes
            &&& after.barrier_timeout_ms == state.barrier_timeout_ms
        }),
        ({
            let after = with_membership(state, membership);
            &&& after.coordinator.membership == membership
            &&& after.coordinator.leases == state.coordinator.leases
            &&& after.coordinator.barriers == state.coordinator.barriers
            &&& after.io == state.io
            &&& after.targets == state.targets
            &&& after.reported == state.reported
            &&& after.default_chunk_bytes == state.default_chunk_bytes
            &&& after.barrier_timeout_ms == state.barrier_timeout_ms
        }),
        refusal(code, message).code == code,
        refusal(code, message).message == message,
{
}

/// A worker with a name is registered with what it gave and told its token and the
/// terms that it is held to. One without a name is refused, and nothing changes.
pub proof fn a_worker_is_told_its_terms(
    state: AppView,
    req: RegisterWorkerRequest,
    now: nat,
    token: Seq<char>,
)
    ensures
        ({
            let (after, out) = register_worker_answer(state, req, now, token);
            let membership = state.coordinator.membership;
            &&& out is Ok <==> req.worker_id@.len() > 0
            &&& out is Ok ==> after.coordinator.membership == membership.registered(
                req.worker_id@,
                req.rank,
                req.world_size,
                req.labels@,
                now,
                token,
            )
            &&& out is Ok ==> out->Ok_0.session_token == token
            &&& out is Ok ==> out->Ok_0.heartbeat_interval_ms == membership.heartbeat_interval_ms
            &&& out is Ok ==> out->Ok_0.missed_heartbeats_allowed == membership.missed_allowed
            &&& out is Err ==> after == state
            &&& out is Err ==> out->Err_0.code == Code::InvalidArgument && out->Err_0.message
                == "worker_id must not be empty"@
            &&& after.coordinator.leases == state.coordinator.leases
            &&& after.coordinator.barriers == state.coordinator.barriers
            &&& after.io == state.io
            &&& after.targets == state.targets
            &&& after.reported == state.reported
        }),
{
}

/// A heartbeat from a known worker with its own token is noted and answered with the
/// server's time; an unknown worker is told to register again, and a wrong token is
/// refused.
pub proof fn a_heartbeat_is_answered_by_session(
    state: AppView,
    req: HeartbeatRequest,
    now: nat,
    wall: i128,
)
    ensures
        ({
            let (after, out) = heartbeat_reply(state, req, now, wall);
            let workers = state.coordinator.membership.workers;
            let known = workers.contains_key(req.worker_id@);
            let own = workers[req.worker_id@].session_token == req.session_token@;
            &&& after.coordinator.membership == state.coordinator.membership.heartbeat(
                req.worker_id@,
                req.session_token@,
                req.current_step,
                now,
            ).0
            &&& known && own ==> out is Ok && !out->Ok_0.must_reregister
            &&& !known ==> out is Ok && out->Ok_0.must_reregister
            &&& out is Ok ==> out->Ok_0.server_time == Some(status::timestamp(wall, 0))
            &&& known && !own ==> out == Err::<HeartbeatResponse, StatusView>(
                status::status_for(ErrorView::InvalidSession(req.worker_id@)),
            )
            &&& after.coordinator.leases == state.coordinator.leases
            &&& after.coordinator.barriers == state.coordinator.barriers
            &&& after.io == state.io
            &&& after.targets == state.targets
            &&& after.reported == state.reported
        }),
{
}

/// A dataset is registered with the URI and the shard count that were asked for, and
/// the answer is its handle and whether it was known before. A request without a
/// dataset, or for no shards, is refused, and nothing changes.
pub proof fn a_dataset_is_registered_as_asked(state: AppView, req: RegisterDatasetRequest)
    requires
        state.auth(req.worker_id@, req.session_token@) is Ok,
    ensures
        ({
            let (after, out) = register_dataset_answer(state, req);
            let leases = state.coordinator.leases;
            let uri = req.spec->0.uri@;
            &&& out is Ok <==> req.spec is Some && req.spec->0.num_shards > 0
            &&& out is Ok ==> after.coordinator.leases == leases.registered(
                uri,
                req.spec->0.num_shards,
            )
            &&& out is Ok ==> out->Ok_0.0 == lease::dataset_handle(uri)
            &&& out is Ok ==> (out->Ok_0.1 <==> leases.datasets.contains_key(
                lease::dataset_handle(uri),
            ))
            &&& out is Err ==> after == state && out->Err_0.code == Code::InvalidArgument
            &&& req.spec is None ==> out->Err_0.message == "dataset spec is required"@
            &&& req.spec is Some && req.spec->0.num_shards == 0 ==> out->Err_0.message
                == "num_shards must be > 0"@
            &&& after.coordinator.membership == state.coordinator.membership
            &&& after.coordinator.barriers == state.coordinator.barriers
            &&& after.io == state.io
            &&& after.targets == state.targets
            &&& after.reported == state.reported
        }),
{
}

/// A lease is acquired for the worker that asks, of the dataset and epoch and of as
/// many shards as it asks for. The answer names the lease, its shards, the TTL and when
/// that will have passed; it is empty where nothing was left, and an unknown dataset is
/// refused.
pub proof fn a_grant_is_answered_as_made(
    state: AppView,
    req: AcquireShardLeaseRequest,
    now: nat,
    uuid: Seq<char>,
    wall: i128,
)
    requires
        state.auth(req.worker_id@, req.session_token@) is Ok,
    ensures
        ({
            let (after, out) = acquire_answer(state, req, now, uuid, wall);
            let leases = state.coordinator.leases;
            let (granted, acquired) = leases.acquire(
                req.worker_id@,
                req.dataset_id@,
                req.epoch,
                req.requested_shards,
                now,
                uuid,
            );
            &&& after.coordinator.leases == granted
            &&& acquired matches Err(e) ==> out == Err::<GrantView, StatusView>(
                status::status_for(e),
            )
            &&& acquired is Ok ==> out is Ok
            &&& acquired matches Ok(Some(held)) ==> {
                &&& out->Ok_0.lease_id == held.lease_id
                &&& out->Ok_0.shards == Some(held.shards)
                &&& out->Ok_0.lease_ttl_ms == leases.ttl_ms
                &&& out->Ok_0.expires_at == Some(status::timestamp(wall, leases.ttl_ms))
            }
            &&& acquired matches Ok(None) ==> {
                &&& out->Ok_0.lease_id.len() == 0
                &&& out->Ok_0.shards is None
                &&& out->Ok_0.lease_ttl_ms == 0
                &&& out->Ok_0.expires_at is None
            }
            &&& after.coordinator.membership == state.coordinator.membership
            &&& after.coordinator.barriers == state.coordinator.barriers
            &&& after.io == state.io
            &&& after.targets == state.targets
            &&& after.reported == state.reported
        }),
{
}

/// A renewal of a live lease is answered with when its TTL will have passed anew, and
/// one of a lapsed or unknown lease with that it was not renewed.
pub proof fn a_renewal_is_answered_as_made(
    state: AppView,
    req: RenewShardLeaseRequest,
    now: nat,
    wall: i128,
)
    requires
        state.auth(req.worker_id@, req.session_token@) is Ok,
    ensures
        ({
            let (after, out) = renew_answer(state, req, now, wall);
            let leases = state.coordinator.leases;
            let id = req.lease_id@;
            let live = leases.leases.contains_key(id) && leases.leases[id].expires_at > now;
            &&& after.coordinator.leases == leases.renew(id, now).0
            &&& out is Ok
            &&& out->Ok_0.renewed <==> live
            &&& live ==> out->Ok_0.expires_at == Some(status::timestamp(wall, leases.ttl_ms))
            &&& !live ==> out->Ok_0.expires_at is None
            &&& after.coordinator.membership == state.coordinator.membership
            &&& after.coordinator.barriers == state.coordinator.barriers
            &&& after.io == state.io
            &&& after.targets == state.targets
            &&& after.reported == state.reported
        }),
{
}

/// A release ends the lease that it names, with its shards done or not as it says, and
/// is always accepted; one of an unknown lease changes nothing.
pub proof fn a_release_is_always_accepted(state: AppView, req: ReleaseShardLeaseRequest)
    requires
        state.auth(req.worker_id@, req.session_token@) is Ok,
    ensures
        ({
            let (after, out) = release_answer(state, req);
            let leases = state.coordinator.leases;
            &&& out is Ok
            &&& after.coordinator.leases == leases.release(req.lease_id@, req.completed).0
            &&& !leases.leases.contains_key(req.lease_id@) ==> after == state
            &&& after.coordinator.membership == state.coordinator.membership
            &&& after.coordinator.barriers == state.coordinator.barriers
            &&& after.io == state.io
            &&& after.targets == state.targets
            &&& after.reported == state.reported
        }),
{
}

/// Answers are seen as they are.
pub proof fn answers_are_seen_as_they_are(
    plain: Result<u32, Status>,
    dataset: Result<RegisterDatasetResponse, Status>,
    grant: Result<AcquireShardLeaseResponse, Status>,
    worker: Result<RegisterWorkerResponse, Status>,
)
    ensures
        match plain {
            Ok(n) => answered(plain) == Ok::<u32, StatusView>(n),
            Err(refused) => answered(plain) == Err::<u32, StatusView>(refused@),
        },
        match dataset {
            Ok(r) => dataset_answered(dataset) == Ok::<(Seq<char>, bool), StatusView>(
                (r.dataset_id@, r.already_registered),
            ),
            Err(refused) => dataset_answered(dataset) == Err::<(Seq<char>, bool), StatusView>(
                refused@,
            ),
        },
        match grant {
            Ok(r) => grant_answered(grant) == Ok::<GrantView, StatusView>(
                GrantView {
                    lease_id: r.lease_id@,
                    shards: r.shards,
                    lease_ttl_ms: r.lease_ttl_ms,
                    expires_at: r.expires_at,
                },
            ),
            Err(refused) => grant_answered(grant) == Err::<GrantView, StatusView>(refused@),
        },
        match worker {
            Ok(r) => worker_answered(worker) == Ok::<RegisteredView, StatusView>(
                RegisteredView {
                    session_token: r.session_token@,
                    heartbeat_interval_ms: r.heartbeat_interval_ms,
                    missed_heartbeats_allowed: r.missed_heartbeats_allowed,
                },
            ),
            Err(refused) => worker_answered(worker) == Err::<RegisteredView, StatusView>(refused@),
        },
{
}

} // verus!
