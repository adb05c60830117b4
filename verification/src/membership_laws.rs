//! What holds of worker membership across operations.

use crate::error::ErrorView;
use crate::membership::MembershipState;
use crate::membership::WorkerInfo;
use crate::membership::WorkerView;
use vstd::prelude::*;

verus! {

/// Registering again rotates the token: the new one is accepted, any other one
/// is refused from then on, and the worker still counts once.
pub proof fn reregistering_fences_the_old_session(
    state: MembershipState,
    worker: Seq<char>,
    rank: u32,
    world_size: u32,
    labels: Map<String, String>,
    now: nat,
    token: Seq<char>,
    stale: Seq<char>,
    step: u64,
    later: nat,
)
    requires
        state.consistent(),
        stale != token,
    ensures
        ({
            let after = state.registered(worker, rank, world_size, labels, now, token);
            &&& after.consistent()
            &&& after.authenticate(worker, token) == Ok::<(), ErrorView>(())
            &&& after.authenticate(worker, stale) == Err::<(), ErrorView>(
                ErrorView::InvalidSession(worker),
            )
            &&& after.heartbeat(worker, stale, step, later) == (
                after,
                Err::<(), ErrorView>(ErrorView::InvalidSession(worker)),
            )
            &&& state.workers.contains_key(worker) ==> after.workers.len() == state.workers.len()
        }),
{
    let after = state.registered(worker, rank, world_size, labels, now, token);
    if state.workers.contains_key(worker) {
        assert(after.workers.dom() =~= state.workers.dom());
    }
}

/// A sweep evicts exactly the workers that have been silent for longer than the
/// registry's patience; every other one stays as it was.
pub proof fn sweeping_evicts_exactly_the_silent(
    state: MembershipState,
    worker: Seq<char>,
    now: nat,
)
    requires
        state.workers.contains_key(worker),
    ensures
        state.swept(now).workers.contains_key(worker) <==> now
            <= state.workers[worker].last_heartbeat + state.patience(),
        state.swept(now).workers.contains_key(worker) ==> state.swept(now).workers[worker]
            == state.workers[worker],
{
}

/// An evicted worker is unknown, whatever token it shows, and its heartbeats
/// change nothing: it has to register again.
pub proof fn evicted_worker_must_register_again(
    state: MembershipState,
    worker: Seq<char>,
    token: Seq<char>,
    step: u64,
    now: nat,
    later: nat,
)
    requires
        state.silent(now).contains(worker),
    ensures
        ({
            let after = state.swept(now);
            let refusal = Err::<(), ErrorView>(ErrorView::UnknownWorker(worker));
            &&& after.authenticate(worker, token) == refusal
            &&& after.heartbeat(worker, token, step, later) == (after, refusal)
        }),
{
}

/// A heartbeat that is accepted buys the full patience from then on.
pub proof fn heartbeat_postpones_eviction(
    state: MembershipState,
    worker: Seq<char>,
    token: Seq<char>,
    step: u64,
    now: nat,
    later: nat,
)
    requires
        state.heartbeat(worker, token, step, now).1 is Ok,
        later <= now + state.patience(),
    ensures
        state.heartbeat(worker, token, step, now).0.swept(later).workers.contains_key(worker),
        state.heartbeat(worker, token, step, now).0.workers[worker].current_step == step,
{
}

/// Refused heartbeats change nothing, and no heartbeat touches another worker.
pub proof fn heartbeats_touch_their_worker_alone(
    state: MembershipState,
    worker: Seq<char>,
    other: Seq<char>,
    token: Seq<char>,
    step: u64,
    now: nat,
)
    requires
        state.workers.contains_key(other),
        worker != other,
    ensures
        state.heartbeat(worker, token, step, now).1 is Err ==> state.heartbeat(
            worker,
            token,
            step,
            now,
        ).0 == state,
        state.heartbeat(worker, token, step, now).0.workers.contains_key(other),
        state.heartbeat(worker, token, step, now).0.workers[other] == state.workers[other],
{
}

/// Registering files the worker under its own name, with exactly what it gave,
/// heard of just now and at step zero. Nobody else is touched and the terms stay.
pub proof fn registering_files_what_the_worker_gave(
    state: MembershipState,
    worker: Seq<char>,
    rank: u32,
    world_size: u32,
    labels: Map<String, String>,
    now: nat,
    token: Seq<char>,
)
    ensures
        ({
            let after = state.registered(worker, rank, world_size, labels, now, token);
            let filed = after.workers[worker];
            &&& after.workers.contains_key(worker)
            &&& filed.worker_id == worker
            &&& filed.rank == rank
            &&& filed.world_size == world_size
            &&& filed.labels == labels
            &&& filed.session_token == token
            &&& filed.last_heartbeat == now
            &&& filed.current_step == 0
            &&& forall|other: Seq<char>|
                other != worker ==> (#[trigger] after.workers.contains_key(other)
                    <==> state.workers.contains_key(other))
            &&& forall|other: Seq<char>|
                other != worker && state.workers.contains_key(other)
                    ==> #[trigger] after.workers[other] == state.workers[other]
            &&& after.heartbeat_interval_ms == state.heartbeat_interval_ms
            &&& after.missed_allowed == state.missed_allowed
        }),
{
}

/// A session counts exactly if the worker is known and shows its own token; an
/// unknown worker and a wrong token are told apart.
pub proof fn sessions_go_by_worker_and_token(
    state: MembershipState,
    worker: Seq<char>,
    token: Seq<char>,
)
    ensures
        state.authenticate(worker, token) is Ok <==> state.workers.contains_key(worker)
            && state.workers[worker].session_token == token,
        !state.workers.contains_key(worker) ==> state.authenticate(worker, token) == Err::<
            (),
            ErrorView,
        >(ErrorView::UnknownWorker(worker)),
        state.workers.contains_key(worker) && state.workers[worker].session_token != token
            ==> state.authenticate(worker, token) == Err::<(), ErrorView>(
            ErrorView::InvalidSession(worker),
        ),
{
}

/// A heartbeat is accepted exactly from a known worker with its own token. It
/// then notes the time and the step, and leaves all else of the worker, and the
/// terms, as they were.
pub proof fn a_heartbeat_notes_time_and_step(
    state: MembershipState,
    worker: Seq<char>,
    token: Seq<char>,
    step: u64,
    now: nat,
)
    ensures
        ({
            let (after, out) = state.heartbeat(worker, token, step, now);
            let before = state.workers[worker];
            let noted = after.workers[worker];
            &&& out is Ok <==> state.workers.contains_key(worker) && before.session_token == token
            &&& out is Ok ==> {
                &&& noted.last_heartbeat == now
                &&& noted.current_step == step
                &&& noted.worker_id == before.worker_id
                &&& noted.rank == before.rank
                &&& noted.world_size == before.world_size
                &&& noted.session_token == before.session_token
                &&& noted.labels == before.labels
            }
            &&& out is Err ==> after == state
            &&& forall|id: Seq<char>| #[trigger]
                after.workers.contains_key(id) <==> state.workers.contains_key(id)
            &&& forall|id: Seq<char>|
                id != worker && state.workers.contains_key(id) ==> #[trigger] after.workers[id]
                    == state.workers[id]
            &&& after.heartbeat_interval_ms == state.heartbeat_interval_ms
            &&& after.missed_allowed == state.missed_allowed
        }),
{
}

/// A sweep evicts a worker exactly if it has been silent for longer than the
/// heartbeat interval times one more than the heartbeats it may miss. Everybody
/// else stays as they were, and so do the terms.
pub proof fn a_sweep_goes_by_interval_and_allowance(
    state: MembershipState,
    worker: Seq<char>,
    now: nat,
)
    ensures
        ({
            let after = state.swept(now);
            let silence = now - state.workers[worker].last_heartbeat;
            let limit = state.heartbeat_interval_ms * 1000000 * (state.missed_allowed + 1);
            &&& after.workers.contains_key(worker) <==> state.workers.contains_key(worker)
                && silence <= limit
            &&& after.workers.contains_key(worker) ==> after.workers[worker]
                == state.workers[worker]
            &&& state.silent(now).contains(worker) <==> state.workers.contains_key(worker)
                && silence > limit
            &&& after.heartbeat_interval_ms == state.heartbeat_interval_ms
            &&& after.missed_allowed == state.missed_allowed
        }),
{
    assert(state.patience() == state.heartbeat_interval_ms * 1000000 * (state.missed_allowed + 1));
    assert(state.heartbeat_interval_ms * 1000000 * (state.missed_allowed + 1) >= 0)
        by (nonlinear_arith);
}

/// A list of workers is complete: it holds each worker in question once, as it is
/// known, and nobody else.
pub proof fn worker_lists_are_complete(
    state: MembershipState,
    listed: Seq<WorkerView>,
    ids: Set<Seq<char>>,
    worker: Seq<char>,
)
    requires
        state.consistent(),
        state.enumerates(listed, ids),
    ensures
        ids.contains(worker) && state.workers.contains_key(worker) ==> exists|i: int|
            0 <= i < listed.len() && #[trigger] listed[i] == state.workers[worker],
        forall|i: int|
            0 <= i < listed.len() ==> ids.contains((#[trigger] listed[i]).worker_id)
                && state.workers.contains_key(listed[i].worker_id) && listed[i]
                == state.workers[listed[i].worker_id],
        forall|i: int, j: int|
            0 <= i < j < listed.len() ==> listed[i].worker_id != listed[j].worker_id,
{
    if ids.contains(worker) && state.workers.contains_key(worker) {
        assert(listed.contains(state.workers[worker]));
    }
    assert forall|i: int| 0 <= i < listed.len() implies ids.contains(
        (#[trigger] listed[i]).worker_id,
    ) && state.workers.contains_key(listed[i].worker_id) && listed[i]
        == state.workers[listed[i].worker_id] by {
        assert(listed.contains(listed[i]));
    }
    assert forall|i: int, j: int| 0 <= i < j < listed.len() implies listed[i].worker_id
        != listed[j].worker_id by {
        assert(listed.contains(listed[i]) && listed.contains(listed[j]));
        assert(listed[i] != listed[j]);
    }
}

proof fn lemma_world_size_exists(workers: Map<Seq<char>, WorkerView>) -> (size: u32)
    requires
        workers.dom().finite(),
    ensures
        forall|id: Seq<char>| #[trigger]
            workers.contains_key(id) ==> workers[id].world_size <= size,
        size == 0 || exists|id: Seq<char>| #[trigger]
            workers.contains_key(id) && workers[id].world_size == size,
    decreases workers.dom().len(),
{
    if workers.dom().len() == 0 {
        assert(workers.dom() =~= Set::<Seq<char>>::empty());
        assert forall|id: Seq<char>| #[trigger] workers.contains_key(id) implies false by {
            assert(workers.dom().contains(id));
        }
        0
    } else {
        let one = workers.dom().choose();
        let rest = workers.remove(one);
        assert(rest.dom() =~= workers.dom().remove(one));
        let size = lemma_world_size_exists(rest);
        let largest = if workers[one].world_size > size {
            workers[one].world_size
        } else {
            size
        };
        assert forall|id: Seq<char>| #[trigger] workers.contains_key(id) implies
            workers[id].world_size <= largest by {
            if id != one {
                assert(rest.contains_key(id));
            }
        }
        assert(largest == 0 || exists|id: Seq<char>| #[trigger]
            workers.contains_key(id) && workers[id].world_size == largest) by {
            if workers[one].world_size > size {
                assert(workers.contains_key(one));
            } else if size != 0 {
                let id = choose|id: Seq<char>| #[trigger]
                    rest.contains_key(id) && rest[id].world_size == size;
                assert(workers.contains_key(id));
            }
        }
        largest
    }
}

/// A checkpoint expects the largest world size that a live worker reports, and
/// nobody where nobody is there.
pub proof fn the_largest_world_size_is_expected(state: MembershipState)
    requires
        state.consistent(),
    ensures
        forall|id: Seq<char>| #[trigger]
            state.workers.contains_key(id) ==> state.workers[id].world_size <= state.world_size(),
        state.world_size() == 0 || exists|id: Seq<char>| #[trigger]
            state.workers.contains_key(id) && state.workers[id].world_size == state.world_size(),
{
    let size = lemma_world_size_exists(state.workers);
    assert(state.is_world_size(size));
}

/// A worker is seen as it is.
pub proof fn workers_are_seen_as_they_are(info: WorkerInfo)
    ensures
        info@.worker_id == info.worker_id@,
        info@.rank == info.rank,
        info@.world_size == info.world_size,
        info@.session_token == info.session_token@,
        info@.labels == info.labels@,
        info@.last_heartbeat == info.last_heartbeat,
        info@.current_step == info.current_step,
{
}

} // verus!
