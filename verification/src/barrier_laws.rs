//! What holds of checkpoint barriers across operations.

use crate::barrier;
use crate::barrier::BarrierState;
use crate::barrier::BarrierStatus;
use crate::barrier::BarrierView;
use crate::barrier::CheckpointBarrier;
use crate::error::DtrError;
use crate::error::ErrorView;
use crate::text;
use crate::types::QuorumPolicy;
use vstd::prelude::*;

verus! {

/// Opening is idempotent: whoever begins a step that is already open joins its
/// barrier, whatever they expect and whenever they come. Nothing changes but
/// that the deadline is applied, as with every look at a barrier.
pub proof fn beginning_again_joins(
    state: BarrierState,
    target: Seq<char>,
    step: u64,
    first: (u32, nat, Seq<char>),
    second: (u32, nat, Seq<char>),
)
    requires
        state.consistent(),
    ensures
        ({
            let (opened, barrier) = state.begin(target, step, first.0, first.1, first.2);
            let again = barrier.checked(second.1);
            &&& opened.begin(target, step, second.0, second.1, second.2) == (
                opened.with(again),
                again,
            )
            &&& second.1 <= barrier.deadline ==> opened.with(again) == opened && again == barrier
        }),
{
    let (opened, barrier) = state.begin(target, step, first.0, first.1, first.2);
    assert(opened.barriers[barrier.token] == barrier);
    assert(opened.with(barrier).barriers =~= opened.barriers);
}

/// What can be asked of the barriers.
pub enum Request {
    Begin { target: Seq<char>, step: u64, expected: u32, uuid: Seq<char> },
    Report { token: Seq<char>, rank: u32 },
    Look { token: Seq<char> },
    LookOver,
    Commit { token: Seq<char> },
    Abort { token: Seq<char>, reason: Seq<char> },
}

/// The barriers after a request at `now`.
pub open spec fn after(state: BarrierState, request: Request, now: nat) -> BarrierState {
    match request {
        Request::Begin { target, step, expected, uuid } => state.begin(
            target,
            step,
            expected,
            now,
            uuid,
        ).0,
        Request::Report { token, rank } => state.rank_complete(token, rank, now).0,
        Request::Look { token } => state.get(token, now).0,
        Request::LookOver => state.looked_over(now),
        Request::Commit { token } => state.mark_committed(token, now).0,
        Request::Abort { token, reason } => state.abort(token, reason).0,
    }
}

/// The barriers after a series of requests.
pub open spec fn replayed(state: BarrierState, requests: Seq<(Request, nat)>) -> BarrierState
    decreases requests.len(),
{
    if requests.len() == 0 {
        state
    } else {
        let (request, now) = requests.last();
        after(replayed(state, requests.drop_last()), request, now)
    }
}

/// A request that opens a barrier gives it a token that is not in use.
pub open spec fn names_anew(state: BarrierState, request: Request, now: nat) -> bool {
    request matches Request::Begin { target, step, expected, uuid } ==> state.open_for(
        target,
        step,
    ) is None ==> !state.barriers.contains_key(
        state.fresh(target, step, expected, now, uuid).token,
    )
}

/// Every barrier that is opened in the series gets a token that is not in use.
pub open spec fn all_name_anew(state: BarrierState, requests: Seq<(Request, nat)>) -> bool
    decreases requests.len(),
{
    requests.len() == 0 || {
        let (request, now) = requests.last();
        &&& all_name_anew(state, requests.drop_last())
        &&& names_anew(replayed(state, requests.drop_last()), request, now)
    }
}

/// It is the same barrier, opened for the same, and no report was lost.
pub open spec fn continues(before: BarrierView, after: BarrierView) -> bool {
    &&& after.token == before.token
    &&& after.target_id == before.target_id
    &&& after.step == before.step
    &&& after.expected == before.expected
    &&& after.required == before.required
    &&& after.deadline == before.deadline
    &&& before.completed_ranks.subset_of(after.completed_ranks)
}

proof fn lemma_one_request_keeps_the_barrier(
    state: BarrierState,
    target: Seq<char>,
    step: u64,
    request: Request,
    now: nat,
)
    requires
        state.consistent(),
        names_anew(state, request, now),
    ensures
        after(state, request, now).consistent(),
        state.open_for(target, step) matches Some(barrier) ==> (after(state, request, now).open_for(
            target,
            step,
        ) matches Some(later) && continues(barrier, later)),
{
    let then = after(state, request, now);
    assert forall|token: Seq<char>| #[trigger] then.barriers.contains_key(token) implies {
        &&& then.barriers[token].consistent()
        &&& then.barriers[token].token == token
        &&& state.barriers.contains_key(token) ==> continues(
            state.barriers[token],
            then.barriers[token],
        )
    } by {
        if state.barriers.contains_key(token) {
            assert(state.barriers[token].consistent());
        }
    }
    assert(forall|token: Seq<char>| #[trigger]
        state.barriers.contains_key(token) ==> then.barriers.contains_key(token));
}

/// The barrier of a step is opened once: whatever is asked of the barriers
/// afterwards, whoever begins that step again joins the same one, with the same
/// token, the same quorum, the same deadline and all reports, also after it was
/// committed or aborted. The series leaves out that a random token repeats one
/// in use.
pub proof fn a_step_keeps_its_barrier(
    state: BarrierState,
    target: Seq<char>,
    step: u64,
    requests: Seq<(Request, nat)>,
    expected: u32,
    now: nat,
    uuid: Seq<char>,
)
    requires
        state.consistent(),
        state.open_for(target, step) is Some,
        all_name_anew(state, requests),
    ensures
        ({
            let then = replayed(state, requests);
            let (joined, barrier) = then.begin(target, step, expected, now, uuid);
            &&& then.consistent()
            &&& then.open_for(target, step) is Some
            &&& continues(state.open_for(target, step)->0, then.open_for(target, step)->0)
            &&& continues(state.open_for(target, step)->0, barrier)
            &&& barrier.completed_ranks == then.open_for(target, step)->0.completed_ranks
            &&& joined.by_step == then.by_step
            &&& joined.barriers.dom() == then.barriers.dom()
        }),
    decreases requests.len(),
{
    let then = replayed(state, requests);
    if requests.len() > 0 {
        let (request, at) = requests.last();
        a_step_keeps_its_barrier(
            state,
            target,
            step,
            requests.drop_last(),
            expected,
            now,
            uuid,
        );
        lemma_one_request_keeps_the_barrier(
            replayed(state, requests.drop_last()),
            target,
            step,
            request,
            at,
        );
    }
    let (joined, barrier) = then.begin(target, step, expected, now, uuid);
    assert(joined.barriers.dom() =~= then.barriers.dom());
}

/// Every token that is filed under a target and a step belongs to a barrier that
/// was opened for them.
pub open spec fn filed(state: BarrierState) -> bool {
    forall|target: Seq<char>, step: u64| #[trigger]
        state.by_step[target].contains_key(step) && state.by_step.contains_key(target) ==> {
            let token = state.by_step[target][step];
            &&& state.barriers.contains_key(token)
            &&& state.barriers[token].target_id == target
            &&& state.barriers[token].step == step
        }
}

proof fn lemma_filed(state: BarrierState, requests: Seq<(Request, nat)>)
    requires
        state.consistent(),
        filed(state),
        all_name_anew(state, requests),
    ensures
        replayed(state, requests).consistent(),
        filed(replayed(state, requests)),
    decreases requests.len(),
{
    if requests.len() > 0 {
        let (request, now) = requests.last();
        let before = replayed(state, requests.drop_last());
        lemma_filed(state, requests.drop_last());
        lemma_one_request_keeps_the_barrier(before, Seq::empty(), 0, request, now);
        let then = after(before, request, now);
        assert forall|target: Seq<char>, step: u64| #[trigger]
            then.by_step[target].contains_key(step) && then.by_step.contains_key(target) implies {
            let token = then.by_step[target][step];
            &&& then.barriers.contains_key(token)
            &&& then.barriers[token].target_id == target
            &&& then.barriers[token].step == step
        } by {
            if before.by_step.contains_key(target) && before.by_step[target].contains_key(step) {
                let token = before.by_step[target][step];
                assert(before.barriers[token].target_id == target);
                lemma_one_request_keeps_the_barrier(before, target, step, request, now);
            }
        }
    }
}

/// Different steps, and the same step of different targets, have different
/// barriers: whatever is asked of an empty registry, no two of them share a
/// token, as long as no random token repeats one in use.
pub proof fn different_rendezvous_have_different_tokens(
    state: BarrierState,
    requests: Seq<(Request, nat)>,
    one: (Seq<char>, u64),
    other: (Seq<char>, u64),
)
    requires
        state.barriers == Map::<Seq<char>, BarrierView>::empty(),
        state.by_step == Map::<Seq<char>, Map<u64, Seq<char>>>::empty(),
        all_name_anew(state, requests),
        one != other,
        replayed(state, requests).open_for(one.0, one.1) is Some,
        replayed(state, requests).open_for(other.0, other.1) is Some,
    ensures
        replayed(state, requests).open_for(one.0, one.1)->0.token != replayed(
            state,
            requests,
        ).open_for(other.0, other.1)->0.token,
{
    lemma_filed(state, requests);
    let then = replayed(state, requests);
    assert(then.by_step[one.0].contains_key(one.1));
    assert(then.by_step[other.0].contains_key(other.1));
}

/// Tokens name their step: barriers that are opened for different steps have
/// different tokens.
pub proof fn different_steps_get_different_tokens(
    state: BarrierState,
    target: Seq<char>,
    one: u64,
    other: u64,
    first: (u32, nat, Seq<char>),
    second: (u32, nat, Seq<char>),
)
    requires
        one != other,
    ensures
        state.fresh(target, one, first.0, first.1, first.2).token != state.fresh(
            target,
            other,
            second.0,
            second.1,
            second.2,
        ).token,
{
    let a = state.fresh(target, one, first.0, first.1, first.2).token;
    let b = state.fresh(target, other, second.0, second.1, second.2).token;
    if a == b {
        lemma_token_step(one, first.2, other, second.2);
        text::decimal_injective(one as nat, other as nat);
    }
}

proof fn lemma_token_step(one: u64, left: Seq<char>, other: u64, right: Seq<char>)
    requires
        "ckpt-"@ + text::decimal(one as nat) + "-"@ + left == "ckpt-"@ + text::decimal(
            other as nat,
        ) + "-"@ + right,
    ensures
        text::decimal(one as nat) == text::decimal(other as nat),
{
    reveal_strlit("ckpt-");
    reveal_strlit("-");
    let a = text::decimal(one as nat);
    let b = text::decimal(other as nat);
    let s = "ckpt-"@ + a + "-"@ + left;
    let t = "ckpt-"@ + b + "-"@ + right;
    text::lemma_decimal_digits(one as nat);
    text::lemma_decimal_digits(other as nat);
    assert(s[5 + (a.len() as int)] == '-');
    assert(t[5 + (b.len() as int)] == '-');
    if a.len() < b.len() {
        assert(t[5 + (a.len() as int)] == b[a.len() as int]);
    }
    if b.len() < a.len() {
        assert(s[5 + (b.len() as int)] == a[b.len() as int]);
    }
    assert(a =~= s.subrange(5, 5 + (a.len() as int)));
    assert(b =~= t.subrange(5, 5 + (b.len() as int)));
}

/// Reporting a rank a second time counts it once: the answer is the same and
/// nothing changes, unless the deadline passed in between.
pub proof fn duplicate_reports_count_once(
    state: BarrierState,
    token: Seq<char>,
    rank: u32,
    now: nat,
    later: nat,
)
    requires
        state.consistent(),
        state.rank_complete(token, rank, now).1 is Ok,
        ({
            let barrier = state.rank_complete(token, rank, now).0.barriers[token];
            barrier.status == BarrierStatus::Pending ==> later <= barrier.deadline
        }),
    ensures
        ({
            let (after, out) = state.rank_complete(token, rank, now);
            after.rank_complete(token, rank, later) == (after, out)
        }),
{
    let (after, out) = state.rank_complete(token, rank, now);
    let barrier = after.barriers[token];
    assert(barrier.completed_ranks.insert(rank) =~= barrier.completed_ranks);
    assert(after.rank_complete(token, rank, later).0.barriers =~= after.barriers);
}

/// An accepted report answers how many ranks have reported, and leaves the
/// barrier ready exactly if that is the quorum.
pub proof fn quorum_makes_a_barrier_ready(
    state: BarrierState,
    token: Seq<char>,
    rank: u32,
    now: nat,
)
    requires
        state.consistent(),
        state.rank_complete(token, rank, now).1 is Ok,
        state.rank_complete(token, rank, now).0.barriers[token].completed_ranks.len() <= u32::MAX,
    ensures
        ({
            let (after, out) = state.rank_complete(token, rank, now);
            let barrier = after.barriers[token];
            &&& barrier.completed_ranks == state.barriers[token].completed_ranks.insert(rank)
            &&& out->Ok_0 == barrier.completed_ranks.len()
            &&& barrier.status == (if barrier.completed_ranks.len() >= barrier.required {
                BarrierStatus::Ready
            } else {
                BarrierStatus::Pending
            })
        }),
{
    let before = state.barriers[token].checked(now);
    let barrier = state.rank_complete(token, rank, now).0.barriers[token];
    assert(state.barriers[token].consistent());
    assert(barrier.completed_ranks == before.completed_ranks.insert(rank));
    assert(before.completed_ranks.len() <= barrier.completed_ranks.len());
}

/// A commit that is allowed has its quorum: at least the required ranks have
/// reported, and the barrier was not aborted.
pub proof fn only_a_quorum_commits(state: BarrierState, token: Seq<char>, now: nat)
    requires
        state.consistent(),
        state.mark_committed(token, now).1 is Ok,
    ensures
        state.barriers[token].completed_ranks.len() >= state.barriers[token].required,
        state.barriers[token].status == BarrierStatus::Ready || state.barriers[token].status
            == BarrierStatus::Committed,
        state.mark_committed(token, now).0.barriers[token].status == BarrierStatus::Committed,
{
    assert(state.barriers[token].consistent());
}

/// A committed checkpoint stays committed, whatever is asked of its barrier.
pub proof fn committed_is_final(
    state: BarrierState,
    token: Seq<char>,
    rank: u32,
    reason: Seq<char>,
    now: nat,
)
    requires
        state.consistent(),
        state.barriers.contains_key(token),
        state.barriers[token].status == BarrierStatus::Committed,
    ensures
        state.get(token, now) == (state, Ok::<BarrierView, ErrorView>(state.barriers[token])),
        state.rank_complete(token, rank, now) == (
            state,
            Err::<u32, ErrorView>(
                ErrorView::CheckpointNotReady { token, reason: "checkpoint already committed"@ },
            ),
        ),
        state.mark_committed(token, now) == (state, Ok::<(), ErrorView>(())),
        state.abort(token, reason) == (state, Ok::<(), ErrorView>(())),
{
    assert(state.barriers[token].consistent());
    assert(state.with(state.barriers[token]).barriers =~= state.barriers);
    assert(state.mark_committed(token, now).0.barriers =~= state.barriers);
}

/// An aborted checkpoint stays aborted: reports and commits are refused with
/// the reason, and only the reason of a further abort replaces it.
pub proof fn aborted_is_final(
    state: BarrierState,
    token: Seq<char>,
    rank: u32,
    reason: Seq<char>,
    now: nat,
)
    requires
        state.consistent(),
        state.barriers.contains_key(token),
        state.barriers[token].status == BarrierStatus::Aborted,
    ensures
        ({
            let refusal = ErrorView::CheckpointAborted {
                token,
                reason: state.barriers[token].abort_reason->0,
            };
            &&& state.rank_complete(token, rank, now) == (state, Err::<u32, ErrorView>(refusal))
            &&& state.mark_committed(token, now) == (state, Err::<(), ErrorView>(refusal))
        }),
        state.abort(token, reason).0.barriers[token] == (BarrierView {
            abort_reason: Some(reason),
            ..state.barriers[token]
        }),
{
    assert(state.barriers[token].consistent());
    assert(state.with(state.barriers[token]).barriers =~= state.barriers);
}

/// A pending barrier is aborted by whoever looks at it after its deadline, and
/// from then on neither accepts reports nor commits.
pub proof fn deadline_aborts_a_pending_barrier(
    state: BarrierState,
    token: Seq<char>,
    rank: u32,
    now: nat,
)
    requires
        state.consistent(),
        state.barriers.contains_key(token),
        state.barriers[token].status == BarrierStatus::Pending,
        now > state.barriers[token].deadline,
    ensures
        ({
            let refusal = ErrorView::CheckpointAborted {
                token,
                reason: barrier::deadline_reason(),
            };
            let (after, out) = state.get(token, now);
            &&& after.barriers[token].status == BarrierStatus::Aborted
            &&& out == Ok::<BarrierView, ErrorView>(after.barriers[token])
            &&& state.rank_complete(token, rank, now) == (after, Err::<u32, ErrorView>(refusal))
            &&& state.mark_committed(token, now) == (after, Err::<(), ErrorView>(refusal))
        }),
{
}

/// A barrier that reached its quorum no longer runs out of time.
pub proof fn ready_barrier_outlives_its_deadline(state: BarrierState, token: Seq<char>, now: nat)
    requires
        state.consistent(),
        state.barriers.contains_key(token),
        state.barriers[token].status == BarrierStatus::Ready,
    ensures
        state.get(token, now) == (state, Ok::<BarrierView, ErrorView>(state.barriers[token])),
        state.mark_committed(token, now).1 is Ok,
{
    assert(state.barriers[token].consistent());
    assert(state.with(state.barriers[token]).barriers =~= state.barriers);
}

/// The ways a barrier can go: from pending to ready, from there to committed,
/// and to aborted from either of the first two.
pub open spec fn leads_to(from: BarrierStatus, to: BarrierStatus) -> bool {
    from == to || match from {
        BarrierStatus::Pending => to == BarrierStatus::Ready || to == BarrierStatus::Aborted,
        BarrierStatus::Ready => to == BarrierStatus::Committed || to == BarrierStatus::Aborted,
        BarrierStatus::Aborted => false,
        BarrierStatus::Committed => false,
    }
}

/// Whatever is asked of a barrier, it goes one of these ways, and what it was
/// opened for never changes.
pub proof fn barriers_only_move_forward(
    state: BarrierState,
    token: Seq<char>,
    rank: u32,
    reason: Seq<char>,
    now: nat,
)
    requires
        state.consistent(),
        state.barriers.contains_key(token),
    ensures
        ({
            let before = state.barriers[token];
            let kept = |after: BarrierView|
                {
                    &&& leads_to(before.status, after.status)
                    &&& after.token == before.token
                    &&& after.target_id == before.target_id
                    &&& after.step == before.step
                    &&& after.expected == before.expected
                    &&& after.required == before.required
                    &&& after.deadline == before.deadline
                };
            &&& kept(state.get(token, now).0.barriers[token])
            &&& kept(state.rank_complete(token, rank, now).0.barriers[token])
            &&& kept(state.mark_committed(token, now).0.barriers[token])
            &&& kept(state.abort(token, reason).0.barriers[token])
        }),
{
    assert(state.barriers[token].token == token);
}

/// What is asked of one barrier leaves every other one alone.
pub proof fn barriers_are_independent(
    state: BarrierState,
    token: Seq<char>,
    other: Seq<char>,
    rank: u32,
    reason: Seq<char>,
    now: nat,
)
    requires
        state.consistent(),
        state.barriers.contains_key(other),
        token != other,
    ensures
        state.get(token, now).0.barriers.contains_key(other),
        state.get(token, now).0.barriers[other] == state.barriers[other],
        state.rank_complete(token, rank, now).0.barriers.contains_key(other),
        state.rank_complete(token, rank, now).0.barriers[other] == state.barriers[other],
        state.mark_committed(token, now).0.barriers.contains_key(other),
        state.mark_committed(token, now).0.barriers[other] == state.barriers[other],
        state.abort(token, reason).0.barriers.contains_key(other),
        state.abort(token, reason).0.barriers[other] == state.barriers[other],
{
    if state.barriers.contains_key(token) {
        assert(state.barriers[token].token == token);
    }
}

/// A barrier that is newly opened is for that target and step, expects as many
/// ranks as it was opened for, and asks for as many of them as the quorum policy
/// says: for all of them, where the policy is all ranks. It is pending, nobody has
/// reported, and it gives up once the timeout has passed. It is the one that the
/// next look finds under its token, and nothing else changes.
pub proof fn an_opened_barrier_asks_for_its_quorum(
    state: BarrierState,
    target: Seq<char>,
    step: u64,
    expected: u32,
    now: nat,
    uuid: Seq<char>,
)
    requires
        !(state.by_step.contains_key(target) && state.by_step[target].contains_key(step)
            && state.barriers.contains_key(state.by_step[target][step])),
    ensures
        ({
            let (after, opened) = state.begin(target, step, expected, now, uuid);
            &&& opened.token == "ckpt-"@ + text::decimal(step as nat) + "-"@ + uuid
            &&& opened.target_id == target
            &&& opened.step == step
            &&& opened.expected == expected
            &&& opened.required == state.quorum.threshold(expected)
            &&& state.quorum == QuorumPolicy::AllRanks ==> opened.required == expected
            &&& opened.deadline == now + state.timeout_ms * 1000000
            &&& forall|rank: u32| !#[trigger] opened.completed_ranks.contains(rank)
            &&& opened.completed_ranks.len() == 0
            &&& opened.status == BarrierStatus::Pending
            &&& opened.abort_reason is None
            &&& after.barriers.contains_key(opened.token)
            &&& after.barriers[opened.token] == opened
            &&& after.by_step.contains_key(target)
            &&& after.by_step[target].contains_key(step)
            &&& after.by_step[target][step] == opened.token
            &&& forall|token: Seq<char>|
                token != opened.token ==> (#[trigger] after.barriers.contains_key(token)
                    <==> state.barriers.contains_key(token))
            &&& forall|token: Seq<char>|
                token != opened.token && state.barriers.contains_key(token)
                    ==> #[trigger] after.barriers[token] == state.barriers[token]
            &&& forall|other: Seq<char>, s: u64|
                (other != target || s != step) && state.by_step.contains_key(other)
                    && state.by_step[other].contains_key(s)
                    ==> #[trigger] after.by_step[other][s] == state.by_step[other][s]
                    && after.by_step.contains_key(other) && after.by_step[other].contains_key(s)
            &&& after.quorum == state.quorum
            &&& after.timeout_ms == state.timeout_ms
        }),
{
}

/// The deadline is all that time does to a barrier: one that is pending when its
/// deadline has passed is aborted for that, and nothing else of it changes, nor
/// anything of another barrier.
pub proof fn time_only_aborts_the_late(barrier: BarrierView, now: nat)
    ensures
        ({
            let seen = barrier.checked(now);
            let late = barrier.status == BarrierStatus::Pending && now > barrier.deadline;
            &&& late ==> seen.status == BarrierStatus::Aborted && seen.abort_reason == Some(
                "barrier deadline exceeded"@,
            )
            &&& !late ==> seen.status == barrier.status && seen.abort_reason
                == barrier.abort_reason
            &&& seen.token == barrier.token
            &&& seen.target_id == barrier.target_id
            &&& seen.step == barrier.step
            &&& seen.expected == barrier.expected
            &&& seen.required == barrier.required
            &&& seen.deadline == barrier.deadline
            &&& seen.completed_ranks == barrier.completed_ranks
        }),
{
}

/// A report is counted exactly while the barrier waits for ranks or has its
/// quorum. It adds that rank and no other, answers how many ranks have reported,
/// and makes the barrier ready exactly once as many have as are required.
pub proof fn a_report_adds_its_rank(state: BarrierState, token: Seq<char>, rank: u32, now: nat)
    requires
        state.consistent(),
        state.barriers.contains_key(token),
        state.barriers[token].completed_ranks.len() < u32::MAX,
    ensures
        ({
            let (after, out) = state.rank_complete(token, rank, now);
            let before = state.barriers[token];
            let noted = after.barriers[token];
            let late = before.status == BarrierStatus::Pending && now > before.deadline;
            let open = !late && (before.status == BarrierStatus::Pending || before.status
                == BarrierStatus::Ready);
            &&& out is Ok <==> open
            &&& out is Ok ==> out->Ok_0 == noted.completed_ranks.len()
            &&& out is Ok ==> forall|r: u32| #[trigger]
                noted.completed_ranks.contains(r) <==> before.completed_ranks.contains(r) || r
                    == rank
            &&& out is Ok ==> (noted.status == BarrierStatus::Ready
                <==> noted.completed_ranks.len() >= before.required)
            &&& out is Ok && noted.status != BarrierStatus::Ready ==> noted.status
                == BarrierStatus::Pending
            &&& out is Err ==> noted.completed_ranks == before.completed_ranks
            &&& before.status == BarrierStatus::Committed ==> out == Err::<u32, ErrorView>(
                ErrorView::CheckpointNotReady { token, reason: "checkpoint already committed"@ },
            )
            &&& late ==> out == Err::<u32, ErrorView>(
                ErrorView::CheckpointAborted { token, reason: "barrier deadline exceeded"@ },
            )
            &&& before.status == BarrierStatus::Aborted ==> out == Err::<u32, ErrorView>(
                ErrorView::CheckpointAborted { token, reason: before.abort_reason->0 },
            )
            &&& noted.token == before.token
            &&& noted.target_id == before.target_id
            &&& noted.step == before.step
            &&& noted.expected == before.expected
            &&& noted.required == before.required
            &&& noted.deadline == before.deadline
            &&& after.by_step == state.by_step
            &&& after.quorum == state.quorum
            &&& after.timeout_ms == state.timeout_ms
        }),
{
    let before = state.barriers[token];
    vstd::set::axiom_set_insert_len(before.completed_ranks, rank);
    if before.completed_ranks.contains(rank) {
        assert(before.completed_ranks.insert(rank) =~= before.completed_ranks);
    }
}

/// A commit is allowed exactly on a barrier that is ready, or committed already,
/// and makes it committed. One that still waits is told how many of how many
/// ranks have reported, one that was aborted why; neither changes but that a
/// deadline is applied.
pub proof fn a_commit_needs_a_ready_barrier(state: BarrierState, token: Seq<char>, now: nat)
    requires
        state.consistent(),
        state.barriers.contains_key(token),
    ensures
        ({
            let (after, out) = state.mark_committed(token, now);
            let before = state.barriers[token];
            let noted = after.barriers[token];
            let late = before.status == BarrierStatus::Pending && now > before.deadline;
            &&& out is Ok <==> before.status == BarrierStatus::Ready || before.status
                == BarrierStatus::Committed
            &&& out is Ok ==> noted.status == BarrierStatus::Committed && noted.abort_reason
                == before.abort_reason
            &&& out is Err && !late ==> noted == before
            &&& late ==> noted.status == BarrierStatus::Aborted
            &&& before.status == BarrierStatus::Pending && !late ==> out == Err::<(), ErrorView>(
                ErrorView::CheckpointNotReady {
                    token,
                    reason: text::decimal(before.completed_ranks.len()) + "/"@ + text::decimal(
                        before.required as nat,
                    ) + " required ranks reported"@,
                },
            )
            &&& late ==> out == Err::<(), ErrorView>(
                ErrorView::CheckpointAborted { token, reason: "barrier deadline exceeded"@ },
            )
            &&& before.status == BarrierStatus::Aborted ==> out == Err::<(), ErrorView>(
                ErrorView::CheckpointAborted { token, reason: before.abort_reason->0 },
            )
            &&& noted.token == before.token
            &&& noted.target_id == before.target_id
            &&& noted.step == before.step
            &&& noted.expected == before.expected
            &&& noted.required == before.required
            &&& noted.deadline == before.deadline
            &&& noted.completed_ranks == before.completed_ranks
        }),
{
}

/// An abort always succeeds on a known barrier. It aborts it for the reason given,
/// unless it is committed, which it then stays. Nothing else of it changes.
pub proof fn an_abort_gives_its_reason(state: BarrierState, token: Seq<char>, reason: Seq<char>)
    requires
        state.consistent(),
        state.barriers.contains_key(token),
    ensures
        ({
            let (after, out) = state.abort(token, reason);
            let before = state.barriers[token];
            let noted = after.barriers[token];
            &&& out is Ok
            &&& before.status == BarrierStatus::Committed ==> noted == before
            &&& before.status != BarrierStatus::Committed ==> noted.status
                == BarrierStatus::Aborted && noted.abort_reason == Some(reason)
            &&& noted.token == before.token
            &&& noted.target_id == before.target_id
            &&& noted.step == before.step
            &&& noted.expected == before.expected
            &&& noted.required == before.required
            &&& noted.deadline == before.deadline
            &&& noted.completed_ranks == before.completed_ranks
        }),
{
}

/// A token that is not known is an error for every operation, and changes nothing.
pub proof fn unknown_tokens_are_refused(
    state: BarrierState,
    token: Seq<char>,
    rank: u32,
    reason: Seq<char>,
    now: nat,
)
    requires
        !state.barriers.contains_key(token),
    ensures
        state.rank_complete(token, rank, now) == (
            state,
            Err::<u32, ErrorView>(ErrorView::UnknownCheckpoint(token)),
        ),
        state.get(token, now) == (
            state,
            Err::<BarrierView, ErrorView>(ErrorView::UnknownCheckpoint(token)),
        ),
        state.mark_committed(token, now) == (
            state,
            Err::<(), ErrorView>(ErrorView::UnknownCheckpoint(token)),
        ),
        state.abort(token, reason) == (
            state,
            Err::<(), ErrorView>(ErrorView::UnknownCheckpoint(token)),
        ),
{
}

/// Looking at a barrier shows it as it is, its deadline applied, and every barrier
/// is looked over in the same way. Nothing else changes.
pub proof fn looking_applies_the_deadline(state: BarrierState, token: Seq<char>, now: nat)
    requires
        state.consistent(),
        state.barriers.contains_key(token),
    ensures
        ({
            let before = state.barriers[token];
            let late = before.status == BarrierStatus::Pending && now > before.deadline;
            let (after, out) = state.get(token, now);
            let all = state.looked_over(now);
            &&& out == Ok::<BarrierView, ErrorView>(after.barriers[token])
            &&& all.barriers.contains_key(token)
            &&& all.barriers[token] == after.barriers[token]
            &&& !late ==> after.barriers[token] == before
            &&& late ==> after.barriers[token].status == BarrierStatus::Aborted
            &&& all.barriers.dom() == state.barriers.dom()
            &&& all.by_step == state.by_step
            &&& after.by_step == state.by_step
        }),
{
    assert(state.looked_over(now).barriers.dom() =~= state.barriers.dom());
}

/// The steps in flight are those of the barriers that wait for ranks in time or
/// have their quorum: a step is listed exactly if such a barrier has it.
pub proof fn open_steps_are_in_flight(
    state: BarrierState,
    steps: Seq<u64>,
    now: nat,
    step: u64,
)
    requires
        state.lists_open_steps(steps, now),
    ensures
        steps.len() == Set::new(
            |token: Seq<char>|
                state.barriers.contains_key(token) && (state.barriers[token].status
                    == BarrierStatus::Ready || state.barriers[token].status
                    == BarrierStatus::Pending && now <= state.barriers[token].deadline),
        ).len(),
        steps.contains(step) <==> exists|token: Seq<char>| #[trigger]
            state.barriers.contains_key(token) && state.barriers[token].step == step && (
            state.barriers[token].status == BarrierStatus::Ready || state.barriers[token].status
                == BarrierStatus::Pending && now <= state.barriers[token].deadline),
{
    let tokens = choose|tokens: Seq<Seq<char>>|
        {
            &&& #[trigger] tokens.no_duplicates()
            &&& tokens.to_set() == state.open_tokens(now)
            &&& steps == state.steps_of(tokens)
        };
    tokens.unique_seq_to_set();
    assert(state.open_tokens(now) =~= Set::new(
        |token: Seq<char>|
            state.barriers.contains_key(token) && (state.barriers[token].status
                == BarrierStatus::Ready || state.barriers[token].status == BarrierStatus::Pending
                && now <= state.barriers[token].deadline),
    ));
    if steps.contains(step) {
        let i = choose|i: int| 0 <= i < steps.len() && steps[i] == step;
        assert(tokens.to_set().contains(tokens[i]));
        assert(state.barriers.contains_key(tokens[i]));
    }
    if exists|token: Seq<char>| #[trigger]
        state.barriers.contains_key(token) && state.barriers[token].step == step && (
        state.barriers[token].status == BarrierStatus::Ready || state.barriers[token].status
            == BarrierStatus::Pending && now <= state.barriers[token].deadline) {
        let token = choose|token: Seq<char>| #[trigger]
            state.barriers.contains_key(token) && state.barriers[token].step == step && (
            state.barriers[token].status == BarrierStatus::Ready || state.barriers[token].status
                == BarrierStatus::Pending && now <= state.barriers[token].deadline);
        assert(state.open_tokens(now).contains(token));
        assert(tokens.to_set().contains(token));
        let i = choose|i: int| 0 <= i < tokens.len() && tokens[i] == token;
        assert(steps[i] == step);
    }
}

proof fn lemma_asks_for_its_quorum(
    state: BarrierState,
    requests: Seq<(Request, nat)>,
    token: Seq<char>,
)
    requires
        state.barriers == Map::<Seq<char>, BarrierView>::empty(),
    ensures
        ({
            let then = replayed(state, requests);
            let found = then.barriers[token];
            &&& then.quorum == state.quorum
            &&& then.barriers.contains_key(token) ==> {
                &&& found.consistent()
                &&& found.token == token
                &&& found.required == state.quorum.threshold(found.expected)
                &&& forall|rank: u32| #[trigger]
                    found.completed_ranks.contains(rank) ==> exists|i: int|
                        0 <= i < requests.len() && (#[trigger] requests[i]).0 == (Request::Report {
                            token,
                            rank,
                        })
            }
        }),
    decreases requests.len(),
{
    if requests.len() > 0 {
        let (request, now) = requests.last();
        let earlier = requests.drop_last();
        let before = replayed(state, earlier);
        let then = replayed(state, requests);
        let found = then.barriers[token];
        lemma_asks_for_its_quorum(state, earlier, token);
        match request {
            Request::Begin { target, step, expected, uuid } => {
                if let Some(open) = before.open_for(target, step) {
                    lemma_asks_for_its_quorum(state, earlier, before.by_step[target][step]);
                }
            },
            Request::Report { token: other, rank } => {
                lemma_asks_for_its_quorum(state, earlier, other);
            },
            Request::Look { token: other } => {
                lemma_asks_for_its_quorum(state, earlier, other);
            },
            Request::LookOver => {},
            Request::Commit { token: other } => {
                lemma_asks_for_its_quorum(state, earlier, other);
            },
            Request::Abort { token: other, reason } => {
                lemma_asks_for_its_quorum(state, earlier, other);
            },
        }
        if then.barriers.contains_key(token) {
            assert forall|rank: u32| #[trigger]
                found.completed_ranks.contains(rank) implies exists|i: int|
                0 <= i < requests.len() && (#[trigger] requests[i]).0 == (Request::Report {
                    token,
                    rank,
                }) by {
                if before.barriers.contains_key(token)
                    && before.barriers[token].completed_ranks.contains(rank) {
                    let i = choose|i: int|
                        0 <= i < earlier.len() && (#[trigger] earlier[i]).0 == (Request::Report {
                            token,
                            rank,
                        });
                    assert(requests[i].0 == (Request::Report { token, rank }));
                } else {
                    assert(requests[requests.len() - 1].0 == (Request::Report { token, rank }));
                }
            }
        }
    }
}

/// Whatever is asked of an empty registry, a barrier that is ready or committed
/// has as many different ranks as its quorum asks for, and each of them reported
/// to that very barrier. Where all ranks are asked for, no fewer will do than the
/// barrier expects.
pub proof fn nothing_is_ready_before_its_ranks_reported(
    state: BarrierState,
    requests: Seq<(Request, nat)>,
    token: Seq<char>,
)
    requires
        state.barriers == Map::<Seq<char>, BarrierView>::empty(),
        ({
            let then = replayed(state, requests);
            &&& then.barriers.contains_key(token)
            &&& then.barriers[token].status == BarrierStatus::Ready
                || then.barriers[token].status == BarrierStatus::Committed
        }),
    ensures
        ({
            let found = replayed(state, requests).barriers[token];
            &&& found.completed_ranks.finite()
            &&& found.completed_ranks.len() >= state.quorum.threshold(found.expected)
            &&& state.quorum == QuorumPolicy::AllRanks ==> found.completed_ranks.len()
                >= found.expected
            &&& forall|rank: u32| #[trigger]
                found.completed_ranks.contains(rank) ==> exists|i: int|
                    0 <= i < requests.len() && (#[trigger] requests[i]).0 == (Request::Report {
                        token,
                        rank,
                    })
        }),
{
    lemma_asks_for_its_quorum(state, requests, token);
}

/// A barrier that was opened for `expected` ranks, all of which must report, is
/// not ready and not committed before that many different ranks have, whatever is
/// asked in between, as long as no random token repeats one in use.
pub proof fn all_ranks_report_before_a_barrier_is_ready(
    state: BarrierState,
    target: Seq<char>,
    step: u64,
    expected: u32,
    now: nat,
    uuid: Seq<char>,
    requests: Seq<(Request, nat)>,
)
    requires
        state.consistent(),
        state.quorum == QuorumPolicy::AllRanks,
        state.open_for(target, step) is None,
        all_name_anew(state.begin(target, step, expected, now, uuid).0, requests),
    ensures
        ({
            let opened = state.begin(target, step, expected, now, uuid).0;
            let found = replayed(opened, requests).open_for(target, step);
            &&& found is Some
            &&& found->0.expected == expected
            &&& found->0.required == expected
            &&& found->0.status == BarrierStatus::Ready || found->0.status
                == BarrierStatus::Committed ==> found->0.completed_ranks.len() >= expected
        }),
{
    let opened = state.begin(target, step, expected, now, uuid).0;
    assert forall|token: Seq<char>| #[trigger] opened.barriers.contains_key(token) implies
        opened.barriers[token].consistent() && opened.barriers[token].token == token by {
        if state.barriers.contains_key(token) {
            assert(state.barriers[token].consistent());
        }
    }
    a_step_keeps_its_barrier(opened, target, step, requests, expected, now, uuid);
    let then = replayed(opened, requests);
    assert(then.barriers.contains_key(then.by_step[target][step]));
}

/// A barrier, and what came of asking about one, are seen as they are.
pub proof fn barriers_are_seen_as_they_are(
    one: CheckpointBarrier,
    found: Result<CheckpointBarrier, DtrError>,
    count: Result<u32, DtrError>,
    status: Result<BarrierStatus, DtrError>,
)
    ensures
        one@.token == one.token@,
        one@.target_id == one.target_id@,
        one@.step == one.step,
        one@.expected == one.expected,
        one@.required == one.required,
        one@.deadline == one.deadline,
        one@.completed_ranks == one.completed_ranks@,
        one@.status == one.status,
        one@.abort_reason is Some <==> one.abort_reason is Some,
        one.abort_reason is Some ==> one@.abort_reason == Some(one.abort_reason->0@),
        match found {
            Ok(b) => barrier::seen(found) == Ok::<BarrierView, ErrorView>(b@),
            Err(e) => barrier::seen(found) == Err::<BarrierView, ErrorView>(e@),
        },
        match count {
            Ok(n) => barrier::counted(count) == Ok::<u32, ErrorView>(n),
            Err(e) => barrier::counted(count) == Err::<u32, ErrorView>(e@),
        },
        match status {
            Ok(s) => barrier::status_of(status) == Ok::<BarrierStatus, ErrorView>(s),
            Err(e) => barrier::status_of(status) == Err::<BarrierStatus, ErrorView>(e@),
        },
{
}

/// Whoever begins a step that has its barrier gets that very barrier, with what it was
/// opened for and with all reports, its deadline applied. Nothing else changes.
pub proof fn a_known_step_is_joined(
    state: BarrierState,
    target: Seq<char>,
    step: u64,
    expected: u32,
    now: nat,
    uuid: Seq<char>,
)
    requires
        state.consistent(),
        state.by_step.contains_key(target),
        state.by_step[target].contains_key(step),
        state.barriers.contains_key(state.by_step[target][step]),
    ensures
        ({
            let (after, joined) = state.begin(target, step, expected, now, uuid);
            let token = state.by_step[target][step];
            let known = state.barriers[token];
            let late = known.status == BarrierStatus::Pending && now > known.deadline;
            &&& joined.token == token
            &&& joined.target_id == known.target_id
            &&& joined.step == known.step
            &&& joined.expected == known.expected
            &&& joined.required == known.required
            &&& joined.deadline == known.deadline
            &&& joined.completed_ranks == known.completed_ranks
            &&& !late ==> joined == known
            &&& late ==> joined.status == BarrierStatus::Aborted
            &&& after.barriers[token] == joined
            &&& after.barriers.dom() == state.barriers.dom()
            &&& forall|other: Seq<char>|
                other != token && state.barriers.contains_key(other)
                    ==> #[trigger] after.barriers[other] == state.barriers[other]
            &&& after.by_step == state.by_step
            &&& after.quorum == state.quorum
            &&& after.timeout_ms == state.timeout_ms
        }),
{
    let token = state.by_step[target][step];
    assert(state.barriers[token].token == token);
    let after = state.begin(target, step, expected, now, uuid).0;
    assert(after.barriers.dom() =~= state.barriers.dom());
}

} // verus!
