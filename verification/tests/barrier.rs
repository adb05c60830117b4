use dtr::barrier::{BarrierManager, BarrierStatus};
use dtr::error::DtrError;
use dtr::types::{CheckpointToken, QuorumPolicy, TargetId};
use std::future::Future;

fn paused<F: Future<Output = ()>>(scenario: F) {
    tokio::runtime::Builder::new_current_thread()
        .enable_time()
        .start_paused(true)
        .build()
        .unwrap()
        .block_on(scenario);
}

const MS: u128 = 1_000_000;

#[test]
fn begin_is_idempotent_per_step() {
    let mut bm = BarrierManager::new(QuorumPolicy::AllRanks, 10_000);
    let a = bm.begin(TargetId::new("t"), 100, 4);
    let b = bm.begin(TargetId::new("t"), 100, 4);
    assert_eq!(a.token, b.token);
    // Different step opens a different barrier.
    let c = bm.begin(TargetId::new("t"), 200, 4);
    assert_ne!(a.token, c.token);
}

#[test]
fn all_ranks_quorum_lifecycle() {
    let mut bm = BarrierManager::new(QuorumPolicy::AllRanks, 10_000);
    let barrier = bm.begin(TargetId::new("t"), 1, 3);
    assert_eq!(barrier.required, 3);

    bm.rank_complete(&barrier.token, 0).unwrap();
    bm.rank_complete(&barrier.token, 1).unwrap();
    // Commit before quorum is refused with a progress message.
    assert!(matches!(
        bm.mark_committed(&barrier.token),
        Err(DtrError::CheckpointNotReady { .. })
    ));

    // Duplicate report from the same rank does not double count.
    bm.rank_complete(&barrier.token, 1).unwrap();
    assert_eq!(bm.status(&barrier.token).unwrap(), BarrierStatus::Pending);

    bm.rank_complete(&barrier.token, 2).unwrap();
    assert_eq!(bm.status(&barrier.token).unwrap(), BarrierStatus::Ready);
    bm.mark_committed(&barrier.token).unwrap();
    assert_eq!(bm.status(&barrier.token).unwrap(), BarrierStatus::Committed);
}

#[test]
fn fractional_quorum_commits_without_stragglers() {
    let mut bm = BarrierManager::new(QuorumPolicy::Fraction(0.5f64.to_bits()), 10_000);
    let barrier = bm.begin(TargetId::new("t"), 1, 4);
    assert_eq!(barrier.required, 2);
    bm.rank_complete(&barrier.token, 0).unwrap();
    bm.rank_complete(&barrier.token, 3).unwrap();
    assert_eq!(bm.status(&barrier.token).unwrap(), BarrierStatus::Ready);
    bm.mark_committed(&barrier.token).unwrap();
}

#[test]
fn deadline_aborts_pending_barrier() {
    paused(async {
        let mut bm = BarrierManager::new(QuorumPolicy::AllRanks, 5_000);
        let barrier = bm.begin(TargetId::new("t"), 1, 2);
        bm.rank_complete(&barrier.token, 0).unwrap();

        tokio::time::advance(std::time::Duration::from_millis(6_000)).await;
        assert_eq!(bm.status(&barrier.token).unwrap(), BarrierStatus::Aborted);
        assert!(matches!(
            bm.rank_complete(&barrier.token, 1),
            Err(DtrError::CheckpointAborted { .. })
        ));
        assert!(matches!(
            bm.mark_committed(&barrier.token),
            Err(DtrError::CheckpointAborted { .. })
        ));
    });
}

#[test]
fn committed_barrier_cannot_be_aborted() {
    let mut bm = BarrierManager::new(QuorumPolicy::AllRanks, 10_000);
    let barrier = bm.begin(TargetId::new("t"), 1, 1);
    bm.rank_complete(&barrier.token, 0).unwrap();
    bm.mark_committed(&barrier.token).unwrap();
    bm.abort(&barrier.token, "too late").unwrap();
    assert_eq!(bm.status(&barrier.token).unwrap(), BarrierStatus::Committed);
}

#[test]
fn tokens_and_deadlines_are_exact() {
    let mut bm = BarrierManager::new(QuorumPolicy::AllRanks, 5_000);
    let barrier = bm.begin_at(TargetId::new("t"), 12, 2, 3 * MS, "abc");
    assert_eq!(barrier.token.as_str(), "ckpt-12-abc");
    assert_eq!(barrier.deadline, 5_003 * MS);
    assert_eq!(barrier.target_id.as_str(), "t");
    // At the deadline the barrier still waits, a nanosecond later it does not.
    assert_eq!(
        bm.get_at(&barrier.token, 5_003 * MS).unwrap().status,
        BarrierStatus::Pending
    );
    let late = bm.get_at(&barrier.token, 5_003 * MS + 1).unwrap();
    assert_eq!(late.status, BarrierStatus::Aborted);
    assert_eq!(
        late.abort_reason.as_deref(),
        Some("barrier deadline exceeded")
    );
}

#[test]
fn fresh_tokens_end_in_a_uuid() {
    let mut bm = BarrierManager::new(QuorumPolicy::AllRanks, 5_000);
    let barrier = bm.begin(TargetId::new("t"), 12, 2);
    assert!(barrier.token.as_str().starts_with("ckpt-12-"));
    assert_eq!(barrier.token.as_str().len(), "ckpt-12-".len() + 36);
}

#[test]
fn refusals_carry_their_reason() {
    let mut bm = BarrierManager::new(QuorumPolicy::AllRanks, 5_000);
    let token = bm.begin_at(TargetId::new("t"), 1, 3, 0, "x").token;
    assert_eq!(bm.rank_complete_at(&token, 7, 0).unwrap(), 1);
    assert_eq!(
        bm.mark_committed_at(&token, 0).unwrap_err().to_string(),
        "checkpoint ckpt-1-x cannot commit: 1/3 required ranks reported"
    );
    bm.abort(&token, "operator said so").unwrap();
    assert_eq!(
        bm.rank_complete_at(&token, 8, 0).unwrap_err().to_string(),
        "checkpoint ckpt-1-x aborted: operator said so"
    );
    assert_eq!(
        bm.mark_committed_at(&token, 0).unwrap_err().to_string(),
        "checkpoint ckpt-1-x aborted: operator said so"
    );
    let nope = CheckpointToken::new("nope");
    assert_eq!(
        bm.status(&nope).unwrap_err().to_string(),
        "unknown checkpoint token 'nope'"
    );
    assert!(bm.get(&nope).is_err());
    assert!(bm.abort(&nope, "x").is_err());
    assert!(bm.rank_complete(&nope, 0).is_err());
    assert!(bm.mark_committed(&nope).is_err());
}

#[test]
fn committed_barrier_takes_no_reports() {
    let mut bm = BarrierManager::new(QuorumPolicy::AllRanks, 5_000);
    let token = bm.begin_at(TargetId::new("t"), 1, 1, 0, "x").token;
    bm.rank_complete_at(&token, 0, 0).unwrap();
    bm.mark_committed_at(&token, 0).unwrap();
    bm.mark_committed_at(&token, 0).unwrap();
    assert_eq!(
        bm.rank_complete_at(&token, 1, 0).unwrap_err().to_string(),
        "checkpoint ckpt-1-x cannot commit: checkpoint already committed"
    );
}

#[test]
fn ready_barrier_outlives_its_deadline_and_takes_more_ranks() {
    let mut bm = BarrierManager::new(QuorumPolicy::Fraction(0.5f64.to_bits()), 1);
    let token = bm.begin_at(TargetId::new("t"), 1, 4, 0, "x").token;
    bm.rank_complete_at(&token, 0, 0).unwrap();
    bm.rank_complete_at(&token, 1, 0).unwrap();
    assert_eq!(
        bm.get_at(&token, 100 * MS).unwrap().status,
        BarrierStatus::Ready
    );
    assert_eq!(bm.rank_complete_at(&token, 2, 100 * MS).unwrap(), 3);
    bm.mark_committed_at(&token, 200 * MS).unwrap();
}

#[test]
fn joining_does_not_change_what_was_opened() {
    let mut bm = BarrierManager::new(QuorumPolicy::AllRanks, 5_000);
    let a = bm.begin_at(TargetId::new("t"), 1, 4, 0, "x");
    let b = bm.begin_at(TargetId::new("t"), 1, 9, 50 * MS, "y");
    assert_eq!(a.token, b.token);
    assert_eq!((b.expected, b.required, b.deadline), (4, 4, a.deadline));
    // Another target opens its own barrier for the step.
    let c = bm.begin_at(TargetId::new("u"), 1, 9, 0, "z");
    assert_eq!(c.token.as_str(), "ckpt-1-z");
}

#[test]
fn beginning_past_the_deadline_finds_the_barrier_aborted() {
    paused(async {
        let mut bm = BarrierManager::new(QuorumPolicy::AllRanks, 5_000);
        let b = bm.begin(TargetId::new("t"), 1, 2);
        tokio::time::advance(std::time::Duration::from_millis(6_000)).await;
        let again = bm.begin(TargetId::new("t"), 1, 2);
        assert_eq!(again.token, b.token);
        assert_eq!(again.status, BarrierStatus::Aborted);
        assert_eq!(again.abort_reason.as_deref(), Some("barrier deadline exceeded"));
    });
}

#[test]
fn a_step_keeps_its_barrier() {
    let mut bm = BarrierManager::new(QuorumPolicy::AllRanks, 5_000);
    let b = bm.begin_at(TargetId::new("t"), 1, 2, 0, "a");
    bm.rank_complete_at(&b.token, 0, MS).unwrap();
    let other = bm.begin_at(TargetId::new("u"), 1, 2, 2 * MS, "b");
    assert_ne!(other.token, b.token);
    bm.rank_complete_at(&b.token, 1, 3 * MS).unwrap();
    bm.mark_committed_at(&b.token, 4 * MS).unwrap();
    let again = bm.begin_at(TargetId::new("t"), 1, 9, 9_000 * MS, "c");
    assert_eq!(again.token, b.token);
    assert_eq!((again.expected, again.required), (2, 2));
    assert_eq!(again.deadline, b.deadline);
    assert_eq!(again.completed_ranks.len(), 2);
    assert_eq!(again.status, BarrierStatus::Committed);
}

#[test]
fn open_steps_are_those_of_open_barriers() {
    let mut bm = BarrierManager::new(QuorumPolicy::AllRanks, 5_000);
    let a = bm.begin_at(TargetId::new("t"), 1, 1, 0, "a");
    bm.begin_at(TargetId::new("t"), 2, 1, MS, "b");
    bm.rank_complete_at(&a.token, 0, MS).unwrap();
    let mut steps = bm.open_steps_at(5_001 * MS);
    steps.sort();
    assert_eq!(steps, vec![1, 2]);
    assert_eq!(bm.open_steps_at(5_001 * MS + 1), vec![1]);
    bm.mark_committed_at(&a.token, 5_002 * MS).unwrap();
    assert!(bm.open_steps_at(5_002 * MS).is_empty());
}
