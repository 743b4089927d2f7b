//! Group commit.

use f4kvs_lsm::duration::Duration;
use f4kvs_lsm::error::LsmError;
use f4kvs_lsm::wal_group_commit::{
    ack_result, next_flush_deadline, waiter_outcome, CommitWake, GroupCommitQueue,
    GroupCommitTiming,
};

fn at(secs: u64, millis: u32) -> Duration {
    Duration { secs, nanos: millis * 1_000_000 }
}

#[test]
fn idle_flush_deadline_sooner_than_max_wait() {
    let now = at(1000, 0);
    let mut timing = GroupCommitTiming::default();
    timing.record_enqueue(true, now);
    let first = timing.first_pending_at.unwrap();
    timing.last_enqueue_at = Some(first);
    let dl = next_flush_deadline(
        &timing,
        1,
        Duration::from_secs(60),
        Some(Duration::from_millis(100)),
        now,
    )
    .unwrap();
    assert!(!first.plus(Duration::from_millis(100)).less_than(dl));
}

#[test]
fn a_group_is_due_when_its_first_entry_has_waited() {
    let mut queue: GroupCommitQueue<u32> = GroupCommitQueue::new();
    assert_eq!(queue.deadline(at(1, 0), None, at(50, 0)), None);
    assert!(!queue.enqueue(1, at(50, 0), 3));
    assert!(!queue.enqueue(2, at(50, 500), 3));
    assert_eq!(queue.deadline(at(1, 0), None, at(50, 600)), Some(at(51, 0)));
    assert_eq!(
        queue.deadline(at(1, 0), Some(at(0, 100)), at(50, 500)),
        Some(at(50, 600))
    );
    assert_eq!(queue.deadline(at(1, 0), None, at(70, 0)), Some(at(70, 0)));
    assert!(queue.enqueue(3, at(50, 700), 3));
    assert!(queue.flush_now(CommitWake::Notified, 3));
    assert!(!queue.flush_now(CommitWake::Notified, 4));
    assert!(queue.flush_now(CommitWake::DeadlineReached, 4));
    assert!(!queue.flush_now(CommitWake::NotifiedIdle, 1));
    assert_eq!(queue.take_pending(), vec![1, 2, 3]);
    assert_eq!(queue.deadline(at(1, 0), None, at(50, 600)), None);
}

#[test]
fn waiters_learn_what_became_of_their_entry() {
    assert!(ack_result(&Ok(())).is_ok());
    match ack_result(&Err(LsmError::Corruption("bad".to_string()))) {
        Err(LsmError::Internal(m)) => assert!(m.contains("bad")),
        other => panic!("{other:?}"),
    }
    assert!(waiter_outcome(false, None, "dropped").is_ok());
    assert!(waiter_outcome(true, Some(Ok(())), "dropped").is_ok());
    match waiter_outcome(true, None, "dropped") {
        Err(LsmError::Internal(m)) => assert_eq!(m, "dropped"),
        other => panic!("{other:?}"),
    }
}
