//! The queue of pending work.

use tc_chain::{ChainError, Status, TxnId, TxnTaskQueue};

fn id(n: u16) -> TxnId {
    TxnId { time: 100, nonce: n, trace_high: 0, trace_low: 0 }
}

fn request(queue: &mut TxnTaskQueue<u8>, n: u16, record: u8) {
    queue.start(id(n)).unwrap();
    queue.record(id(n), record).unwrap();
    queue.complete(id(n)).unwrap();
}

#[test]
fn records_are_kept_in_the_order_of_their_admission() {
    let mut queue = TxnTaskQueue::new(3);
    request(&mut queue, 2, 1);
    request(&mut queue, 3, 9);
    request(&mut queue, 2, 2);
    request(&mut queue, 2, 3);
    assert!(matches!(queue.start(id(2)), Err(ChainError::CapacityExhausted)));
    assert_eq!(queue.status(&id(2)), Some(Status::Active));
    queue.operation().unwrap();
    assert_eq!(queue.commit(&id(2)).unwrap(), Some(vec![1, 2, 3]));
    assert_eq!(queue.commit(&id(2)).unwrap(), None);
    queue.finish();
    assert_eq!(queue.status(&id(2)), Some(Status::Committed));
    assert!(matches!(queue.start(id(2)), Err(ChainError::Committed)));
    assert!(matches!(queue.register(id(2)), Err(ChainError::Committed)));
    queue.readable(&id(2)).unwrap();
}

#[test]
fn captures_and_operations_exclude_one_another() {
    let mut queue: TxnTaskQueue<u8> = TxnTaskQueue::new(2);
    queue.start(id(2)).unwrap();
    assert!(matches!(queue.start(id(3)), Err(ChainError::Busy)));
    assert!(matches!(queue.operation(), Err(ChainError::Busy)));
    assert!(matches!(queue.complete(id(2)), Err(ChainError::UnexpectedReply)));
    assert!(matches!(queue.record(id(3), 1), Err(ChainError::UnexpectedReply)));
    queue.record(id(2), 1).unwrap();
    // the handler runs, and other requests are prepared
    request(&mut queue, 3, 1);
    assert!(matches!(queue.start(id(2)), Err(ChainError::Unfinished)));
    queue.operation().unwrap();
    assert!(matches!(queue.start(id(4)), Err(ChainError::Busy)));
    assert!(matches!(queue.commit(&id(2)), Err(ChainError::Unfinished)));
    assert!(matches!(queue.rollback(&id(2)), Err(ChainError::Unfinished)));
    assert!(matches!(queue.check_finalize(&id(2)), Err(ChainError::Unfinished)));
    queue.check_finalize(&id(1)).unwrap();
    assert_eq!(queue.commit(&id(3)).unwrap(), Some(vec![1]));
    queue.finish();
    queue.complete(id(2)).unwrap();
    assert_eq!(queue.status(&id(2)), Some(Status::Active));
}

#[test]
fn failed_transactions_can_only_be_discarded() {
    let mut queue: TxnTaskQueue<u8> = TxnTaskQueue::new(2);
    queue.start(id(2)).unwrap();
    queue.abandon(id(2));
    assert_eq!(queue.status(&id(2)), Some(Status::Failed));
    assert!(matches!(queue.start(id(2)), Err(ChainError::Failed)));
    assert!(matches!(queue.register(id(2)), Err(ChainError::Failed)));
    assert!(matches!(queue.readable(&id(2)), Err(ChainError::Failed)));
    queue.operation().unwrap();
    assert!(matches!(queue.commit(&id(2)), Err(ChainError::Failed)));
    queue.rollback(&id(2)).unwrap();
    queue.rollback(&id(2)).unwrap();
    assert!(matches!(queue.commit(&id(2)), Err(ChainError::RolledBack)));
    queue.finish();
    assert!(matches!(queue.readable(&id(2)), Err(ChainError::RolledBack)));
    assert!(matches!(queue.register(id(2)), Err(ChainError::RolledBack)));
}

#[test]
fn cutoffs_forget_what_they_cover() {
    let mut queue: TxnTaskQueue<u8> = TxnTaskQueue::new(2);
    request(&mut queue, 2, 1);
    request(&mut queue, 4, 1);
    queue.operation().unwrap();
    queue.finalize(id(3)).unwrap();
    queue.finish();
    assert_eq!(queue.status(&id(2)), None);
    assert_eq!(queue.status(&id(4)), Some(Status::Active));
    for n in [1, 2, 3] {
        assert!(matches!(queue.register(id(n)), Err(ChainError::Outdated)));
        assert!(matches!(queue.readable(&id(n)), Err(ChainError::Outdated)));
        assert!(matches!(queue.start(id(n)), Err(ChainError::Outdated)));
    }
    // an earlier cutoff moves nothing back
    queue.operation().unwrap();
    queue.finalize(id(2)).unwrap();
    assert!(matches!(queue.commit(&id(3)), Err(ChainError::Outdated)));
    assert!(matches!(queue.rollback(&id(3)), Err(ChainError::Outdated)));
    queue.finish();
    assert!(matches!(queue.validate_fresh(), Err(ChainError::QueueNotFresh)));
}

#[test]
fn only_armed_operations_interrupt() {
    let mut queue: TxnTaskQueue<u8> = TxnTaskQueue::new(2);
    queue.operation().unwrap();
    queue.release();
    queue.validate_fresh().unwrap();
    queue.register(id(2)).unwrap();
    queue.operation().unwrap();
    queue.arm();
    queue.release();
    assert!(matches!(queue.operation(), Err(ChainError::Interrupted)));
    assert!(matches!(queue.register(id(3)), Err(ChainError::Interrupted)));
    assert!(matches!(queue.readable(&id(3)), Err(ChainError::Interrupted)));
    assert!(matches!(queue.start(id(3)), Err(ChainError::Interrupted)));

    // a commit arms its operation, and an interrupted queue completes no request
    let mut queue: TxnTaskQueue<u8> = TxnTaskQueue::new(2);
    queue.start(id(2)).unwrap();
    queue.record(id(2), 1).unwrap();
    queue.operation().unwrap();
    queue.commit(&id(3)).unwrap();
    queue.release();
    assert!(matches!(queue.complete(id(2)), Err(ChainError::Interrupted)));
}

#[test]
fn decisions_are_made_within_operations() {
    let mut queue: TxnTaskQueue<u8> = TxnTaskQueue::new(2);
    assert!(matches!(queue.commit(&id(2)), Err(ChainError::UnexpectedReply)));
    assert!(matches!(queue.rollback(&id(2)), Err(ChainError::UnexpectedReply)));
    assert!(matches!(queue.finalize(id(2)), Err(ChainError::UnexpectedReply)));
    queue.operation().unwrap();
    assert_eq!(queue.check_rollback(&id(2)).unwrap(), true);
    queue.rollback(&id(2)).unwrap();
    assert_eq!(queue.check_rollback(&id(2)).unwrap(), false);
    queue.finish();
}
