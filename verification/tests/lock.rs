use rquickjs::{Acquired, TaskLock};

#[test]
fn a_free_lock_is_granted_at_once() {
    let mut lock = TaskLock::new();
    assert_eq!(lock.holder(), None);
    assert_eq!(lock.acquire(1), Acquired::Granted);
    assert_eq!(lock.holder(), Some(1));
}

#[test]
fn a_taken_lock_queues_the_task() {
    let mut lock = TaskLock::new();
    assert_eq!(lock.acquire(1), Acquired::Granted);
    assert_eq!(lock.acquire(2), Acquired::Queued);
    assert_eq!(lock.acquire(3), Acquired::Queued);
    assert_eq!(lock.holder(), Some(1));
}

#[test]
fn the_lock_is_not_reentrant() {
    let mut lock = TaskLock::new();
    assert_eq!(lock.acquire(1), Acquired::Granted);
    assert_eq!(lock.acquire(1), Acquired::Refused);
    assert_eq!(lock.acquire(2), Acquired::Queued);
    assert_eq!(lock.acquire(2), Acquired::Refused);
    assert_eq!(lock.release(1), Some(2));
    assert_eq!(lock.release(2), None);
    assert_eq!(lock.holder(), None);
}

#[test]
fn the_lock_is_handed_on_in_the_order_of_arrival() {
    let mut lock = TaskLock::new();
    assert_eq!(lock.acquire(10), Acquired::Granted);
    for task in [30, 20, 50, 40] {
        assert_eq!(lock.acquire(task), Acquired::Queued);
    }
    assert_eq!(lock.release(10), Some(30));
    assert_eq!(lock.holder(), Some(30));
    assert_eq!(lock.release(30), Some(20));
    assert_eq!(lock.release(20), Some(50));
    assert_eq!(lock.release(50), Some(40));
    assert_eq!(lock.release(40), None);
    assert_eq!(lock.holder(), None);
    assert_eq!(lock.acquire(20), Acquired::Granted);
}

#[test]
fn only_the_holder_releases_the_lock() {
    let mut lock = TaskLock::new();
    assert_eq!(lock.release(1), None);
    assert_eq!(lock.acquire(1), Acquired::Granted);
    assert_eq!(lock.acquire(2), Acquired::Queued);
    assert_eq!(lock.release(2), None);
    assert_eq!(lock.release(3), None);
    assert_eq!(lock.holder(), Some(1));
    assert_eq!(lock.release(1), Some(2));
}

#[test]
fn a_task_that_gives_up_waiting_is_passed_over() {
    let mut lock = TaskLock::new();
    assert_eq!(lock.acquire(1), Acquired::Granted);
    assert_eq!(lock.acquire(2), Acquired::Queued);
    assert_eq!(lock.acquire(3), Acquired::Queued);
    assert_eq!(lock.acquire(4), Acquired::Queued);
    assert!(lock.cancel(3));
    assert!(!lock.cancel(3));
    assert!(!lock.cancel(1));
    assert!(!lock.cancel(9));
    assert_eq!(lock.holder(), Some(1));
    assert_eq!(lock.release(1), Some(2));
    assert_eq!(lock.release(2), Some(4));
    assert_eq!(lock.acquire(3), Acquired::Queued);
    assert_eq!(lock.release(4), Some(3));
}
