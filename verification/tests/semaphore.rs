use platoon::sync::semaphore::{AcquireState, Semaphore};

use std::sync::atomic::AtomicUsize;
use std::sync::Arc;
use std::task::{Wake, Waker};

struct MockTask {
    wakes: AtomicUsize,
}

impl Wake for MockTask {
    fn wake(self: Arc<Self>) {
        self.wake_by_ref();
    }

    fn wake_by_ref(self: &Arc<Self>) {
        self.wakes.fetch_add(1, std::sync::atomic::Ordering::SeqCst);
    }
}

fn mock_task() -> Arc<MockTask> {
    Arc::new(MockTask { wakes: AtomicUsize::new(0) })
}

fn waker_of(task: &Arc<MockTask>) -> Waker {
    Waker::from(task.clone())
}

fn wake_all(woken: &mut Vec<Waker>) {
    for waker in woken.drain(..) {
        waker.wake();
    }
}

fn wakes(task: &Arc<MockTask>) -> usize {
    task.wakes.load(std::sync::atomic::Ordering::SeqCst)
}

#[test]
fn acquire_many() {
    let mut woken: Vec<Waker> = Vec::new();
    let mut semaphore = Semaphore::new(42);
    let permit32 = semaphore.try_acquire(32).unwrap();

    let task = mock_task();
    let mut acquire10 = semaphore.acquire(10);
    let permit10 = semaphore.poll_acquire(&mut acquire10, waker_of(&task), &mut woken);
    assert!(permit10.is_some());

    let mut acquire32 = semaphore.acquire(32);
    assert!(semaphore.poll_acquire(&mut acquire32, waker_of(&task), &mut woken).is_none());

    semaphore.release(permit32, &mut woken);
    wake_all(&mut woken);
    assert_eq!(wakes(&task), 1);
    let permit = semaphore.poll_acquire(&mut acquire32, waker_of(&task), &mut woken).unwrap();
    assert_eq!(permit.count(), 32);
    assert_eq!(semaphore.permits(), 0);
}

#[test]
fn try_acquire_takes_and_refuses() {
    let mut woken: Vec<Waker> = Vec::new();
    let mut sem = Semaphore::new(42);
    let p1 = sem.try_acquire(42);
    assert!(p1.is_some());
    assert!(sem.try_acquire(1).is_none());
    assert_eq!(sem.permits(), 0);
    sem.release(p1.unwrap(), &mut woken);
    assert_eq!(sem.permits(), 42);
    let p3 = sem.try_acquire(32);
    assert!(p3.is_some());
    let p4 = sem.try_acquire(10);
    assert!(p4.is_some());
    assert!(sem.try_acquire(1).is_none());
}

#[test]
fn queued_waiter_blocks_later_requests() {
    let mut woken: Vec<Waker> = Vec::new();
    let mut sem = Semaphore::new(1);
    let task = mock_task();
    let mut big = sem.acquire(2);
    assert!(sem.poll_acquire(&mut big, waker_of(&task), &mut woken).is_none());
    let key = match big.state {
        AcquireState::Waiting(k) => k,
        _ => panic!("the request should be queued"),
    };
    assert!(sem.is_queued(key));
    // one permit is free, but a waiter is queued ahead
    assert!(sem.try_acquire(1).is_none());
    assert_eq!(sem.permits(), 1);
    // a request for nothing always succeeds when the permits are there
    assert_eq!(sem.try_acquire(0).unwrap().count(), 0);
}

#[test]
fn added_permits_wake_waiters_in_order() {
    let mut woken: Vec<Waker> = Vec::new();
    let mut sem = Semaphore::new(0);
    let first = mock_task();
    let second = mock_task();
    let mut a = sem.acquire(2);
    let mut b = sem.acquire(1);
    assert!(sem.poll_acquire(&mut a, waker_of(&first), &mut woken).is_none());
    assert!(sem.poll_acquire(&mut b, waker_of(&second), &mut woken).is_none());

    sem.add_permits(1, &mut woken);
    // the oldest waiter is not covered: nobody is woken
    assert!(woken.is_empty());
    assert_eq!(wakes(&first), 0);
    assert_eq!(wakes(&second), 0);

    sem.add_permits(2, &mut woken);
    // both are covered now, and their wakers come back oldest first
    assert_eq!(woken.len(), 2);
    woken.remove(0).wake();
    assert_eq!(wakes(&first), 1);
    assert_eq!(wakes(&second), 0);
    wake_all(&mut woken);
    assert_eq!(wakes(&second), 1);

    let pa = sem.poll_acquire(&mut a, waker_of(&first), &mut woken).unwrap();
    assert_eq!(pa.count(), 2);
    let pb = sem.poll_acquire(&mut b, waker_of(&second), &mut woken).unwrap();
    assert_eq!(pb.count(), 1);
    assert_eq!(sem.permits(), 0);
}

#[test]
fn cancelled_waiter_leaves_queue() {
    let mut woken: Vec<Waker> = Vec::new();
    let mut sem = Semaphore::new(1);
    let task = mock_task();
    let other = mock_task();
    let mut big = sem.acquire(5);
    let mut small = sem.acquire(1);
    assert!(sem.poll_acquire(&mut big, waker_of(&task), &mut woken).is_none());
    assert!(sem.poll_acquire(&mut small, waker_of(&other), &mut woken).is_none());
    let key = match big.state {
        AcquireState::Waiting(k) => k,
        _ => panic!("the request should be queued"),
    };
    sem.cancel(big, &mut woken);
    assert!(!sem.is_queued(key));
    // the waiter behind is now covered and woken
    wake_all(&mut woken);
    assert_eq!(wakes(&other), 1);
    assert_eq!(sem.poll_acquire(&mut small, waker_of(&other), &mut woken).unwrap().count(), 1);
}

#[test]
fn forgotten_permit_gives_nothing_back() {
    let mut woken: Vec<Waker> = Vec::new();
    let mut sem = Semaphore::new(3);
    let mut p = sem.try_acquire(2).unwrap();
    p.forget();
    assert_eq!(p.count(), 0);
    sem.release(p, &mut woken);
    assert_eq!(sem.permits(), 1);
}

#[test]
fn mutex_permit_excludes_second_holder() {
    let mut woken: Vec<Waker> = Vec::new();
    let mut sem = Semaphore::new(1);
    let held = sem.try_acquire(1).unwrap();
    assert!(sem.try_acquire(1).is_none());
    sem.release(held, &mut woken);
    assert!(sem.try_acquire(1).is_some());
}

#[test]
fn rwlock_readers_keep_writer_out() {
    let mut woken: Vec<Waker> = Vec::new();
    let mut sem = Semaphore::new(usize::MAX);
    let reader = sem.try_acquire(1).unwrap();
    assert!(sem.try_acquire(usize::MAX).is_none());
    sem.release(reader, &mut woken);
    let writer = sem.try_acquire(usize::MAX).unwrap();
    assert!(sem.try_acquire(1).is_none());
    sem.release(writer, &mut woken);
    assert_eq!(sem.permits(), usize::MAX);
}

#[test]
fn permits_come_back_after_many_cycles() {
    let mut woken: Vec<Waker> = Vec::new();
    let mut sem = Semaphore::new(5);
    let task = mock_task();
    for _ in 0..1000 {
        let mut a = sem.acquire(1);
        let p = sem.poll_acquire(&mut a, waker_of(&task), &mut woken).unwrap();
        sem.release(p, &mut woken);
    }
    let mut held = Vec::new();
    for _ in 0..5 {
        held.push(sem.try_acquire(1).unwrap());
    }
    assert!(sem.try_acquire(1).is_none());
    // a forgotten permit never comes back
    let mut lost = held.pop().unwrap();
    lost.forget();
    sem.release(lost, &mut woken);
    for p in held {
        sem.release(p, &mut woken);
    }
    assert_eq!(sem.permits(), 4);
}
