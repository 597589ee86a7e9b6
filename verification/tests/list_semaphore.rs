use platoon::sync::list_semaphore::{AcquireStage, Semaphore};

use std::sync::atomic::AtomicUsize;
use std::sync::Arc;
use std::task::{Wake, Waker};

struct MockTask {
    wakes: AtomicUsize,
}

impl Wake for MockTask {
    fn wake(self: Arc<Self>) {
        self.wake_by_ref();
    }

    fn wake_by_ref(self: &Arc<Self>) {
        self.wakes.fetch_add(1, std::sync::atomic::Ordering::SeqCst);
    }
}

fn mock_task() -> Arc<MockTask> {
    Arc::new(MockTask { wakes: AtomicUsize::new(0) })
}

fn waker_of(task: &Arc<MockTask>) -> Waker {
    Waker::from(task.clone())
}

fn wake_all(woken: &mut Vec<Waker>) {
    for waker in woken.drain(..) {
        waker.wake();
    }
}

fn wakes(task: &Arc<MockTask>) -> usize {
    task.wakes.load(std::sync::atomic::Ordering::SeqCst)
}

#[test]
fn immediate_acquire_completes() {
    let mut woken: Vec<Waker> = Vec::new();
    let mut sem = Semaphore::new(5);
    let t = mock_task();
    let mut a = sem.acquire(3);
    let p = sem.poll_acquire(&mut a, waker_of(&t), &mut woken).unwrap();
    assert_eq!(p.count(), 3);
    assert!(matches!(a.stage, AcquireStage::Done));
    assert_eq!(sem.permits(), 2);
    sem.release(p, &mut woken);
    assert_eq!(sem.permits(), 5);
}

#[test]
fn only_the_oldest_waiter_is_notified() {
    let mut woken: Vec<Waker> = Vec::new();
    let mut sem = Semaphore::new(0);
    let old = mock_task();
    let new = mock_task();
    let mut a = sem.acquire(1);
    let mut b = sem.acquire(1);
    assert!(sem.poll_acquire(&mut a, waker_of(&old), &mut woken).is_none());
    assert!(sem.poll_acquire(&mut b, waker_of(&new), &mut woken).is_none());

    // enough for both, but only the oldest is notified
    sem.add_permits(2, &mut woken);
    wake_all(&mut woken);
    assert_eq!(wakes(&old), 1);
    wake_all(&mut woken);
    assert_eq!(wakes(&new), 0);
    // the newer waiter is not served before the oldest
    assert!(sem.poll_acquire(&mut b, waker_of(&new), &mut woken).is_none());

    // the oldest takes its permit, which passes the notification on
    assert_eq!(sem.poll_acquire(&mut a, waker_of(&old), &mut woken).unwrap().count(), 1);
    wake_all(&mut woken);
    assert_eq!(wakes(&new), 1);
    assert_eq!(sem.poll_acquire(&mut b, waker_of(&new), &mut woken).unwrap().count(), 1);
    assert_eq!(sem.permits(), 0);
}

#[test]
fn uncovered_oldest_waiter_is_not_notified() {
    let mut woken: Vec<Waker> = Vec::new();
    let mut sem = Semaphore::new(1);
    let t = mock_task();
    let mut a = sem.acquire(3);
    assert!(sem.poll_acquire(&mut a, waker_of(&t), &mut woken).is_none());
    sem.add_permits(1, &mut woken);
    wake_all(&mut woken);
    assert_eq!(wakes(&t), 0);
    // waiters are queued: no barging
    assert!(sem.try_acquire(1).is_none());
    sem.add_permits(1, &mut woken);
    wake_all(&mut woken);
    assert_eq!(wakes(&t), 1);
    // adding more does not notify it twice
    sem.add_permits(1, &mut woken);
    wake_all(&mut woken);
    assert_eq!(wakes(&t), 1);
    assert_eq!(sem.poll_acquire(&mut a, waker_of(&t), &mut woken).unwrap().count(), 3);
    assert_eq!(sem.permits(), 1);
}

#[test]
fn forgotten_list_permit_gives_nothing_back() {
    let mut woken: Vec<Waker> = Vec::new();
    let mut sem = Semaphore::new(2);
    let mut p = sem.try_acquire(2).unwrap();
    p.forget();
    sem.release(p, &mut woken);
    assert_eq!(sem.permits(), 0);
    assert_eq!(sem.try_acquire(0).unwrap().count(), 0);
}
