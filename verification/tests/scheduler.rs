use platoon::runtime::{RunQueue, Scheduler, Step, POLLS_PER_TICK};

#[test]
fn main_future_is_polled_first() {
    let mut s = Scheduler::new();
    // block_on marks the main future as woken before its first iteration
    assert_eq!(s.next_step(true, true), Step::PollMain);
    assert_eq!(s.next_step(false, true), Step::RunTask);
}

#[test]
fn idle_loop_parks() {
    let mut s = Scheduler::new();
    assert_eq!(s.next_step(true, false), Step::PollMain);
    assert_eq!(s.next_step(false, false), Step::Park);
    // after parking, a new iteration without a wake-up goes on to the tasks
    assert_eq!(s.next_step(false, true), Step::RunTask);
}

#[test]
fn batch_of_tasks_then_io() {
    let mut s = Scheduler::new();
    assert_eq!(s.next_step(true, true), Step::PollMain);
    for _ in 0..POLLS_PER_TICK {
        assert_eq!(s.next_step(false, true), Step::RunTask);
    }
    assert_eq!(s.next_step(false, true), Step::ParkWithoutWaiting);
    assert_eq!(POLLS_PER_TICK, 61);
}

#[test]
fn woken_main_future_interrupts_batch() {
    let mut s = Scheduler::new();
    assert_eq!(s.next_step(true, true), Step::PollMain);
    assert_eq!(s.next_step(false, true), Step::RunTask);
    assert_eq!(s.next_step(true, true), Step::PollMain);
}

#[test]
fn run_queue_is_first_in_first_out() {
    let mut q = RunQueue::new();
    assert!(q.is_empty());
    assert_eq!(q.pop(), None);
    q.push(3);
    q.push(1);
    q.push(2);
    assert!(!q.is_empty());
    assert_eq!(q.pop(), Some(3));
    q.push(7);
    assert_eq!(q.pop(), Some(1));
    assert_eq!(q.pop(), Some(2));
    assert_eq!(q.pop(), Some(7));
    assert_eq!(q.pop(), None);
    assert!(q.is_empty());
}
