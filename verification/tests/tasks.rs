use platoon::executor::{InnerTask, RunState};
use platoon::raw_task::{Dropped, RawTask, RunStart, WakeByRef};
use platoon::runtime::executor::{State, TaskRepr as ExecutorTask};
use platoon::task::{yield_now, TaskRepr, YieldPoll};

use std::sync::atomic::AtomicUsize;
use std::sync::Arc;
use std::task::{Wake, Waker};

struct MockTask {
    wakes: AtomicUsize,
}

impl Wake for MockTask {
    fn wake(self: Arc<Self>) {
        self.wake_by_ref();
    }

    fn wake_by_ref(self: &Arc<Self>) {
        self.wakes.fetch_add(1, std::sync::atomic::Ordering::SeqCst);
    }
}

fn mock_task() -> Arc<MockTask> {
    Arc::new(MockTask { wakes: AtomicUsize::new(0) })
}

fn waker_of(task: &Arc<MockTask>) -> Waker {
    Waker::from(task.clone())
}

fn wakes(task: &Arc<MockTask>) -> usize {
    task.wakes.load(std::sync::atomic::Ordering::SeqCst)
}

// The task life cycle of the runtime.

#[test]
fn spawned_task_runs_and_hands_out_output_once() {
    let joiner = mock_task();
    let mut task: TaskRepr<&str, u32> = TaskRepr::spawn("future");
    assert_eq!(task.poll_output(waker_of(&joiner)), None);
    let future = task.start_run().unwrap();
    assert_eq!(future, "future");
    let awaiter = task.finish_run(future, Some(1));
    assert!(awaiter.is_some());
    awaiter.unwrap().wake();
    assert_eq!(wakes(&joiner), 1);
    assert_eq!(task.poll_output(waker_of(&joiner)), Some(1));
    assert_eq!(task.cancel(), None);
}

#[test]
fn cancel_before_run_gives_nothing() {
    let mut task: TaskRepr<(), u32> = TaskRepr::spawn(());
    assert_eq!(task.cancel(), None);
    // the run that finds it cancelled does not poll it
    assert!(task.start_run().is_none());
}

#[test]
fn cancel_after_completion_gives_output() {
    let mut task: TaskRepr<(), u32> = TaskRepr::spawn(());
    let future = task.start_run().unwrap();
    assert!(task.finish_run(future, Some(1)).is_none());
    assert_eq!(task.cancel(), Some(1));
}

#[test]
fn wake_schedules_once() {
    let mut task: TaskRepr<(), u32> = TaskRepr::spawn(());
    // spawned tasks are already scheduled
    assert!(!task.wake());
    let future = task.start_run().unwrap();
    // woken while running: scheduled again, once
    assert!(task.wake());
    assert!(!task.wake());
    assert!(task.finish_run(future, None).is_none());
    assert!(task.wake());
    assert!(!task.wake());
}

#[test]
fn finished_task_is_not_scheduled() {
    let mut task: TaskRepr<(), u32> = TaskRepr::spawn(());
    let future = task.start_run().unwrap();
    task.finish_run(future, Some(5));
    assert!(!task.wake());
}

#[test]
fn yield_now_yields_once() {
    let mut y = yield_now();
    assert_eq!(y.poll(), YieldPoll::WakeAndWait);
    assert_eq!(y.poll(), YieldPoll::Ready);
    assert_eq!(y.poll(), YieldPoll::Ready);
}

// The task whose state is one word.

#[test]
fn raw_task_spawn_run_complete_join() {
    let joiner = mock_task();
    let mut task: RawTask<(), u32> = RawTask::spawn(());
    assert_eq!(task.references(), 1);
    assert!(task.is_polling());
    // the join handle polls before the task ran
    assert_eq!(task.join_poll(waker_of(&joiner)).0, None);
    let snapshot = match task.run_start() {
        RunStart::Poll { snapshot } => snapshot,
        RunStart::Closed(_) => panic!("a new task is not closed"),
    };
    assert!(task.future_mut().is_some());
    let end = task.run_finish(snapshot, Some(9));
    assert!(!end.reschedule);
    assert!(!end.destroy);
    end.awaiter.unwrap().wake();
    assert_eq!(wakes(&joiner), 1);
    assert_eq!(task.references(), 0);
    assert_eq!(task.join_poll(waker_of(&joiner)).0, Some(Some(9)));
    assert_eq!(task.join_poll(waker_of(&joiner)).0, Some(None));
}

#[test]
fn raw_task_wakes_through_references() {
    let mut task: RawTask<(), u32> = RawTask::spawn(());
    let snapshot = match task.run_start() {
        RunStart::Poll { snapshot } => snapshot,
        RunStart::Closed(_) => panic!("a new task is not closed"),
    };
    // a waker is made during the poll
    assert!(task.clone_waker());
    assert_eq!(task.references(), 2);
    let end = task.run_finish(snapshot, None);
    assert!(!end.destroy);
    assert_eq!(task.references(), 1);
    // the waker wakes the task: it is queued with a reference of its own
    assert_eq!(task.wake_by_ref(), WakeByRef::Schedule);
    assert_eq!(task.references(), 2);
    // already queued: nothing more
    assert_eq!(task.wake_by_ref(), WakeByRef::Nothing);
    assert_eq!(task.wake(), Dropped::Keep);
    assert_eq!(task.references(), 2);
}

#[test]
fn raw_task_clone_then_drop_restores() {
    let mut task: RawTask<(), u32> = RawTask::spawn(());
    assert!(task.clone_waker());
    assert_eq!(task.references(), 2);
    assert_eq!(task.drop_waker(), Dropped::Keep);
    assert_eq!(task.references(), 1);
}

#[test]
fn raw_task_finished_is_not_queued() {
    let mut task: RawTask<(), u32> = RawTask::spawn(());
    let snapshot = match task.run_start() {
        RunStart::Poll { snapshot } => snapshot,
        RunStart::Closed(_) => panic!("a new task is not closed"),
    };
    task.run_finish(snapshot, Some(1));
    assert_eq!(task.references(), 0);
    assert_eq!(task.wake_by_ref(), WakeByRef::Nothing);
    assert_eq!(task.references(), 0);
}

#[test]
fn raw_task_panicked_poll_closes() {
    let joiner = mock_task();
    let mut task: RawTask<(), u32> = RawTask::spawn(());
    assert_eq!(task.join_poll(waker_of(&joiner)).0, None);
    match task.run_start() {
        RunStart::Poll { .. } => {}
        RunStart::Closed(_) => panic!("a new task is not closed"),
    }
    let released = task.run_panicked();
    assert!(!released.destroy);
    assert!(released.awaiter.is_some());
    assert!(!task.is_polling());
    assert_eq!(task.references(), 0);
    assert_eq!(task.join_poll(waker_of(&joiner)).0, Some(None));
}

// The task of the simple executor.

#[test]
fn inner_task_wake_states() {
    let mut task: InnerTask<(), u8> = InnerTask::new(());
    assert_eq!(task.run_state(), RunState::Waiting);
    assert!(task.wake());
    assert_eq!(task.run_state(), RunState::Polling);
    assert!(!task.wake());
    assert_eq!(task.run_state(), RunState::Repoll);
    assert!(!task.wake());
}

#[test]
fn inner_task_completes_and_joins() {
    let joiner = mock_task();
    let mut task: InnerTask<u8, u8> = InnerTask::new(3);
    assert_eq!(task.join(waker_of(&joiner)), None);
    assert_eq!(*task.begin_poll(), 3);
    assert!(task.end_poll(None).is_none());
    assert_eq!(task.run_state(), RunState::Waiting);
    task.begin_poll();
    let waiter = task.end_poll(Some(4)).unwrap();
    waiter.wake();
    assert_eq!(wakes(&joiner), 1);
    assert_eq!(task.run_state(), RunState::Complete);
    assert!(!task.wake());
    assert_eq!(task.join(waker_of(&joiner)), Some(4));
}

// The task of the runtime's executor.

#[test]
fn executor_task_runs_to_completion() {
    let joiner = mock_task();
    let mut task: ExecutorTask<u8, u8> = ExecutorTask::spawn(1);
    assert_eq!(task.current_state(), State::Scheduled);
    assert!(!task.wake());
    assert_eq!(task.poll_output(waker_of(&joiner)), None);
    assert_eq!(*task.begin_run().unwrap(), 1);
    assert_eq!(task.current_state(), State::Idle);
    assert!(task.end_run(None).is_none());
    assert!(task.wake());
    assert!(!task.wake());
    task.begin_run();
    let awaiter = task.end_run(Some(2)).unwrap();
    awaiter.wake();
    assert_eq!(wakes(&joiner), 1);
    assert_eq!(task.current_state(), State::Done);
    assert!(!task.wake());
    assert_eq!(task.poll_output(waker_of(&joiner)), Some(2));
    assert_eq!(task.cancel(), None);
}

#[test]
fn executor_task_cancel_returns_finished_output() {
    let mut task: ExecutorTask<u8, u8> = ExecutorTask::spawn(1);
    task.begin_run();
    task.end_run(Some(7));
    assert_eq!(task.cancel(), Some(7));
    assert!(task.begin_run().is_none());
}

#[test]
fn executor_task_cancel_before_completion() {
    let mut task: ExecutorTask<u8, u8> = ExecutorTask::spawn(1);
    assert_eq!(task.cancel(), None);
    assert!(task.begin_run().is_none());
}

#[test]
fn task_stage_queries() {
    let mut task: TaskRepr<(), u32> = TaskRepr::spawn(());
    assert!(task.is_runnable());
    assert!(!task.is_finished());
    let future = task.start_run().unwrap();
    assert!(!task.is_runnable());
    task.finish_run(future, Some(3));
    assert!(task.is_finished());
    assert!(!task.is_taken());
    assert_eq!(task.cancel(), Some(3));
    assert!(task.is_taken());
    assert!(task.is_runnable());
}
