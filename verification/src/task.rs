//! The life cycle of a spawned task.
//!
//! A task is polled by the runtime while it is scheduled; it is scheduled
//! when spawned and each time it is woken after a poll. Its output, once it
//! completes, is taken once: by awaiting its join handle or by cancelling
//! it.
use vstd::prelude::*;
use std::task::Waker;

verus! {

/// Where a task stands.
pub enum Stage<F, O> {
    /// Waiting to be polled; `scheduled` when it is in the run queue.
    Polling { future: F, scheduled: bool },
    /// Being polled; `rescheduled` when it was woken meanwhile.
    Running { rescheduled: bool },
    /// Completed, with its output not yet taken.
    Complete(O),
    /// Its output was taken, or it was cancelled.
    Took,
}

/// What the life cycle reads of a stage.
pub enum StageView<O> {
    Polling { scheduled: bool },
    Running { rescheduled: bool },
    Complete(O),
    Took,
}

/// The state of a task.
pub struct TaskView<O> {
    pub stage: StageView<O>,
    /// A task awaits the output.
    pub awaited: bool,
}

/// The state after the task is woken, and whether it must be pushed onto
/// the run queue.
pub open spec fn after_wake<O>(v: TaskView<O>) -> (TaskView<O>, bool) {
    match v.stage {
        StageView::Polling { scheduled: false } => (
            TaskView { stage: StageView::Polling { scheduled: true }, ..v },
            true,
        ),
        StageView::Running { rescheduled: false } => (
            TaskView { stage: StageView::Running { rescheduled: true }, ..v },
            true,
        ),
        _ => (v, false),
    }
}

/// The state after the task is cancelled, and the output it gives back.
pub open spec fn after_cancel<O>(v: TaskView<O>) -> (TaskView<O>, Option<O>) {
    (
        TaskView { stage: StageView::Took, ..v },
        match v.stage {
            StageView::Complete(o) => Some(o),
            _ => None,
        },
    )
}

/// The state after its join handle polls the task, and the output taken.
pub open spec fn after_poll_output<O>(v: TaskView<O>) -> (TaskView<O>, Option<O>) {
    match v.stage {
        StageView::Complete(o) => (TaskView { stage: StageView::Took, ..v }, Some(o)),
        _ => (TaskView { awaited: true, ..v }, None),
    }
}

/// A spawned task: its stage, and the waker of the task awaiting it.
pub struct TaskRepr<F, O> {
    awaiter: Option<Waker>,
    state: Stage<F, O>,
}

impl<F, O> TaskRepr<F, O> {
    pub closed spec fn view(&self) -> TaskView<O> {
        TaskView {
            stage: match self.state {
                Stage::Polling { scheduled, .. } => StageView::Polling { scheduled },
                Stage::Running { rescheduled } => StageView::Running { rescheduled },
                Stage::Complete(o) => StageView::Complete(o),
                Stage::Took => StageView::Took,
            },
            awaited: self.awaiter is Some,
        }
    }

    /// The waker of the task awaiting the output.
    pub closed spec fn awaiter(&self) -> Option<Waker> {
        self.awaiter
    }

    /// The future, while the task is waiting to be polled.
    pub closed spec fn future(&self) -> Option<F> {
        match self.state {
            Stage::Polling { future, .. } => Some(future),
            _ => None,
        }
    }

    /// Puts `state` in place of the stage and returns the stage that was.
    fn replace_state(&mut self, state: Stage<F, O>) -> (previous: Stage<F, O>)
        ensures
            previous == old(self).state,
            final(self).state == state,
            final(self).awaiter == old(self).awaiter,
    {
        let mut state = state;
        std::mem::swap(&mut self.state, &mut state);
        state
    }

    /// A task for `future`, scheduled to be polled.
    pub fn spawn(future: F) -> (task: Self)
        ensures
            task.view() == (TaskView::<O> {
                stage: StageView::Polling { scheduled: true },
                awaited: false,
            }),
            task.future() == Some(future),
    {
        TaskRepr { awaiter: None, state: Stage::Polling { future, scheduled: true } }
    }

    /// Whether a run of the task can start: it is waiting to be polled, or
    /// was cancelled.
    pub fn is_runnable(&self) -> (r: bool)
        ensures
            r == (self.view().stage is Polling || self.view().stage is Took),
    {
        match self.state {
            Stage::Polling { .. } | Stage::Took => true,
            _ => false,
        }
    }

    /// Whether a run of the task is under way.
    pub fn is_running(&self) -> (r: bool)
        ensures
            r == (self.view().stage is Running),
    {
        match self.state {
            Stage::Running { .. } => true,
            _ => false,
        }
    }

    /// Whether the task completed or was cancelled.
    pub fn is_finished(&self) -> (r: bool)
        ensures
            r == (self.view().stage is Complete || self.view().stage is Took),
    {
        match self.state {
            Stage::Complete(_) | Stage::Took => true,
            _ => false,
        }
    }

    /// Whether the output was taken, or the task cancelled.
    pub fn is_taken(&self) -> (r: bool)
        ensures
            r == (self.view().stage is Took),
    {
        match self.state {
            Stage::Took => true,
            _ => false,
        }
    }

    /// Starts a run of the task: hands out the future to poll, or `None`
    /// when the task was cancelled meanwhile.
    pub fn start_run(&mut self) -> (future: Option<F>)
        requires
            old(self).view().stage is Polling || old(self).view().stage is Took,
        ensures
            future == old(self).future(),
            future is Some <==> old(self).view().stage is Polling,
            final(self).awaiter() == old(self).awaiter(),
            final(self).view() == (if future is Some {
                TaskView::<O> { stage: StageView::Running { rescheduled: false }, ..old(self).view() }
            } else {
                old(self).view()
            }),
    {
        let state = self.replace_state(Stage::Running { rescheduled: false });
        match state {
            Stage::Polling { future, .. } => Some(future),
            _ => {
                self.state = Stage::Took;
                None
            },
        }
    }

    /// Ends a run, given the future and what polling it gave: a completed
    /// task keeps its output and hands back the waker of the task awaiting
    /// it, to be woken; a pending one waits for its next wake-up.
    pub fn finish_run(&mut self, future: F, output: Option<O>) -> (awaiter: Option<Waker>)
        requires
            old(self).view().stage is Running,
        ensures
            match output {
                Some(o) => {
                    &&& final(self).view() == (TaskView::<O> {
                        stage: StageView::Complete(o),
                        awaited: false,
                    })
                    &&& awaiter == old(self).awaiter()
                },
                None => {
                    &&& final(self).view() == (TaskView::<O> {
                        stage: StageView::Polling { scheduled: false },
                        ..old(self).view()
                    })
                    &&& final(self).future() == Some(future)
                    &&& final(self).awaiter() == old(self).awaiter()
                    &&& awaiter is None
                },
            },
    {
        match output {
            Some(val) => {
                self.state = Stage::Complete(val);
                self.awaiter.take()
            },
            None => {
                self.state = Stage::Polling { future, scheduled: false };
                None
            },
        }
    }

    /// Polls for the output on behalf of the task that `waker` wakes: the
    /// output once the task completed, and otherwise `None`, with `waker`
    /// kept (in place of any earlier one) to be woken on completion.
    pub fn poll_output(&mut self, waker: Waker) -> (output: Option<O>)
        requires
            !(old(self).view().stage is Took),
        ensures
            (final(self).view(), output) == after_poll_output(old(self).view()),
            output is None ==> final(self).future() == old(self).future(),
            output is None ==> final(self).awaiter() == Some(waker),
            output is Some ==> final(self).awaiter() == old(self).awaiter(),
    {
        match self.state {
            Stage::Complete(_) => {
                match self.replace_state(Stage::Took) {
                    Stage::Complete(val) => Some(val),
                    _ => None,
                }
            },
            _ => {
                self.awaiter = Some(waker);
                None
            },
        }
    }

    /// Cancels the task: its output is returned if it had completed.
    pub fn cancel(&mut self) -> (output: Option<O>)
        ensures
            (final(self).view(), output) == after_cancel(old(self).view()),
    {
        match self.replace_state(Stage::Took) {
            Stage::Complete(val) => Some(val),
            _ => None,
        }
    }

    /// Wakes the task: returns whether it must be pushed onto the run queue.
    pub fn wake(&mut self) -> (schedule: bool)
        ensures
            (final(self).view(), schedule) == after_wake(old(self).view()),
            final(self).future() == old(self).future(),
    {
        match &mut self.state {
            Stage::Polling { scheduled, .. } => {
                if !*scheduled {
                    *scheduled = true;
                    true
                } else {
                    false
                }
            },
            Stage::Running { rescheduled } => {
                if !*rescheduled {
                    *rescheduled = true;
                    true
                } else {
                    false
                }
            },
            _ => false,
        }
    }
}

/// What a poll of `yield_now`'s future decides.
#[derive(Debug, PartialEq, Eq)]
pub enum YieldPoll {
    /// The task has yielded: the future is ready.
    Ready,
    /// The task yields now: the caller wakes the task at once (so that it
    /// goes to the back of the run queue) and the poll waits.
    WakeAndWait,
}

/// What a poll of `yield_now`'s future decides, and whether the task has
/// yielded after it.
pub open spec fn yield_poll(yielded: bool) -> (YieldPoll, bool) {
    (if yielded { YieldPoll::Ready } else { YieldPoll::WakeAndWait }, true)
}

/// The future of `yield_now`: the first poll has the task woken at once and
/// waits, so that the task goes to the back of the run queue; the next poll
/// is ready.
pub struct YieldNow {
    yielded: bool,
}

impl YieldNow {
    /// Whether the task has yielded.
    pub closed spec fn has_yielded(&self) -> bool {
        self.yielded
    }

    /// A future that has not yielded yet.
    pub fn new() -> (y: YieldNow)
        ensures
            !y.has_yielded(),
    {
        YieldNow { yielded: false }
    }

    /// Polls the future: ready once the task has yielded; otherwise the
    /// task yields now, and the caller must wake it.
    pub fn poll(&mut self) -> (step: YieldPoll)
        ensures
            (step, final(self).has_yielded()) == yield_poll(old(self).has_yielded()),
    {
        if self.yielded {
            YieldPoll::Ready
        } else {
            self.yielded = true;
            YieldPoll::WakeAndWait
        }
    }
}

/// Yields execution back to the runtime.
pub fn yield_now() -> (y: YieldNow)
    ensures
        !y.has_yielded(),
{
    YieldNow::new()
}

// Laws of the task life cycle.

/// Waking a task that is already scheduled does not schedule it again: a
/// task is never queued twice for one wake-up.
pub proof fn law_wake_is_idempotent<O>(v: TaskView<O>)
    ensures
        !after_wake(after_wake(v).0).1,
        after_wake(after_wake(v).0).0 == after_wake(v).0,
{
}

/// A task that completed or was cancelled is never scheduled again.
pub proof fn law_finished_tasks_stay_unscheduled<O>(v: TaskView<O>)
    requires
        v.stage is Complete || v.stage is Took,
    ensures
        !after_wake(v).1,
        after_wake(v).0 == v,
{
}

/// The output of a task is handed out at most once: after the join handle
/// took it, cancelling gives nothing.
pub proof fn law_output_taken_once<O>(v: TaskView<O>)
    requires
        v.stage is Complete,
    ensures
        after_poll_output(v).1 == Some(v.stage->0),
        after_cancel(after_poll_output(v).0).1 is None,
{
}

/// Cancelling a task before it completes gives nothing back; cancelling a
/// completed task gives back its output.
pub proof fn law_cancel_returns_output_of_completed<O>(v: TaskView<O>)
    ensures
        after_cancel(v).1 is Some <==> v.stage is Complete,
        v.stage matches StageView::Complete(o) ==> after_cancel(v).1 == Some(o),
{
}

/// `yield_now` gives way exactly once: its first poll has the task woken
/// and waits, and the poll after it is ready, as is every later one.
pub proof fn law_yield_once()
    ensures
        yield_poll(false) == (YieldPoll::WakeAndWait, true),
        yield_poll(yield_poll(false).1) == (YieldPoll::Ready, true),
{
}

} // verus!
