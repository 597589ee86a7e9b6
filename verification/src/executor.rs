//! A task of the simple executor: its future is polled from the run queue
//! until it completes, and its output is handed to its join handle.
use vstd::prelude::*;
use std::task::Waker;

verus! {

/// Where a task of the executor stands.
#[derive(Clone, Copy, Debug, PartialEq, Eq, Structural)]
pub enum RunState {
    /// Waiting for a wake-up (or, right after spawning, in the run queue).
    Waiting,
    /// Queued by a wake-up, or being polled.
    Polling,
    /// Woken while being polled.
    Repoll,
    /// Its future completed.
    Complete,
}

/// What a wake-up does to a task: the new state, and whether the task is
/// to be pushed onto the run queue.
pub open spec fn woken(state: RunState) -> (RunState, bool) {
    match state {
        RunState::Waiting => (RunState::Polling, true),
        RunState::Polling => (RunState::Repoll, false),
        _ => (state, false),
    }
}

/// A task: its future, its state, its output once complete, and the waker
/// of the task awaiting it.
pub struct InnerTask<F, O> {
    future: F,
    state: RunState,
    value: Option<O>,
    waiter: Option<Waker>,
}

impl<F, O> InnerTask<F, O> {
    /// The task's state.
    pub closed spec fn state(&self) -> RunState {
        self.state
    }

    /// The output, kept until the join handle takes it.
    pub closed spec fn value(&self) -> Option<O> {
        self.value
    }

    /// Whether a task awaits the output.
    pub closed spec fn awaited(&self) -> bool {
        self.waiter is Some
    }

    /// The waker of the task awaiting the output.
    pub closed spec fn waiter(&self) -> Option<Waker> {
        self.waiter
    }

    /// The future.
    pub closed spec fn future(&self) -> F {
        self.future
    }

    /// A complete task holds its output until it is taken, and only a
    /// complete task holds one.
    pub closed spec fn wf(&self) -> bool {
        self.value is Some ==> self.state == RunState::Complete
    }

    /// A task for `future`, to be pushed onto the run queue.
    pub fn new(future: F) -> (task: Self)
        ensures
            task.wf(),
            task.state() == RunState::Waiting,
            task.value() is None,
            !task.awaited(),
            task.future() == future,
    {
        InnerTask { future, state: RunState::Waiting, value: None, waiter: None }
    }

    /// The task's state.
    pub fn run_state(&self) -> (s: RunState)
        ensures
            s == self.state(),
    {
        self.state
    }

    /// Starts polling the task taken from the run queue; returns its future.
    pub fn begin_poll(&mut self) -> (future: &mut F)
        requires
            old(self).wf(),
            old(self).state() != RunState::Complete,
        ensures
            *future == old(self).future(),
            final(self).future() == *final(future),
            final(self).wf(),
            final(self).state() == RunState::Polling,
            final(self).value() == old(self).value(),
            final(self).awaited() == old(self).awaited(),
    {
        self.state = RunState::Polling;
        &mut self.future
    }

    /// Ends a poll, given what polling the future gave (`Some` when it
    /// completed). A completed task keeps its output and hands back the
    /// waker of the task awaiting it, to be woken; otherwise the task waits
    /// for its next wake-up.
    pub fn end_poll(&mut self, output: Option<O>) -> (waiter: Option<Waker>)
        requires
            old(self).wf(),
            old(self).state() != RunState::Complete,
        ensures
            final(self).wf(),
            final(self).future() == old(self).future(),
            match output {
                Some(o) => {
                    &&& final(self).state() == RunState::Complete
                    &&& final(self).value() == Some(o)
                    &&& !final(self).awaited()
                    &&& waiter == old(self).waiter()
                },
                None => {
                    &&& final(self).state() == RunState::Waiting
                    &&& final(self).value() == old(self).value()
                    &&& final(self).awaited() == old(self).awaited()
                    &&& waiter is None
                },
            },
    {
        match output {
            Some(val) => {
                self.value = Some(val);
                self.state = RunState::Complete;
                self.waiter.take()
            },
            None => {
                self.state = RunState::Waiting;
                None
            },
        }
    }

    /// Wakes the task; returns whether it is to be pushed onto the run
    /// queue.
    pub fn wake(&mut self) -> (push: bool)
        requires
            old(self).wf(),
        ensures
            final(self).wf(),
            (final(self).state(), push) == woken(old(self).state()),
            final(self).value() == old(self).value(),
            final(self).awaited() == old(self).awaited(),
            final(self).future() == old(self).future(),
    {
        match self.state {
            RunState::Waiting => {
                self.state = RunState::Polling;
                true
            },
            RunState::Polling => {
                self.state = RunState::Repoll;
                false
            },
            _ => false,
        }
    }

    /// Polls for the output on behalf of the join handle, whose task's
    /// waker is `waker`: the output once the task is complete; otherwise
    /// `None`, and the waker is kept (in place of any earlier one) to be woken
    /// on completion.
    pub fn join(&mut self, waker: Waker) -> (output: Option<O>)
        requires
            old(self).wf(),
        ensures
            final(self).wf(),
            final(self).state() == old(self).state(),
            final(self).future() == old(self).future(),
            if old(self).state() == RunState::Complete {
                &&& output == old(self).value()
                &&& final(self).value() is None
                &&& final(self).waiter() == old(self).waiter()
            } else {
                &&& output is None
                &&& final(self).value() == old(self).value()
                &&& final(self).waiter() == Some(waker)
            },
    {
        match self.state {
            RunState::Complete => self.value.take(),
            _ => {
                self.waiter = Some(waker);
                None
            },
        }
    }
}

/// A wake-up queues a waiting task once: a second wake-up before it is
/// polled does not queue it again, and a complete task is never queued.
pub proof fn law_woken_task_queued_once(state: RunState)
    ensures
        woken(state).1 ==> !woken(woken(state).0).1,
        state == RunState::Complete ==> woken(state) == (RunState::Complete, false),
{
}

} // verus!
