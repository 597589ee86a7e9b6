//! A task of the runtime's executor: scheduled when spawned and each time
//! it is woken while idle, polled from the run queue until its future
//! completes, and holding its output until the join handle takes it or the
//! task is cancelled.
use vstd::prelude::*;
use std::task::Waker;

verus! {

/// Whether a task is in the run queue, waiting for a wake-up, or done.
#[derive(Clone, Copy, Debug, PartialEq, Eq, Structural)]
pub enum State {
    Scheduled,
    Idle,
    Done,
}

/// What a task holds: its future, its output, or neither once the output
/// was taken.
pub enum Payload<F, O> {
    Future(F),
    Output(O),
    Taken,
}

impl<F, O> Payload<F, O> {
    /// Takes the payload out, leaving `Taken` in its place.
    pub fn take(&mut self) -> (taken: Self)
        ensures
            taken == *old(self),
            *final(self) == Payload::<F, O>::Taken,
    {
        let mut taken = Payload::Taken;
        std::mem::swap(self, &mut taken);
        taken
    }
}

/// What the life cycle reads of a payload.
pub enum PayloadView<O> {
    Future,
    Output(O),
    Taken,
}

/// What a wake-up does to a task: the new state, and whether the task is
/// to be pushed onto the run queue.
pub open spec fn woken(state: State) -> (State, bool) {
    match state {
        State::Idle => (State::Scheduled, true),
        _ => (state, false),
    }
}

/// What polling the join handle gives, and the payload after it: the
/// output when there is one (which takes it), `None` while the future runs.
pub open spec fn polled_output<O>(p: PayloadView<O>) -> (Option<O>, PayloadView<O>) {
    match p {
        PayloadView::Output(o) => (Some(o), PayloadView::Taken),
        _ => (None, p),
    }
}

/// What cancelling gives (the output, if the task completed and it was not
/// taken), and the payload after it.
pub open spec fn cancelled<O>(p: PayloadView<O>) -> (Option<O>, PayloadView<O>) {
    (
        match p {
            PayloadView::Output(o) => Some(o),
            _ => None,
        },
        PayloadView::Taken,
    )
}

/// A task: its state, the waker of the task awaiting its output, and its
/// payload.
pub struct TaskRepr<F, O> {
    state: State,
    awaiter: Option<Waker>,
    payload: Payload<F, O>,
}

impl<F, O> TaskRepr<F, O> {
    /// The task's state.
    pub closed spec fn state(&self) -> State {
        self.state
    }

    /// What the task holds.
    pub closed spec fn payload(&self) -> PayloadView<O> {
        match self.payload {
            Payload::Future(_) => PayloadView::Future,
            Payload::Output(o) => PayloadView::Output(o),
            Payload::Taken => PayloadView::Taken,
        }
    }

    /// Whether a task awaits the output.
    pub closed spec fn awaited(&self) -> bool {
        self.awaiter is Some
    }

    /// The waker of the task awaiting the output.
    pub closed spec fn waiter(&self) -> Option<Waker> {
        self.awaiter
    }

    /// A task for `future`, scheduled to be polled.
    pub fn spawn(future: F) -> (task: Self)
        ensures
            task.state() == State::Scheduled,
            task.payload() == PayloadView::<O>::Future,
            !task.awaited(),
    {
        TaskRepr { state: State::Scheduled, awaiter: None, payload: Payload::Future(future) }
    }

    /// The task's state.
    pub fn current_state(&self) -> (s: State)
        ensures
            s == self.state(),
    {
        self.state
    }

    /// Polls for the output on behalf of the join handle, whose task's
    /// waker is `waker`: takes the output once the future completed;
    /// otherwise keeps the waker, to be woken on completion. The join handle
    /// is not polled again after it took the output.
    pub fn poll_output(&mut self, waker: Waker) -> (output: Option<O>)
        requires
            !(old(self).payload() is Taken),
        ensures
            (output, final(self).payload()) == polled_output(old(self).payload()),
            final(self).state() == old(self).state(),
            final(self).awaited() == (old(self).awaited() || old(self).payload() is Future),
            old(self).payload() is Future ==> final(self).waiter() == Some(waker),
            !(old(self).payload() is Future) ==> final(self).waiter() == old(self).waiter(),
    {
        match self.payload.take() {
            Payload::Output(val) => Some(val),
            other => {
                self.payload = other;
                self.awaiter = Some(waker);
                None
            },
        }
    }

    /// Starts a run of the task taken from the run queue: it becomes idle,
    /// and its future, if it still has one, is handed out to be polled.
    pub fn begin_run(&mut self) -> (future: Option<&mut F>)
        ensures
            future is Some == (old(self).payload() is Future),
            final(self).state() == State::Idle,
            final(self).payload() == old(self).payload(),
            final(self).awaited() == old(self).awaited(),
    {
        self.state = State::Idle;
        match &mut self.payload {
            Payload::Future(f) => Some(f),
            _ => None,
        }
    }

    /// Ends a run, given what polling the future gave (`Some` when it
    /// completed): a completed task keeps its output, is done, and hands back
    /// the waker of the task awaiting it, to be woken.
    pub fn end_run(&mut self, output: Option<O>) -> (awaiter: Option<Waker>)
        requires
            old(self).payload() is Future,
        ensures
            match output {
                Some(o) => {
                    &&& final(self).state() == State::Done
                    &&& final(self).payload() == PayloadView::Output(o)
                    &&& !final(self).awaited()
                    &&& awaiter == old(self).waiter()
                },
                None => {
                    &&& final(self).state() == old(self).state()
                    &&& final(self).payload() == old(self).payload()
                    &&& final(self).awaited() == old(self).awaited()
                    &&& awaiter is None
                },
            },
    {
        match output {
            Some(val) => {
                self.payload = Payload::Output(val);
                self.state = State::Done;
                self.awaiter.take()
            },
            None => None,
        }
    }

    /// Cancels the task: drops its future or output, and gives back the
    /// output if the task completed and it was not taken.
    pub fn cancel(&mut self) -> (output: Option<O>)
        ensures
            (output, final(self).payload()) == cancelled(old(self).payload()),
            final(self).state() == old(self).state(),
            final(self).awaited() == old(self).awaited(),
    {
        match self.payload.take() {
            Payload::Output(val) => Some(val),
            _ => None,
        }
    }

    /// Wakes the task; returns whether it is to be pushed onto the run
    /// queue.
    pub fn wake(&mut self) -> (push: bool)
        ensures
            (final(self).state(), push) == woken(old(self).state()),
            final(self).payload() == old(self).payload(),
            final(self).awaited() == old(self).awaited(),
    {
        match self.state {
            State::Idle => {
                self.state = State::Scheduled;
                true
            },
            _ => false,
        }
    }
}

/// A task is queued at most once per run: a wake-up of a scheduled or done
/// task does nothing, and only an idle task is queued.
pub proof fn law_queued_once(state: State)
    ensures
        woken(woken(state).0).1 == false,
        woken(state).1 == (state == State::Idle),
        state == State::Done ==> woken(state) == (State::Done, false),
{
}

/// The output is handed out once: after the join handle took it, cancelling
/// gives nothing back; after cancelling, the join handle finds no output.
pub proof fn law_output_handed_out_once<O>(o: O)
    ensures
        polled_output(PayloadView::Output(o)) == (Some(o), PayloadView::<O>::Taken),
        cancelled(polled_output(PayloadView::Output(o)).1).0 == None::<O>,
        cancelled(PayloadView::Output(o)) == (Some(o), PayloadView::<O>::Taken),
{
}

} // verus!
