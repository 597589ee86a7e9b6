//! The decisions of the runtime's main loop.
//!
//! While blocking on a future, the runtime polls that future whenever it has
//! been woken, runs the tasks in its queue, and drives I/O and timers: it
//! parks until the next event when no task is left, and checks for events
//! without waiting after a batch of task polls, so that I/O is never starved
//! by busy tasks.
use vstd::prelude::*;
use std::collections::VecDeque;

pub mod executor;

verus! {

/// The number of tasks polled before I/O is checked.
pub const POLLS_PER_TICK: usize = 61;

/// What the main loop does next.
#[derive(Debug, PartialEq, Eq)]
pub enum Step {
    /// Poll the future that the runtime blocks on (after clearing its
    /// wake-up flag).
    PollMain,
    /// Run the first task of the queue.
    RunTask,
    /// Wait for the next I/O event or timer.
    Park,
    /// Collect I/O events and timers without waiting.
    ParkWithoutWaiting,
}

/// Where the main loop stands: at the top of an iteration, or `ran` task
/// polls into it.
pub struct Scheduler {
    fresh: bool,
    ran: usize,
}

/// The next step and where the loop then stands, given whether the main
/// future has been woken and whether a task is queued.
pub open spec fn decide(fresh: bool, ran: nat, woke_up: bool, has_task: bool) -> (Step, bool, nat) {
    let restart = fresh || (ran > 0 && woke_up);
    let ran0: nat = if restart { 0 } else { ran };
    if restart && woke_up {
        (Step::PollMain, false, 0)
    } else if ran0 == POLLS_PER_TICK {
        (Step::ParkWithoutWaiting, true, 0)
    } else if !has_task {
        (Step::Park, true, 0)
    } else {
        (Step::RunTask, false, ran0 + 1)
    }
}

impl Scheduler {
    pub closed spec fn is_fresh(&self) -> bool {
        self.fresh
    }

    /// The tasks run since the loop last polled the main future or checked
    /// for I/O.
    pub closed spec fn tasks_run(&self) -> nat {
        self.ran as nat
    }

    pub closed spec fn wf(&self) -> bool {
        self.ran <= POLLS_PER_TICK
    }

    /// The loop at the top of its first iteration.
    pub fn new() -> (s: Self)
        ensures
            s.wf(),
            s.is_fresh(),
            s.tasks_run() == 0,
    {
        Scheduler { fresh: true, ran: 0 }
    }

    /// Decides the next step, given whether the main future has been woken
    /// and whether a task is queued.
    pub fn next_step(&mut self, woke_up: bool, has_task: bool) -> (step: Step)
        requires
            old(self).wf(),
        ensures
            final(self).wf(),
            (step, final(self).is_fresh(), final(self).tasks_run()) == decide(
                old(self).is_fresh(),
                old(self).tasks_run(),
                woke_up,
                has_task,
            ),
    {
        if self.fresh || (self.ran > 0 && woke_up) {
            self.fresh = false;
            self.ran = 0;
            if woke_up {
                return Step::PollMain;
            }
        }
        if self.ran == POLLS_PER_TICK {
            self.fresh = true;
            self.ran = 0;
            return Step::ParkWithoutWaiting;
        }
        if !has_task {
            self.fresh = true;
            self.ran = 0;
            return Step::Park;
        }
        self.ran = self.ran + 1;
        Step::RunTask
    }
}

/// What taking the next task from a run queue `q` (oldest first) gives:
/// the oldest key, and the rest of the queue.
pub open spec fn popped(q: Seq<usize>) -> (Option<usize>, Seq<usize>) {
    if q.len() == 0 {
        (None, q)
    } else {
        (Some(q[0]), q.subrange(1, q.len() as int))
    }
}

/// The queue of tasks to run, by key: tasks run in the order in which they
/// were queued.
pub struct RunQueue {
    keys: VecDeque<usize>,
}

impl View for RunQueue {
    type V = Seq<usize>;

    closed spec fn view(&self) -> Seq<usize> {
        self.keys@
    }
}

impl RunQueue {
    /// An empty queue.
    pub fn new() -> (q: Self)
        ensures
            q@ == Seq::<usize>::empty(),
    {
        RunQueue { keys: VecDeque::new() }
    }

    /// Queues the task under `key` behind the others.
    pub fn push(&mut self, key: usize)
        ensures
            final(self)@ == old(self)@.push(key),
    {
        self.keys.push_back(key);
    }

    /// Takes the task that was queued first, if any.
    pub fn pop(&mut self) -> (key: Option<usize>)
        ensures
            (key, final(self)@) == popped(old(self)@),
    {
        self.keys.pop_front()
    }

    /// Whether no task is queued.
    pub fn is_empty(&self) -> (r: bool)
        ensures
            r == (self@.len() == 0),
    {
        self.keys.len() == 0
    }
}

// Laws of the main loop.

/// I/O is never starved: at most `POLLS_PER_TICK` tasks run in a row before
/// the loop checks for I/O or polls the main future.
pub proof fn law_bounded_batch(ran: nat, fresh: bool, woke_up: bool, has_task: bool)
    requires
        ran <= POLLS_PER_TICK,
    ensures
        decide(fresh, ran, woke_up, has_task).2 <= POLLS_PER_TICK,
        ran == POLLS_PER_TICK && !fresh && !woke_up ==> decide(fresh, ran, woke_up, has_task).0
            != Step::RunTask,
{
}

/// A woken main future is polled before any other task runs, at the start
/// of an iteration and after any task that woke it.
pub proof fn law_woken_main_polled_first(ran: nat, fresh: bool, has_task: bool)
    requires
        fresh || ran > 0,
    ensures
        decide(fresh, ran, true, has_task).0 == Step::PollMain,
{
}

/// With nothing queued and the main future not woken, the loop waits for
/// events instead of spinning.
pub proof fn law_idle_loop_parks(ran: nat, fresh: bool)
    requires
        ran < POLLS_PER_TICK,
    ensures
        decide(fresh, ran, false, false).0 == Step::Park,
{
}

/// The run queue is first in, first out: a task queued behind others runs
/// after them, and a task queued on an empty queue runs next.
pub proof fn law_run_queue_fifo(q: Seq<usize>, key: usize)
    ensures
        q.len() > 0 ==> popped(q.push(key)) == (Some(q[0]), popped(q).1.push(key)),
        q.len() == 0 ==> popped(q.push(key)) == (Some(key), Seq::<usize>::empty()),
{
    if q.len() > 0 {
        assert(q.push(key).subrange(1, q.len() as int + 1) =~= q.subrange(1, q.len() as int).push(key));
    } else {
        assert(q.push(key).subrange(1, 1) =~= Seq::<usize>::empty());
    }
}

/// After any step but polling the main future (running a task, or parking
/// with or without waiting), the loop stands where a woken main future is
/// polled next: if it has been woken by then, the following step polls it,
/// whether or not a task is queued. In particular parking returns the loop
/// to the top of an iteration.
pub proof fn law_woken_main_polled_after_step(
    fresh: bool,
    ran: nat,
    woke_up: bool,
    has_task: bool,
    has_next: bool,
)
    requires
        ran <= POLLS_PER_TICK,
    ensures
        decide(fresh, ran, woke_up, has_task).0 != Step::PollMain ==> decide(
            decide(fresh, ran, woke_up, has_task).1,
            decide(fresh, ran, woke_up, has_task).2,
            true,
            has_next,
        ).0 == Step::PollMain,
        decide(fresh, ran, woke_up, has_task).0 == Step::Park ==> decide(fresh, ran, woke_up, has_task).1,
        decide(fresh, ran, woke_up, has_task).0 == Step::ParkWithoutWaiting ==> decide(
            fresh,
            ran,
            woke_up,
            has_task,
        ).1,
{
}

} // verus!
