//! A task whose state is a single word: four flags and a reference count.
//!
//! `SCHEDULED`: the task is in the run queue. `COMPLETED`: its future has
//! finished. `CLOSED`: it was cancelled, or its output was taken. `TASK`: its
//! join handle is alive. The bits from `REFERENCE` up count the references
//! to the task: the queue's entry and every waker.
use vstd::prelude::*;
use std::task::Waker;

verus! {

pub const SCHEDULED: usize = 1;

pub const COMPLETED: usize = 2;

pub const CLOSED: usize = 4;

pub const TASK: usize = 8;

pub const REFERENCE: usize = 16;

/// The flags and the reference count of a state word.
pub struct HeaderView {
    pub scheduled: bool,
    pub completed: bool,
    pub closed: bool,
    pub task: bool,
    pub refs: nat,
}

pub open spec fn decode(s: usize) -> HeaderView {
    HeaderView {
        scheduled: s & 1 != 0,
        completed: s & 2 != 0,
        closed: s & 4 != 0,
        task: s & 8 != 0,
        refs: (s >> 4) as nat,
    }
}

/// A state word is its count times `REFERENCE` plus its four flag bits.
proof fn lemma_split(s: usize)
    by (bit_vector)
    ensures
        s == (s >> 4) * 16 + (s & 15),
        s & 15 <= 15,
        s & 1 == (s & 15) & 1,
        s & 2 == (s & 15) & 2,
        s & 4 == (s & 15) & 4,
        s & 8 == (s & 15) & 8,
{
}

proof fn lemma_compose(x: usize, q: usize, r: usize)
    by (bit_vector)
    requires
        r <= 15,
        x == q * 16 + r,
    ensures
        x >> 4 == q,
        x & 15 == r,
{
}

proof fn lemma_clear_bits(s: usize, b: usize)
    by (bit_vector)
    requires
        b == 1 || b == 2 || b == 4 || b == 8,
    ensures
        ((s & !b) & 1 != 0) == (b != 1 && s & 1 != 0),
        ((s & !b) & 2 != 0) == (b != 2 && s & 2 != 0),
        ((s & !b) & 4 != 0) == (b != 4 && s & 4 != 0),
        ((s & !b) & 8 != 0) == (b != 8 && s & 8 != 0),
        (s & !b) >> 4 == s >> 4,
{
}

proof fn lemma_set_bits(s: usize, b: usize)
    by (bit_vector)
    requires
        b == 1 || b == 2 || b == 4 || b == 8,
    ensures
        ((s | b) & 1 != 0) == (b == 1 || s & 1 != 0),
        ((s | b) & 2 != 0) == (b == 2 || s & 2 != 0),
        ((s | b) & 4 != 0) == (b == 4 || s & 4 != 0),
        ((s | b) & 8 != 0) == (b == 8 || s & 8 != 0),
        (s | b) >> 4 == s >> 4,
{
}

/// Clearing a flag keeps the other flags and the count.
proof fn lemma_clear(s: usize, b: usize)
    requires
        b == 1 || b == 2 || b == 4 || b == 8,
    ensures
        ((s & !b) & 1 != 0) == (b != 1 && s & 1 != 0),
        ((s & !b) & 2 != 0) == (b != 2 && s & 2 != 0),
        ((s & !b) & 4 != 0) == (b != 4 && s & 4 != 0),
        ((s & !b) & 8 != 0) == (b != 8 && s & 8 != 0),
        (s & !b) >> 4 == s >> 4,
        s <= isize::MAX ==> s & !b <= isize::MAX,
{
    lemma_clear_bits(s, b);
    if s <= isize::MAX {
        lemma_same_count(s, s & !b);
    }
}

/// Setting a flag keeps the other flags and the count.
proof fn lemma_set(s: usize, b: usize)
    requires
        b == 1 || b == 2 || b == 4 || b == 8,
    ensures
        ((s | b) & 1 != 0) == (b == 1 || s & 1 != 0),
        ((s | b) & 2 != 0) == (b == 2 || s & 2 != 0),
        ((s | b) & 4 != 0) == (b == 4 || s & 4 != 0),
        ((s | b) & 8 != 0) == (b == 8 || s & 8 != 0),
        (s | b) >> 4 == s >> 4,
        s <= isize::MAX ==> s | b <= isize::MAX,
{
    lemma_set_bits(s, b);
    if s <= isize::MAX {
        lemma_same_count(s, s | b);
    }
}

/// Two words with the same count are both below `isize::MAX` when one is.
proof fn lemma_same_count(s: usize, t: usize)
    requires
        s <= isize::MAX,
        t >> 4 == s >> 4,
    ensures
        t <= isize::MAX,
{
    lemma_split(s);
    lemma_split(t);
    assert(isize::MAX == 0x7fff_ffff || isize::MAX == 0x7fff_ffff_ffff_ffff);
}

proof fn lemma_add_ref(s: usize)
    requires
        s <= isize::MAX,
    ensures
        s + 16 <= usize::MAX,
        ((s + 16) as usize) & 1 == s & 1,
        ((s + 16) as usize) & 2 == s & 2,
        ((s + 16) as usize) & 4 == s & 4,
        ((s + 16) as usize) & 8 == s & 8,
        ((s + 16) as usize) >> 4 == (s >> 4) + 1,
{
    assert(usize::MAX == 0xffff_ffff || usize::MAX == 0xffff_ffff_ffff_ffff);
    assert(isize::MAX == 0x7fff_ffff || isize::MAX == 0x7fff_ffff_ffff_ffff);
    assert(isize::MAX == 0x7fff_ffff <==> usize::MAX == 0xffff_ffff);
    lemma_split(s);
    let t = (s + 16) as usize;
    lemma_compose(t, ((s >> 4) + 1) as usize, s & 15);
    lemma_split(t);
}

proof fn lemma_sub_ref(s: usize)
    requires
        s >= 16,
    ensures
        ((s - 16) as usize) & 1 == s & 1,
        ((s - 16) as usize) & 2 == s & 2,
        ((s - 16) as usize) & 4 == s & 4,
        ((s - 16) as usize) & 8 == s & 8,
        ((s - 16) as usize) >> 4 == (s >> 4) - 1,
{
    lemma_split(s);
    let t = (s - 16) as usize;
    lemma_compose(t, ((s >> 4) - 1) as usize, s & 15);
    lemma_split(t);
}

proof fn lemma_refs(s: usize)
    by (bit_vector)
    ensures
        (s & !15usize == 0) == (s >> 4 == 0),
        (s >= 16) == (s >> 4 >= 1),
        (s & 6 != 0) == (s & 2 != 0 || s & 4 != 0),
{
}

proof fn lemma_words()
    by (bit_vector)
    ensures
        (1usize | 8usize | 16usize) == 25usize,
        (1usize | 4usize | 16usize) == 21usize,
        25usize & 1 != 0 && 25usize & 2 == 0 && 25usize & 4 == 0 && 25usize & 8 != 0 && 25usize >> 4
            == 1,
        21usize & 1 != 0 && 21usize & 2 == 0 && 21usize & 4 != 0 && 21usize & 8 == 0 && 21usize >> 4
            == 1,
        (2usize | 4usize) == 6usize,
        (16usize - 1) == 15usize,
{
}

/// Where the task's future stands.
pub enum TaskStage<F, O> {
    Polling(F),
    Finished(O),
    Dropped,
}

/// What the life cycle reads of the stage.
pub enum StageKind<O> {
    Polling,
    Finished(O),
    Dropped,
}

/// The state of a task.
pub struct RawTaskView<O> {
    pub header: HeaderView,
    pub awaited: bool,
    pub stage: StageKind<O>,
}

/// Whether waking a task queues it: it is neither finished nor queued.
pub open spec fn wake_queues(h: HeaderView) -> bool {
    !h.completed && !h.closed && !h.scheduled
}

/// The header after a wake-up through a reference that the waker keeps:
/// a task that it queues is marked scheduled and gains the queue's
/// reference.
pub open spec fn woken_by_ref(h: HeaderView) -> HeaderView {
    if wake_queues(h) {
        HeaderView { scheduled: true, refs: h.refs + 1, ..h }
    } else {
        h
    }
}

/// The header after a waker's reference is taken.
pub open spec fn cloned(h: HeaderView) -> HeaderView {
    HeaderView { refs: h.refs + 1, ..h }
}

/// Whether releasing a reference leaves the task to be freed: it was the
/// last one and no join handle is left.
pub open spec fn frees(h: HeaderView) -> bool {
    h.refs == 1 && !h.task
}

/// What dropping a waker's reference does, and the header after it.
pub open spec fn dropped(h: HeaderView) -> (Dropped, HeaderView) {
    if frees(h) {
        if !h.completed && !h.closed {
            (
                Dropped::Schedule,
                HeaderView { scheduled: true, completed: false, closed: true, task: false, refs: 1 },
            )
        } else {
            (Dropped::Destroy, HeaderView { refs: 0, ..h })
        }
    } else {
        (Dropped::Keep, HeaderView { refs: (h.refs - 1) as nat, ..h })
    }
}

/// What a wake-up through a consumed waker does, and the header after it:
/// its reference goes to the run queue, or is dropped when the task is
/// finished or already queued.
pub open spec fn woken(h: HeaderView) -> (Dropped, HeaderView) {
    if h.completed || h.closed {
        dropped(h)
    } else if !h.scheduled {
        (Dropped::Schedule, HeaderView { scheduled: true, ..h })
    } else {
        (Dropped::Keep, h)
    }
}

/// What polling the join handle gives (`None` while pending; `Some(None)`
/// once the task is cancelled or its output taken) and the task after it.
pub open spec fn joined<O>(v: RawTaskView<O>) -> (Option<Option<O>>, RawTaskView<O>) {
    let h = v.header;
    if h.closed {
        if h.scheduled {
            (None, RawTaskView { awaited: true, ..v })
        } else {
            (Some(None), RawTaskView { awaited: false, ..v })
        }
    } else if !h.completed {
        (None, RawTaskView { awaited: true, ..v })
    } else {
        (
            Some(
                match v.stage {
                    StageKind::Finished(o) => Some(o),
                    _ => None,
                },
            ),
            RawTaskView {
                header: HeaderView { closed: true, ..h },
                awaited: false,
                stage: StageKind::Dropped,
            },
        )
    }
}

/// What a run that found the task cancelled did: the waker of the task
/// awaiting it, to be woken, and whether the task is to be freed.
pub struct Released {
    pub awaiter: Option<Waker>,
    pub destroy: bool,
}

/// How a run starts.
pub enum RunStart {
    /// The future is to be polled; `snapshot` is the state word then.
    Poll { snapshot: usize },
    /// The task was cancelled: its future is dropped and the run's
    /// reference released.
    Closed(Released),
}

/// How a run ends: the waker to wake, whether the task is to be freed, and
/// whether it is to be pushed onto the run queue again.
pub struct RunEnd {
    pub awaiter: Option<Waker>,
    pub destroy: bool,
    pub reschedule: bool,
}

/// What waking through a reference does.
#[derive(Debug, PartialEq, Eq)]
pub enum WakeByRef {
    /// Nothing: the task is finished, or already queued.
    Nothing,
    /// Push the task onto the run queue (a reference was taken for it).
    Schedule,
    /// The reference count overflowed: the process must abort.
    Abort,
}

/// What dropping a reference does.
#[derive(Debug, PartialEq, Eq)]
pub enum Dropped {
    /// Other references remain.
    Keep,
    /// The last reference to an unfinished task without a join handle: the
    /// task is closed and queued once more so that it is cleaned up.
    Schedule,
    /// The last reference: the task is to be freed.
    Destroy,
}

/// A task: its state word, the waker of the task awaiting its output, and
/// its future or output.
pub struct RawTask<F, O> {
    state: usize,
    awaiter: Option<Waker>,
    stage: TaskStage<F, O>,
}

impl<F, O> RawTask<F, O> {
    pub closed spec fn view(&self) -> RawTaskView<O> {
        RawTaskView {
            header: decode(self.state),
            awaited: self.awaiter is Some,
            stage: match self.stage {
                TaskStage::Polling(_) => StageKind::Polling,
                TaskStage::Finished(o) => StageKind::Finished(o),
                TaskStage::Dropped => StageKind::Dropped,
            },
        }
    }

    /// The waker of the task awaiting the output.
    pub closed spec fn awaiter(&self) -> Option<Waker> {
        self.awaiter
    }

    /// The state word.
    pub closed spec fn word(&self) -> usize {
        self.state
    }

    /// The state word stays below `isize::MAX`, a completed task that is not
    /// closed still holds its output, and a completed task is not queued.
    pub closed spec fn wf(&self) -> bool {
        &&& self.state <= isize::MAX
        &&& decode(self.state).completed && !decode(self.state).closed ==> self.stage is Finished
        &&& decode(self.state).completed ==> !decode(self.state).scheduled
    }

    /// A task for `future`: scheduled, with a join handle, and one
    /// reference (the run queue's).
    pub fn spawn(future: F) -> (task: Self)
        ensures
            task.wf(),
            task.view() == (RawTaskView::<O> {
                header: HeaderView {
                    scheduled: true,
                    completed: false,
                    closed: false,
                    task: true,
                    refs: 1,
                },
                awaited: false,
                stage: StageKind::Polling,
            }),
    {
        proof {
            lemma_words();
        }
        RawTask {
            state: SCHEDULED | TASK | REFERENCE,
            awaiter: None,
            stage: TaskStage::Polling(future),
        }
    }

    /// The reference count.
    pub fn references(&self) -> (n: usize)
        ensures
            n == self.view().header.refs,
    {
        self.state >> 4
    }

    /// Whether the future is still held.
    pub fn is_polling(&self) -> (r: bool)
        ensures
            r == (self.view().stage is Polling),
    {
        match self.stage {
            TaskStage::Polling(_) => true,
            _ => false,
        }
    }

    /// The future, to be polled.
    pub fn future_mut(&mut self) -> (f: Option<&mut F>)
        ensures
            f is Some == (old(self).view().stage is Polling),
            final(self).view() == old(self).view(),
            final(self).word() == old(self).word(),
    {
        match &mut self.stage {
            TaskStage::Polling(f) => Some(f),
            _ => None,
        }
    }

    /// Takes the waker of the awaiting task, to be woken.
    fn take_waker(&mut self) -> (w: Option<Waker>)
        ensures
            final(self).awaiter is None,
            final(self).state == old(self).state,
            final(self).stage == old(self).stage,
            w == old(self).awaiter,
    {
        self.awaiter.take()
    }

    /// Drops the future, if it is still held.
    fn drop_future(&mut self)
        ensures
            final(self).state == old(self).state,
            final(self).awaiter == old(self).awaiter,
            final(self).stage == (if old(self).stage is Polling {
                TaskStage::Dropped
            } else {
                old(self).stage
            }),
    {
        match self.stage {
            TaskStage::Polling(_) => {
                self.stage = TaskStage::Dropped;
            },
            _ => {},
        }
    }

    /// Releases a reference; returns whether it was the last and no join
    /// handle is left, so that the task is to be freed.
    fn drop_ref(&mut self) -> (destroy: bool)
        requires
            decode(old(self).state).refs >= 1,
        ensures
            final(self).state == old(self).state - REFERENCE,
            final(self).awaiter == old(self).awaiter,
            final(self).stage == old(self).stage,
            decode(final(self).state) == (HeaderView {
                refs: (decode(old(self).state).refs - 1) as nat,
                ..decode(old(self).state)
            }),
            destroy == (decode(old(self).state).refs == 1 && !decode(old(self).state).task),
    {
        proof {
            lemma_refs(self.state);
            lemma_sub_ref(self.state);
        }
        self.state = self.state - REFERENCE;
        proof {
            lemma_refs(self.state);
        }
        self.state & !(REFERENCE - 1) == 0 && self.state & TASK == 0
    }

    /// Starts a run of the task.
    pub fn run_start(&mut self) -> (start: RunStart)
        requires
            old(self).wf(),
            decode(old(self).word()).closed ==> decode(old(self).word()).refs >= 1,
            !decode(old(self).word()).closed ==> old(self).view().stage is Polling,
        ensures
            final(self).wf(),
            match start {
                RunStart::Poll { snapshot } => {
                    &&& !decode(old(self).word()).closed
                    &&& snapshot == final(self).word()
                    &&& final(self).view() == (RawTaskView::<O> {
                        header: HeaderView { scheduled: false, ..decode(old(self).word()) },
                        ..old(self).view()
                    })
                },
                RunStart::Closed(released) => {
                    &&& decode(old(self).word()).closed
                    &&& final(self).view().header == (HeaderView {
                        scheduled: false,
                        refs: (decode(old(self).word()).refs - 1) as nat,
                        ..decode(old(self).word())
                    })
                    &&& !final(self).view().awaited
                    &&& !(final(self).view().stage is Polling)
                    &&& released.awaiter == old(self).awaiter()
                    &&& released.destroy == (decode(old(self).word()).refs == 1 && !decode(
                        old(self).word(),
                    ).task)
                },
            },
    {
        let state = self.state;
        proof {
            lemma_clear(state, SCHEDULED);
        }
        if state & CLOSED != 0 {
            self.state = self.state & !SCHEDULED;
            let awaiter = self.take_waker();
            self.drop_future();
            let destroy = self.drop_ref();
            proof {
                lemma_sub_ref(state & !SCHEDULED);
            }
            return RunStart::Closed(Released { awaiter, destroy });
        }
        self.state = self.state & !SCHEDULED;
        RunStart::Poll { snapshot: self.state }
    }

    /// Ends a run, given the state word at its start and what polling the
    /// future gave (`Some` when it completed).
    pub fn run_finish(&mut self, snapshot: usize, output: Option<O>) -> (end: RunEnd)
        requires
            old(self).wf(),
            snapshot <= isize::MAX,
            !decode(snapshot).closed,
            !decode(snapshot).scheduled,
            output is Some ==> decode(snapshot).refs >= 1,
            output is None ==> decode(old(self).word()).refs >= 1,
        ensures
            final(self).wf(),
            !end.reschedule,
            match output {
                Some(o) => {
                    &&& final(self).view().header == (HeaderView {
                        scheduled: false,
                        completed: true,
                        closed: !decode(snapshot).task,
                        refs: (decode(snapshot).refs - 1) as nat,
                        ..decode(snapshot)
                    })
                    &&& final(self).view().stage == (if decode(snapshot).task {
                        StageKind::Finished(o)
                    } else {
                        StageKind::Dropped
                    })
                    &&& !final(self).view().awaited
                    &&& end.awaiter == old(self).awaiter()
                    &&& end.destroy == (decode(snapshot).refs == 1 && !decode(snapshot).task)
                },
                None => {
                    &&& final(self).view().header == (HeaderView {
                        refs: (decode(old(self).word()).refs - 1) as nat,
                        ..decode(old(self).word())
                    })
                    &&& final(self).view().stage == old(self).view().stage
                    &&& final(self).view().awaited == old(self).view().awaited
                    &&& end.awaiter is None
                    &&& end.destroy == (decode(old(self).word()).refs == 1 && !decode(
                        old(self).word(),
                    ).task)
                },
            },
    {
        match output {
            Some(val) => {
                self.stage = TaskStage::Finished(val);
                proof {
                    lemma_clear(snapshot, SCHEDULED);
                    lemma_set(snapshot & !SCHEDULED, COMPLETED);
                    lemma_set((snapshot & !SCHEDULED) | COMPLETED, CLOSED);
                }
                if snapshot & TASK == 0 {
                    self.state = (snapshot & !SCHEDULED) | COMPLETED | CLOSED;
                } else {
                    self.state = (snapshot & !SCHEDULED) | COMPLETED;
                }
                if snapshot & TASK == 0 || snapshot & CLOSED != 0 {
                    self.stage = TaskStage::Dropped;
                }
                let awaiter = self.take_waker();
                proof {
                    lemma_refs(self.state);
                }
                let ghost before = self.state;
                let destroy = self.drop_ref();
                proof {
                    lemma_sub_ref(before);
                }
                RunEnd { awaiter, destroy, reschedule: false }
            },
            None => {
                if snapshot & CLOSED != 0 {
                    RunEnd { awaiter: None, destroy: false, reschedule: false }
                } else if snapshot & SCHEDULED != 0 {
                    RunEnd { awaiter: None, destroy: false, reschedule: true }
                } else {
                    proof {
                        lemma_refs(self.state);
                        lemma_sub_ref(self.state);
                    }
                    let destroy = self.drop_ref();
                    RunEnd { awaiter: None, destroy, reschedule: false }
                }
            },
        }
    }

    /// What a panic while polling the future does: the task is closed, its
    /// future dropped and the run's reference released.
    pub fn run_panicked(&mut self) -> (released: Released)
        requires
            old(self).wf(),
            decode(old(self).word()).refs >= 1,
        ensures
            final(self).wf(),
            final(self).view().header == (HeaderView {
                scheduled: false,
                closed: true,
                refs: (decode(old(self).word()).refs - 1) as nat,
                ..decode(old(self).word())
            }),
            !(final(self).view().stage is Polling),
            !final(self).view().awaited,
            released.awaiter == old(self).awaiter(),
            released.destroy == (decode(old(self).word()).refs == 1 && !decode(old(self).word()).task),
    {
        let state = self.state;
        proof {
            lemma_clear(state, SCHEDULED);
            lemma_set(state & !SCHEDULED, CLOSED);
        }
        if state & CLOSED != 0 {
            self.state = self.state & !SCHEDULED;
        } else {
            self.state = (state & !SCHEDULED) | CLOSED;
        }
        let awaiter = self.take_waker();
        self.drop_future();
        let ghost before = self.state;
        proof {
            lemma_refs(before);
        }
        let destroy = self.drop_ref();
        proof {
            lemma_sub_ref(before);
        }
        Released { awaiter, destroy }
    }

    /// Wakes the task through a reference that the waker keeps.
    pub fn wake_by_ref(&mut self) -> (r: WakeByRef)
        requires
            old(self).wf(),
        ensures
            r != WakeByRef::Abort ==> final(self).wf(),
            final(self).view() == (RawTaskView::<O> {
                header: woken_by_ref(old(self).view().header),
                ..old(self).view()
            }),
            (r == WakeByRef::Nothing) == !wake_queues(old(self).view().header),
            r == WakeByRef::Nothing ==> final(self).word() == old(self).word(),
            r != WakeByRef::Nothing ==> (r == WakeByRef::Abort <==> final(self).word() > isize::MAX),
    {
        let state = self.state;
        proof {
            lemma_refs(state);
            lemma_words();
            lemma_set(state, SCHEDULED);
        }
        if state & (COMPLETED | CLOSED) != 0 {
            return WakeByRef::Nothing;
        } else if state & SCHEDULED == 0 {
            proof {
                lemma_add_ref(state | SCHEDULED);
            }
            self.state = (state | SCHEDULED) + REFERENCE;
            if self.state > isize::MAX as usize {
                return WakeByRef::Abort;
            }
            return WakeByRef::Schedule;
        }
        WakeByRef::Nothing
    }

    /// Takes a reference for a new waker; `false` when the count overflowed
    /// and the process must abort.
    pub fn clone_waker(&mut self) -> (ok: bool)
        requires
            old(self).wf(),
        ensures
            ok ==> final(self).wf(),
            final(self).view() == (RawTaskView::<O> {
                header: cloned(old(self).view().header),
                ..old(self).view()
            }),
            ok == (final(self).word() <= isize::MAX),
    {
        proof {
            lemma_add_ref(self.state);
        }
        self.state = self.state + REFERENCE;
        if self.state > isize::MAX as usize {
            return false;
        }
        true
    }

    /// Releases a waker's reference.
    pub fn drop_waker(&mut self) -> (r: Dropped)
        requires
            old(self).wf(),
            old(self).view().header.refs >= 1,
        ensures
            final(self).wf(),
            final(self).view().stage == old(self).view().stage,
            final(self).view().awaited == old(self).view().awaited,
            (r, final(self).view().header) == dropped(old(self).view().header),
    {
        proof {
            lemma_refs(self.state);
            lemma_sub_ref(self.state);
            lemma_words();
        }
        self.state = self.state - REFERENCE;
        let state = self.state;
        proof {
            lemma_refs(state);
        }
        if state & !(REFERENCE - 1) == 0 && state & TASK == 0 {
            if state & (COMPLETED | CLOSED) == 0 {
                self.state = SCHEDULED | CLOSED | REFERENCE;
                return Dropped::Schedule;
            } else {
                return Dropped::Destroy;
            }
        }
        Dropped::Keep
    }

    /// Wakes the task through a waker that is consumed: its reference is
    /// handed to the run queue, or dropped when the task is finished or
    /// already queued.
    pub fn wake(&mut self) -> (r: Dropped)
        requires
            old(self).wf(),
            old(self).view().header.refs >= 1,
        ensures
            final(self).wf(),
            final(self).view().stage == old(self).view().stage,
            final(self).view().awaited == old(self).view().awaited,
            (r, final(self).view().header) == woken(old(self).view().header),
    {
        let state = self.state;
        proof {
            lemma_refs(state);
            lemma_words();
            lemma_set(state, SCHEDULED);
        }
        if state & (COMPLETED | CLOSED) != 0 {
            self.drop_waker()
        } else if state & SCHEDULED == 0 {
            self.state = state | SCHEDULED;
            Dropped::Schedule
        } else {
            Dropped::Keep
        }
    }

    /// Polls for the output on behalf of the join handle's task, whose
    /// waker is `waker`: `None` while the task runs, with `waker` kept (in
    /// place of any earlier one) to be woken; `Some(None)` when it was
    /// cancelled or its output already taken; `Some(Some(output))` the first
    /// time after it completed, which closes it. When ready, the waker that
    /// was kept is handed back: the caller wakes it unless it wakes the
    /// polling task itself.
    pub fn join_poll(&mut self, waker: Waker) -> (r: (Option<Option<O>>, Option<Waker>))
        requires
            old(self).wf(),
        ensures
            final(self).wf(),
            (r.0, final(self).view()) == joined(old(self).view()),
            r.0 is None ==> final(self).awaiter() == Some(waker) && r.1 is None,
            r.0 is Some ==> final(self).awaiter() is None,
            r.0 is Some ==> r.1 == old(self).awaiter(),
    {
        let state = self.state;
        if state & CLOSED != 0 {
            if state & SCHEDULED != 0 {
                self.awaiter = Some(waker);
                return (None, None);
            }
            let previous = self.take_waker();
            return (Some(None), previous);
        }
        if state & COMPLETED == 0 {
            self.awaiter = Some(waker);
            return (None, None);
        }
        proof {
            lemma_set(state, CLOSED);
        }
        self.state = state | CLOSED;
        let previous = self.take_waker();
        let mut stage = TaskStage::Dropped;
        std::mem::swap(&mut self.stage, &mut stage);
        match stage {
            TaskStage::Finished(output) => (Some(Some(output)), previous),
            _ => (Some(None), previous),
        }
    }
}

/// Taking a reference for a waker and dropping it again leaves the task as
/// it was.
pub proof fn law_clone_then_drop(h: HeaderView)
    requires
        h.refs >= 1,
    ensures
        dropped(cloned(h)) == (Dropped::Keep, h),
{
}

/// A task is queued at most once: once a wake-up queued it, further
/// wake-ups leave it where it is until it runs.
pub proof fn law_queued_once(h: HeaderView)
    requires
        wake_queues(h),
    ensures
        !wake_queues(woken_by_ref(h)),
        woken_by_ref(woken_by_ref(h)) == woken_by_ref(h),
        woken(woken(h).1) == (Dropped::Keep, woken(h).1),
{
}

/// A finished or cancelled task is never queued by a wake-up, and waking it
/// through a kept reference leaves it unchanged.
pub proof fn law_finished_not_queued(h: HeaderView)
    requires
        h.completed || h.closed,
    ensures
        woken_by_ref(h) == h,
        woken(h).0 != Dropped::Schedule,
{
}

/// When the last waker of an unfinished task without a join handle is
/// dropped, the task is queued closed with one reference, so that the run
/// that cleans it up also frees it.
pub proof fn law_detached_task_is_freed(h: HeaderView)
    requires
        h.refs >= 1,
        frees(h),
        !h.completed && !h.closed,
    ensures
        dropped(h).0 == Dropped::Schedule,
        dropped(h).1.closed,
        frees(dropped(h).1),
{
}

/// The join handle receives the output once: after a poll that took it,
/// every later poll answers that there is none.
pub proof fn law_output_taken_once<O>(v: RawTaskView<O>)
    requires
        v.header.completed ==> !v.header.scheduled,
        joined(v).0 matches Some(Some(_)),
    ensures
        joined(joined(v).1).0 == Some(None::<O>),
        joined(joined(joined(v).1).1).0 == Some(None::<O>),
{
}

} // verus!
