//! The registry of I/O sources and the readiness bookkeeping of the
//! runtime.
//!
//! Each registered source has an interest per direction: the wakers of the
//! tasks waiting to read from it or write to it, and whether an event
//! arrived that a poll has not yet consumed. Registering and modifying
//! interest with the operating system is the caller's part: the functions
//! here say when it is due and with which [`Event`].
use vstd::prelude::*;
use std::collections::HashMap;
use std::task::Waker;
use crate::sys::Event;
use crate::waker::will_wake;

verus! {

/// A direction of I/O.
#[derive(Clone, Copy, Debug, PartialEq, Eq)]
pub enum Direction {
    Read,
    Write,
}

/// The wakers that `slots` holds, in order.
pub open spec fn present(slots: Seq<Option<Waker>>) -> Seq<Waker>
    decreases slots.len(),
{
    if slots.len() == 0 {
        Seq::empty()
    } else {
        present(slots.drop_last()) + match slots.last() {
            Some(w) => seq![w],
            None => Seq::empty(),
        }
    }
}

/// The interest in one direction of a source.
pub struct Interest {
    poller: Option<Waker>,
    awaiters: Vec<Option<Waker>>,
    woke_up: bool,
}

/// What the bookkeeping reads of an interest.
pub struct InterestView {
    /// The waker of the task that polls for readiness.
    pub poller: Option<Waker>,
    /// The slots of other waiting tasks.
    pub awaiters: Seq<Option<Waker>>,
    /// An event arrived that no poll consumed yet.
    pub woke_up: bool,
}

/// The number of wakers that an interest holds.
pub open spec fn waker_count(v: InterestView) -> int {
    (if v.poller is Some { 1int } else { 0int }) + v.awaiters.len()
}

/// What a readiness poll finds, and the interest after it: `None` when an
/// event arrived since the last poll (which consumes it); otherwise the
/// polling task waits, and `Some(register)` says whether the direction had
/// no waiting task before, so that interest must be registered.
pub open spec fn polled(v: InterestView, waker: Waker) -> (Option<bool>, InterestView) {
    if v.woke_up {
        (None, InterestView { woke_up: false, ..v })
    } else {
        (Some(waker_count(v) == 0), InterestView { poller: Some(waker), ..v })
    }
}

/// What a readiness poll with `waker` does, from interest `v0` to `v` with
/// outcome `r`: an event that arrived is consumed; otherwise `waker`'s task
/// becomes the poller and the poller it replaced is handed back, except
/// that a poller whose waker wakes the same task stays as it is.
pub open spec fn polls(v0: InterestView, v: InterestView, waker: Waker, r: Readiness) -> bool {
    if v0.woke_up {
        r is Ready && v == polled(v0, waker).1
    } else {
        ||| r == (Readiness::Pending { register: waker_count(v0) == 0, previous: v0.poller })
            && v == polled(v0, waker).1
        ||| r == (Readiness::Pending { register: false, previous: None }) && v0.poller is Some
            && v == v0
    }
}

/// The interest after an event: every waiting task was handed out, and the
/// event is remembered for the next poll.
pub open spec fn dispatched(v: InterestView) -> InterestView {
    InterestView {
        poller: None,
        awaiters: Seq::new(v.awaiters.len(), |i: int| None::<Waker>),
        woke_up: true,
    }
}

impl Interest {
    pub closed spec fn view(&self) -> InterestView {
        InterestView { poller: self.poller, awaiters: self.awaiters@, woke_up: self.woke_up }
    }

    /// The wakers that an event hands out: the other waiting tasks', in
    /// order, then the polling task's.
    pub open spec fn handed_out(&self) -> Seq<Waker> {
        present(self.view().awaiters) + match self.view().poller {
            Some(w) => seq![w],
            None => Seq::empty(),
        }
    }

    pub closed spec fn wf(&self) -> bool {
        self.awaiters@.len() < usize::MAX
    }

    /// No interest.
    pub fn new() -> (i: Interest)
        ensures
            i.wf(),
            i.view() == (InterestView { poller: None, awaiters: Seq::empty(), woke_up: false }),
    {
        Interest { poller: None, awaiters: Vec::new(), woke_up: false }
    }

    /// The number of wakers held: the polling task's and the other waiting
    /// tasks' slots.
    pub fn wakers(&self) -> (n: usize)
        requires
            self.wf(),
        ensures
            n == waker_count(self.view()),
    {
        (if self.poller.is_some() { 1usize } else { 0usize }) + self.awaiters.len()
    }

    /// Whether any task waits in this direction.
    pub fn has_interest(&self) -> (r: bool)
        requires
            self.wf(),
        ensures
            r == (waker_count(self.view()) != 0),
    {
        self.wakers() != 0
    }

    /// Records an event: hands every waiting task's waker to `wakers` (the
    /// other waiting tasks' first, in order, then the polling task's) and
    /// remembers the event for the next poll.
    pub fn take(&mut self, wakers: &mut Vec<Waker>)
        requires
            old(self).wf(),
        ensures
            final(self).wf(),
            final(self).view() == dispatched(old(self).view()),
            final(wakers)@ == old(wakers)@ + old(self).handed_out(),
    {
        hand_out(&mut self.awaiters, &mut self.poller, wakers);
        self.woke_up = true;
    }
}

/// Hands every waiting task's waker to `wakers`: those of `awaiters`, in
/// order, then the polling task's. Leaves every slot empty.
pub(crate) fn hand_out(
    awaiters: &mut Vec<Option<Waker>>,
    poller: &mut Option<Waker>,
    wakers: &mut Vec<Waker>,
)
    ensures
        final(awaiters)@ == Seq::new(old(awaiters)@.len(), |i: int| None::<Waker>),
        *final(poller) is None,
        final(wakers)@ == old(wakers)@ + present(old(awaiters)@) + match *old(poller) {
            Some(w) => seq![w],
            None => Seq::empty(),
        },
{
    let ghost a0 = awaiters@;
    let ghost w0 = wakers@;
    let n = awaiters.len();
    let mut i: usize = 0;
    while i < n
        invariant
            n == a0.len(),
            awaiters@.len() == n,
            0 <= i <= n,
            forall|j: int| 0 <= j < i ==> #[trigger] awaiters@[j] is None,
            forall|j: int| i <= j < n ==> #[trigger] awaiters@[j] == a0[j],
            wakers@ == w0 + present(a0.take(i as int)),
            *poller == *old(poller),
            a0 == old(awaiters)@,
            w0 == old(wakers)@,
        decreases n - i,
    {
        proof {
            assert(a0.take(i + 1).drop_last() =~= a0.take(i as int));
            assert(a0.take(i + 1).last() == a0[i as int]);
        }
        match awaiters[i].take() {
            Some(w) => {
                wakers.push(w);
                proof {
                    assert(wakers@ =~= w0 + present(a0.take(i + 1)));
                }
            },
            None => {
                proof {
                    assert(wakers@ =~= w0 + present(a0.take(i + 1)));
                }
            },
        }
        i = i + 1;
    }
    proof {
        assert(a0.take(n as int) =~= a0);
        assert(awaiters@ =~= Seq::new(a0.len(), |i: int| None::<Waker>));
    }
    match poller.take() {
        Some(w) => wakers.push(w),
        None => {},
    }
}

/// A registered I/O source: its raw handle, its key, and its interest per
/// direction.
pub struct Source {
    raw: i32,
    key: usize,
    read: Interest,
    write: Interest,
}

/// What the bookkeeping reads of a source.
pub struct SourceView {
    pub raw: i32,
    pub key: usize,
    pub read: InterestView,
    pub write: InterestView,
}

/// The interest with the operating system that a source's waiting tasks
/// call for.
pub open spec fn interest_event(s: SourceView) -> Event {
    Event { key: s.key, readable: waker_count(s.read) != 0, writable: waker_count(s.write) != 0 }
}

/// The outcome of a readiness poll.
pub enum Readiness {
    /// An event arrived since the last poll.
    Ready,
    /// The task waits. When `register` is set, the source's interest with
    /// the operating system must be updated (to [`Source::event`]); when
    /// `previous` holds a waker, that task was replaced as the poller and
    /// must be woken.
    Pending { register: bool, previous: Option<Waker> },
}

impl Source {
    pub closed spec fn view(&self) -> SourceView {
        SourceView { raw: self.raw, key: self.key, read: self.read.view(), write: self.write.view() }
    }

    pub closed spec fn wf(&self) -> bool {
        self.read.wf() && self.write.wf()
    }

    /// The wakers that an event in `direction` hands out.
    pub closed spec fn handed_out(&self, direction: Direction) -> Seq<Waker> {
        match direction {
            Direction::Read => self.read.handed_out(),
            Direction::Write => self.write.handed_out(),
        }
    }

    /// The wakers that `event` hands out: those of reading, then those of
    /// writing, for each direction that it reports.
    pub open spec fn woken_by(&self, event: Event) -> Seq<Waker> {
        (if event.readable { self.handed_out(Direction::Read) } else { Seq::empty() }) + (if event.writable {
            self.handed_out(Direction::Write)
        } else {
            Seq::empty()
        })
    }

    /// The interest in `direction`.
    pub open spec fn interest_view(&self, direction: Direction) -> InterestView {
        match direction {
            Direction::Read => self.view().read,
            Direction::Write => self.view().write,
        }
    }

    /// A source with no interest.
    pub fn new(raw: i32, key: usize) -> (s: Source)
        ensures
            s.wf(),
            s.view() == (SourceView {
                raw: raw,
                key: key,
                read: InterestView { poller: None, awaiters: Seq::empty(), woke_up: false },
                write: InterestView { poller: None, awaiters: Seq::empty(), woke_up: false },
            }),
    {
        Source { raw, key, read: Interest::new(), write: Interest::new() }
    }

    /// The raw handle of the source.
    pub fn raw(&self) -> (raw: i32)
        ensures
            raw == self.view().raw,
    {
        self.raw
    }

    /// The interest that the source's waiting tasks call for.
    pub fn event(&self) -> (e: Event)
        requires
            self.wf(),
        ensures
            e == interest_event(self.view()),
    {
        Event { key: self.key, readable: self.read.has_interest(), writable: self.write.has_interest() }
    }

    /// Polls for readiness in `direction` on behalf of the task that
    /// `waker` wakes: ready when an event arrived since the last poll (which
    /// consumes it); otherwise the task becomes the poller, with `waker`,
    /// and the poller it replaced is handed back in `previous`. When the
    /// current poller's waker wakes the same task, it stays as it is.
    pub fn poll_ready(&mut self, direction: Direction, waker: Waker) -> (r: Readiness)
        requires
            old(self).wf(),
        ensures
            final(self).wf(),
            final(self).view().raw == old(self).view().raw,
            final(self).view().key == old(self).view().key,
            direction == Direction::Read ==> final(self).view().write == old(self).view().write,
            direction == Direction::Write ==> final(self).view().read == old(self).view().read,
            polls(old(self).interest_view(direction), final(self).interest_view(direction), waker, r),
    {
        let interest = match direction {
            Direction::Read => &mut self.read,
            Direction::Write => &mut self.write,
        };
        if interest.woke_up {
            interest.woke_up = false;
            return Readiness::Ready;
        }
        let had_interest = interest.has_interest();
        match &interest.poller {
            Some(current) => {
                if will_wake(current, &waker) {
                    return Readiness::Pending { register: false, previous: None };
                }
            },
            None => {},
        }
        let previous = interest.poller.take();
        interest.poller = Some(waker);
        Readiness::Pending { register: !had_interest, previous }
    }

    /// Records an event for this source: the waiting tasks of each ready
    /// direction are handed to `wakers`. Returns whether interest remains,
    /// in which case it must be registered again (to [`Source::event`]).
    pub fn dispatch(&mut self, event: &Event, wakers: &mut Vec<Waker>) -> (reregister: bool)
        requires
            old(self).wf(),
        ensures
            final(self).wf(),
            final(self).view().raw == old(self).view().raw,
            final(self).view().key == old(self).view().key,
            final(self).view().read == (if event.readable {
                dispatched(old(self).view().read)
            } else {
                old(self).view().read
            }),
            final(self).view().write == (if event.writable {
                dispatched(old(self).view().write)
            } else {
                old(self).view().write
            }),
            reregister == (waker_count(final(self).view().read) != 0 || waker_count(
                final(self).view().write,
            ) != 0),
            final(wakers)@ == old(wakers)@ + old(self).woken_by(*event),
    {
        let ghost w0 = wakers@;
        if event.readable {
            self.read.take(wakers);
        }
        if event.writable {
            self.write.take(wakers);
        }
        proof {
            assert(wakers@ =~= w0 + old(self).woken_by(*event));
        }
        self.read.has_interest() || self.write.has_interest()
    }
}

/// The sources of a runtime, by key.
pub struct Reactor {
    sources: HashMap<usize, Source>,
}

impl Reactor {
    pub closed spec fn view(&self) -> Map<usize, SourceView> {
        self.sources@.map_values(|s: Source| s.view())
    }

    pub closed spec fn wf(&self) -> bool {
        forall|k: usize| #[trigger] self.sources@.contains_key(k) ==> self.sources@[k].wf()
    }

    /// The wakers that `event` hands out, from the source under its key.
    pub closed spec fn woken_by(&self, event: Event) -> Seq<Waker> {
        self.sources@[event.key].woken_by(event)
    }

    /// A reactor with no sources.
    pub fn new() -> (r: Reactor)
        ensures
            r.wf(),
            r.view() == Map::<usize, SourceView>::empty(),
    {
        let r = Reactor { sources: HashMap::new() };
        proof {
            assert(r.view() =~= Map::<usize, SourceView>::empty());
        }
        r
    }

    /// The key that the next source is registered under: the number of
    /// registered sources.
    pub fn next_key(&self) -> (key: usize)
        ensures
            key == self.view().dom().len(),
    {
        proof {
            assert(self.view().dom() =~= self.sources@.dom());
        }
        self.sources.len()
    }

    /// Whether a source is registered under `key`.
    pub fn contains_source(&self, key: usize) -> (r: bool)
        ensures
            r == self.view().contains_key(key),
    {
        self.sources.contains_key(&key)
    }

    /// The raw handle of the source under `key`, if there is one.
    pub fn source_raw(&self, key: usize) -> (raw: Option<i32>)
        ensures
            raw == (if self.view().contains_key(key) {
                Some(self.view()[key].raw)
            } else {
                None::<i32>
            }),
    {
        match self.sources.get(&key) {
            Some(source) => Some(source.raw),
            None => None,
        }
    }

    /// Registers a source under the next key and returns that key.
    pub fn insert_source(&mut self, raw: i32) -> (key: usize)
        requires
            old(self).wf(),
        ensures
            final(self).wf(),
            key == old(self).view().dom().len(),
            final(self).view() == old(self).view().insert(
                key,
                SourceView {
                    raw: raw,
                    key: key,
                    read: InterestView { poller: None, awaiters: Seq::empty(), woke_up: false },
                    write: InterestView { poller: None, awaiters: Seq::empty(), woke_up: false },
                },
            ),
    {
        proof {
            assert(self.view().dom() =~= self.sources@.dom());
        }
        let key = self.sources.len();
        self.sources.insert(key, Source::new(raw, key));
        proof {
            assert(self.view() =~= old(self).view().insert(key, Source::new_view(raw, key)));
        }
        key
    }

    /// Unregisters the source under `key` and returns its raw handle.
    pub fn remove_source(&mut self, key: usize) -> (raw: i32)
        requires
            old(self).wf(),
            old(self).view().contains_key(key),
        ensures
            final(self).wf(),
            raw == old(self).view()[key].raw,
            final(self).view() == old(self).view().remove(key),
    {
        let source = self.sources.remove(&key).unwrap();
        proof {
            assert(self.view() =~= old(self).view().remove(key));
        }
        source.raw
    }

    /// Polls the source under `key` for readiness in `direction`; see
    /// [`Source::poll_ready`]. The returned event is the source's interest
    /// afterwards, to be registered when the outcome asks for it.
    pub fn poll_ready(&mut self, key: usize, direction: Direction, waker: Waker) -> (r: (
        Readiness,
        Event,
    ))
        requires
            old(self).wf(),
            old(self).view().contains_key(key),
        ensures
            final(self).wf(),
            final(self).view().dom() == old(self).view().dom(),
            forall|k: usize| #[trigger] old(self).view().contains_key(k) && k != key ==> final(self).view()[k]
                == old(self).view()[k],
            r.1 == interest_event(final(self).view()[key]),
            ({
                let s0 = old(self).view()[key];
                let s = final(self).view()[key];
                let v0 = if direction == Direction::Read { s0.read } else { s0.write };
                let v = if direction == Direction::Read { s.read } else { s.write };
                &&& s.raw == s0.raw && s.key == s0.key
                &&& direction == Direction::Read ==> s.write == s0.write
                &&& direction == Direction::Write ==> s.read == s0.read
                &&& polls(v0, v, waker, r.0)
            }),
    {
        let mut source = self.sources.remove(&key).unwrap();
        let r = source.poll_ready(direction, waker);
        let e = source.event();
        self.sources.insert(key, source);
        proof {
            assert(self.view().dom() =~= old(self).view().dom());
        }
        (r, e)
    }

    /// Records an event reported by the operating system: the waiting
    /// tasks of the source under its key are handed to `wakers`. Returns the
    /// interest to register again, if the source still has waiting tasks;
    /// an event for a key with no source is ignored.
    pub fn dispatch(&mut self, event: &Event, wakers: &mut Vec<Waker>) -> (reregister: Option<Event>)
        requires
            old(self).wf(),
        ensures
            final(self).wf(),
            final(self).view().dom() == old(self).view().dom(),
            forall|k: usize|
                #[trigger] old(self).view().contains_key(k) && k != event.key ==> final(self).view()[k]
                    == old(self).view()[k],
            !old(self).view().contains_key(event.key) ==> reregister is None && final(self).view()
                == old(self).view() && final(wakers)@ == old(wakers)@,
            old(self).view().contains_key(event.key) ==> ({
                let s0 = old(self).view()[event.key];
                let s = final(self).view()[event.key];
                &&& s.raw == s0.raw && s.key == s0.key
                &&& s.read == (if event.readable { dispatched(s0.read) } else { s0.read })
                &&& s.write == (if event.writable { dispatched(s0.write) } else { s0.write })
                &&& reregister == (if waker_count(s.read) != 0 || waker_count(s.write) != 0 {
                    Some(interest_event(s))
                } else {
                    None
                })
                &&& final(wakers)@ == old(wakers)@ + old(self).woken_by(*event)
            }),
    {
        if !self.sources.contains_key(&event.key) {
            return None;
        }
        let mut source = self.sources.remove(&event.key).unwrap();
        let again = source.dispatch(event, wakers);
        let e = source.event();
        self.sources.insert(event.key, source);
        proof {
            assert(self.view().dom() =~= old(self).view().dom());
        }
        if again {
            Some(e)
        } else {
            None
        }
    }
}

impl Source {
    /// The view of a new source.
    pub open spec fn new_view(raw: i32, key: usize) -> SourceView {
        SourceView {
            raw: raw,
            key: key,
            read: InterestView { poller: None, awaiters: Seq::empty(), woke_up: false },
            write: InterestView { poller: None, awaiters: Seq::empty(), woke_up: false },
        }
    }
}

// Laws of the readiness bookkeeping.

/// An event is consumed by exactly one poll: the first poll after it is
/// ready, and the next one waits.
pub proof fn law_event_consumed_once(v: InterestView, waker: Waker)
    ensures
        polled(dispatched(v), waker).0 is None,
        polled(polled(dispatched(v), waker).1, waker).0 is Some,
{
}

/// A poll is ready only when an event arrived since the last poll.
pub proof fn law_ready_only_after_event(v: InterestView, waker: Waker)
    requires
        !v.woke_up,
    ensures
        polled(v, waker).0 is Some,
        !polled(v, waker).1.woke_up,
{
}

/// Interest is registered with the operating system only when a direction
/// goes from no waiting task to one, and an event hands out every waiting
/// task, so that no interest is left.
pub proof fn law_register_on_first_waiter(v: InterestView, waker: Waker)
    requires
        !v.woke_up,
    ensures
        polled(v, waker).0 == Some(waker_count(v) == 0),
        waker_count(polled(v, waker).1) != 0,
        dispatched(v).poller is None,
        present(dispatched(v).awaiters) == Seq::<Waker>::empty(),
{
    lemma_present_none(v.awaiters.len());
}

/// Empty slots hold no waker.
proof fn lemma_present_none(n: nat)
    ensures
        present(Seq::new(n, |i: int| None::<Waker>)) == Seq::<Waker>::empty(),
    decreases n,
{
    if n > 0 {
        lemma_present_none((n - 1) as nat);
        assert(Seq::new(n, |i: int| None::<Waker>).drop_last() =~= Seq::new(
            (n - 1) as nat,
            |i: int| None::<Waker>,
        ));
    }
}

} // verus!
