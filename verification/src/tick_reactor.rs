//! Readiness bookkeeping by ticks.
//!
//! The reactor counts its rounds of event collection in ticks. An event for
//! a direction of a source stamps that direction with the tick in which it
//! arrived. A task that waits records the current tick and the last stamp;
//! it is ready once the direction bears a stamp that is neither, that is,
//! once an event arrived after it began to wait.
use vstd::prelude::*;
use std::collections::HashMap;
use std::task::Waker;
use crate::reactor::{Direction, Readiness, hand_out, present};
use crate::sys::Event;
use crate::waker::will_wake;

verus! {

/// What the bookkeeping reads of the interest in one direction.
pub struct TickInterestView {
    /// The waker of the task that polls for readiness.
    pub poller: Option<Waker>,
    /// The slots of other waiting tasks.
    pub awaiters: Seq<Option<Waker>>,
    /// The tick of the last event.
    pub last_tick: usize,
    /// The tick and the last event's stamp when the polling task began to
    /// wait.
    pub poll_ticks: Option<(usize, usize)>,
}

/// The number of wakers that an interest holds.
pub open spec fn tick_waker_count(v: TickInterestView) -> int {
    (if v.poller is Some { 1int } else { 0int }) + v.awaiters.len()
}

/// Whether an event arrived since the polling task began to wait.
pub open spec fn ticks_ready(v: TickInterestView) -> bool {
    v.poll_ticks matches Some((t, l)) && t != v.last_tick && l != v.last_tick
}

/// The interest after the task that `waker` wakes began to wait at `tick`.
pub open spec fn registered(v: TickInterestView, tick: usize, waker: Waker) -> TickInterestView {
    TickInterestView { poller: Some(waker), poll_ticks: Some((tick, v.last_tick)), ..v }
}

/// What a readiness poll with `waker` at `tick` does, from interest `v0` to
/// `v` with outcome `r`: a readiness found is consumed; otherwise `waker`'s
/// task becomes the poller, begins to wait at `tick`, and the poller it
/// replaced is handed back, except that a poller whose waker wakes the same
/// task stays as it is.
pub open spec fn tick_polls(
    v0: TickInterestView,
    v: TickInterestView,
    tick: usize,
    waker: Waker,
    eager: bool,
    r: Readiness,
) -> bool {
    if finds_ready(v0, eager) {
        r is Ready && v == TickInterestView { poll_ticks: None, ..v0 }
    } else {
        ||| r == (Readiness::Pending { register: tick_waker_count(v0) == 0, previous: v0.poller })
            && v == registered(v0, tick, waker)
        ||| r == (Readiness::Pending { register: false, previous: None }) && v0.poller is Some
            && v == v0
    }
}

/// The interest after an event at `tick`: every waiting task was handed
/// out, and the direction bears the tick's stamp.
pub open spec fn stamped(v: TickInterestView, tick: usize) -> TickInterestView {
    TickInterestView {
        poller: None,
        awaiters: Seq::new(v.awaiters.len(), |i: int| None::<Waker>),
        last_tick: tick,
        ..v
    }
}

/// Whether a poll finds the direction ready: an event arrived since the
/// polling task began to wait; when `eager`, also when no task waited yet.
pub open spec fn finds_ready(v: TickInterestView, eager: bool) -> bool {
    ticks_ready(v) || (eager && v.poll_ticks is None)
}

/// The interest in one direction of a source.
pub struct TickInterest {
    poller: Option<Waker>,
    awaiters: Vec<Option<Waker>>,
    last_tick: usize,
    poll_ticks: Option<(usize, usize)>,
}

impl TickInterest {
    pub closed spec fn view(&self) -> TickInterestView {
        TickInterestView {
            poller: self.poller,
            awaiters: self.awaiters@,
            last_tick: self.last_tick,
            poll_ticks: self.poll_ticks,
        }
    }

    /// The wakers that an event hands out: the other waiting tasks', in
    /// order, then the polling task's.
    pub open spec fn handed_out(&self) -> Seq<Waker> {
        present(self.view().awaiters) + match self.view().poller {
            Some(w) => seq![w],
            None => Seq::empty(),
        }
    }

    pub closed spec fn wf(&self) -> bool {
        self.awaiters@.len() < usize::MAX
    }

    /// No interest, and no event yet.
    pub fn new() -> (i: TickInterest)
        ensures
            i.wf(),
            i.view() == (TickInterestView {
                poller: None,
                awaiters: Seq::empty(),
                last_tick: 0,
                poll_ticks: None,
            }),
    {
        TickInterest { poller: None, awaiters: Vec::new(), last_tick: 0, poll_ticks: None }
    }

    /// Whether any task waits in this direction.
    pub fn has_interest(&self) -> (r: bool)
        requires
            self.wf(),
        ensures
            r == (tick_waker_count(self.view()) != 0),
    {
        (if self.poller.is_some() { 1usize } else { 0usize }) + self.awaiters.len() != 0
    }

    /// Polls for readiness at `tick` on behalf of the task that `waker`
    /// wakes: ready when an event arrived since the polling task began to
    /// wait (or, when `eager`, when no task waited yet), which clears the
    /// record; otherwise the task waits. When `waker` wakes the task that
    /// already polls, nothing changes; else the task replaces it, with
    /// `waker` (the poller it replaced is handed back in `previous`, to be
    /// woken), and begins to wait at `tick`.
    pub fn poll_ready(&mut self, tick: usize, waker: Waker, eager: bool) -> (r: Readiness)
        requires
            old(self).wf(),
        ensures
            final(self).wf(),
            tick_polls(old(self).view(), final(self).view(), tick, waker, eager, r),
    {
        let ready = match self.poll_ticks {
            Some((t, l)) => t != self.last_tick && l != self.last_tick,
            None => eager,
        };
        if ready {
            self.poll_ticks = None;
            return Readiness::Ready;
        }
        let should_register = !self.has_interest();
        match &self.poller {
            Some(current) => {
                if will_wake(current, &waker) {
                    return Readiness::Pending { register: false, previous: None };
                }
            },
            None => {},
        }
        let previous = self.poller.take();
        self.poller = Some(waker);
        self.poll_ticks = Some((tick, self.last_tick));
        Readiness::Pending { register: should_register, previous }
    }

    /// Records an event at `tick`: hands every waiting task's waker to
    /// `wakers` (the other waiting tasks' first, in order, then the polling
    /// task's) and stamps the direction with `tick`.
    pub fn take(&mut self, wakers: &mut Vec<Waker>, tick: usize)
        requires
            old(self).wf(),
        ensures
            final(self).wf(),
            final(self).view() == stamped(old(self).view(), tick),
            final(wakers)@ == old(wakers)@ + old(self).handed_out(),
    {
        hand_out(&mut self.awaiters, &mut self.poller, wakers);
        self.last_tick = tick;
    }
}

/// What the bookkeeping reads of a source.
pub struct TickSourceView {
    pub raw: i32,
    pub key: usize,
    pub read: TickInterestView,
    pub write: TickInterestView,
}

/// The interest with the operating system that a source's waiting tasks
/// call for.
pub open spec fn tick_interest_event(s: TickSourceView) -> Event {
    Event {
        key: s.key,
        readable: tick_waker_count(s.read) != 0,
        writable: tick_waker_count(s.write) != 0,
    }
}

/// The view of a newly registered source.
pub open spec fn fresh_source(raw: i32, key: usize) -> TickSourceView {
    TickSourceView {
        raw: raw,
        key: key,
        read: TickInterestView { poller: None, awaiters: Seq::empty(), last_tick: 0, poll_ticks: None },
        write: TickInterestView { poller: None, awaiters: Seq::empty(), last_tick: 0, poll_ticks: None },
    }
}

/// No stamp or record of a source is later than `tick`.
pub open spec fn not_after(v: TickInterestView, tick: usize) -> bool {
    &&& v.last_tick <= tick
    &&& v.poll_ticks matches Some((t, l)) ==> t <= tick && l <= tick
}

/// A registered I/O source.
pub struct TickSource {
    raw: i32,
    key: usize,
    read: TickInterest,
    write: TickInterest,
}

impl TickSource {
    pub closed spec fn view(&self) -> TickSourceView {
        TickSourceView { raw: self.raw, key: self.key, read: self.read.view(), write: self.write.view() }
    }

    pub closed spec fn wf(&self) -> bool {
        self.read.wf() && self.write.wf()
    }

    /// A source with no interest.
    pub fn new(raw: i32, key: usize) -> (s: TickSource)
        ensures
            s.wf(),
            s.view() == fresh_source(raw, key),
    {
        TickSource { raw, key, read: TickInterest::new(), write: TickInterest::new() }
    }

    /// The interest that the source's waiting tasks call for.
    pub fn event(&self) -> (e: Event)
        requires
            self.wf(),
        ensures
            e == tick_interest_event(self.view()),
    {
        Event { key: self.key, readable: self.read.has_interest(), writable: self.write.has_interest() }
    }
}

/// The sources of a runtime by key, and the current tick.
pub struct TickReactor {
    tick: usize,
    sources: HashMap<usize, TickSource>,
}

impl TickReactor {
    pub closed spec fn view(&self) -> Map<usize, TickSourceView> {
        self.sources@.map_values(|s: TickSource| s.view())
    }

    /// The current tick.
    pub closed spec fn tick(&self) -> usize {
        self.tick
    }

    /// The wakers that `event` hands out, from the source under its key:
    /// those of reading, then those of writing, for each direction that it
    /// reports.
    pub closed spec fn woken_by(&self, event: Event) -> Seq<Waker> {
        (if event.readable {
            self.sources@[event.key].read.handed_out()
        } else {
            Seq::empty()
        }) + (if event.writable {
            self.sources@[event.key].write.handed_out()
        } else {
            Seq::empty()
        })
    }

    /// Every source is well formed, and no stamp or record is later than
    /// the current tick.
    pub closed spec fn wf(&self) -> bool {
        forall|k: usize| #[trigger] self.sources@.contains_key(k) ==> {
            &&& self.sources@[k].wf()
            &&& not_after(self.sources@[k].view().read, self.tick)
            &&& not_after(self.sources@[k].view().write, self.tick)
        }
    }

    /// A reactor with no sources, at tick zero.
    pub fn new() -> (r: TickReactor)
        ensures
            r.wf(),
            r.view() == Map::<usize, TickSourceView>::empty(),
            r.tick() == 0,
    {
        let r = TickReactor { tick: 0, sources: HashMap::new() };
        proof {
            assert(r.view() =~= Map::<usize, TickSourceView>::empty());
        }
        r
    }

    /// Registers a source under the next key (the number of registered
    /// sources) and returns that key.
    pub fn insert_source(&mut self, raw: i32) -> (key: usize)
        requires
            old(self).wf(),
        ensures
            final(self).wf(),
            final(self).tick() == old(self).tick(),
            key == old(self).view().dom().len(),
            final(self).view() == old(self).view().insert(key, fresh_source(raw, key)),
    {
        proof {
            assert(self.view().dom() =~= self.sources@.dom());
        }
        let key = self.sources.len();
        self.sources.insert(key, TickSource::new(raw, key));
        proof {
            assert(self.view() =~= old(self).view().insert(key, fresh_source(raw, key)));
        }
        key
    }

    /// Unregisters the source under `key` and returns its raw handle.
    pub fn remove_source(&mut self, key: usize) -> (raw: i32)
        requires
            old(self).wf(),
            old(self).view().contains_key(key),
        ensures
            final(self).wf(),
            final(self).tick() == old(self).tick(),
            raw == old(self).view()[key].raw,
            final(self).view() == old(self).view().remove(key),
    {
        let source = self.sources.remove(&key).unwrap();
        proof {
            assert(self.view() =~= old(self).view().remove(key));
        }
        source.raw
    }

    /// Polls the source under `key` for readiness in `direction` at the
    /// current tick; see [`TickInterest::poll_ready`]. The returned event is
    /// the source's interest afterwards, to be registered when the outcome
    /// asks for it.
    pub fn poll_ready(&mut self, key: usize, direction: Direction, waker: Waker, eager: bool) -> (r: (
        Readiness,
        Event,
    ))
        requires
            old(self).wf(),
            old(self).view().contains_key(key),
        ensures
            final(self).wf(),
            final(self).tick() == old(self).tick(),
            final(self).view().dom() == old(self).view().dom(),
            forall|k: usize| #[trigger] old(self).view().contains_key(k) && k != key ==> final(self).view()[k]
                == old(self).view()[k],
            r.1 == tick_interest_event(final(self).view()[key]),
            ({
                let s0 = old(self).view()[key];
                let s = final(self).view()[key];
                let v0 = if direction == Direction::Read { s0.read } else { s0.write };
                let v = if direction == Direction::Read { s.read } else { s.write };
                &&& s.raw == s0.raw && s.key == s0.key
                &&& direction == Direction::Read ==> s.write == s0.write
                &&& direction == Direction::Write ==> s.read == s0.read
                &&& tick_polls(v0, v, old(self).tick(), waker, eager, r.0)
            }),
    {
        let mut source = self.sources.remove(&key).unwrap();
        let r = match direction {
            Direction::Read => source.read.poll_ready(self.tick, waker, eager),
            Direction::Write => source.write.poll_ready(self.tick, waker, eager),
        };
        let e = source.event();
        self.sources.insert(key, source);
        proof {
            assert(self.view().dom() =~= old(self).view().dom());
            assert forall|k: usize| #[trigger] self.sources@.contains_key(k) implies {
                &&& self.sources@[k].wf()
                &&& not_after(self.sources@[k].view().read, self.tick)
                &&& not_after(self.sources@[k].view().write, self.tick)
            } by {
                if k != key {
                    assert(old(self).sources@.contains_key(k));
                }
            }
        }
        (r, e)
    }

    /// Starts a round of event collection: the tick advances, and is
    /// returned.
    pub fn next_tick(&mut self) -> (tick: usize)
        requires
            old(self).wf(),
            old(self).tick() < usize::MAX,
        ensures
            final(self).wf(),
            tick == old(self).tick() + 1,
            final(self).tick() == tick,
            final(self).view() == old(self).view(),
    {
        self.tick = self.tick + 1;
        proof {
            assert forall|k: usize| #[trigger] self.sources@.contains_key(k) implies {
                &&& self.sources@[k].wf()
                &&& not_after(self.sources@[k].view().read, self.tick)
                &&& not_after(self.sources@[k].view().write, self.tick)
            } by {
                assert(old(self).sources@.contains_key(k));
            }
        }
        self.tick
    }

    /// Records an event reported by the operating system in the current
    /// round: the waiting tasks of the source under its key are handed to
    /// `wakers`, and each ready direction is stamped with the current tick.
    /// Returns the interest to register again, if the source still has
    /// waiting tasks; an event for a key with no source is ignored.
    pub fn dispatch(&mut self, event: &Event, wakers: &mut Vec<Waker>) -> (reregister: Option<Event>)
        requires
            old(self).wf(),
        ensures
            final(self).wf(),
            final(self).tick() == old(self).tick(),
            final(self).view().dom() == old(self).view().dom(),
            forall|k: usize|
                #[trigger] old(self).view().contains_key(k) && k != event.key ==> final(self).view()[k]
                    == old(self).view()[k],
            !old(self).view().contains_key(event.key) ==> reregister is None && final(self).view()
                == old(self).view() && final(wakers)@ == old(wakers)@,
            old(self).view().contains_key(event.key) ==> ({
                let s0 = old(self).view()[event.key];
                let s = final(self).view()[event.key];
                &&& s.raw == s0.raw && s.key == s0.key
                &&& s.read == (if event.readable { stamped(s0.read, old(self).tick()) } else { s0.read })
                &&& s.write == (if event.writable {
                    stamped(s0.write, old(self).tick())
                } else {
                    s0.write
                })
                &&& reregister == (if tick_waker_count(s.read) != 0 || tick_waker_count(s.write) != 0 {
                    Some(tick_interest_event(s))
                } else {
                    None
                })
                &&& final(wakers)@ == old(wakers)@ + old(self).woken_by(*event)
            }),
    {
        if !self.sources.contains_key(&event.key) {
            return None;
        }
        let ghost w0 = wakers@;
        let mut source = self.sources.remove(&event.key).unwrap();
        if event.readable {
            source.read.take(wakers, self.tick);
        }
        if event.writable {
            source.write.take(wakers, self.tick);
        }
        proof {
            assert(wakers@ =~= w0 + old(self).woken_by(*event));
        }
        let again = source.read.has_interest() || source.write.has_interest();
        let e = source.event();
        self.sources.insert(event.key, source);
        proof {
            assert(self.view().dom() =~= old(self).view().dom());
            assert forall|k: usize| #[trigger] self.sources@.contains_key(k) implies {
                &&& self.sources@[k].wf()
                &&& not_after(self.sources@[k].view().read, self.tick)
                &&& not_after(self.sources@[k].view().write, self.tick)
            } by {
                if k != event.key {
                    assert(old(self).sources@.contains_key(k));
                }
            }
        }
        if again {
            Some(e)
        } else {
            None
        }
    }
}

/// A task that begins to wait is not ready until an event arrives, and it
/// is ready once an event arrives in a later round.
pub proof fn law_ready_after_later_event(v: TickInterestView, tick: usize, later: usize, waker: Waker)
    requires
        not_after(v, tick),
        tick < later,
    ensures
        !ticks_ready(registered(v, tick, waker)),
        ticks_ready(stamped(registered(v, tick, waker), later)),
{
}

/// A readiness is consumed by the poll that finds it: the next poll waits
/// until a later event (in the non-eager mode).
pub proof fn law_readiness_consumed(v: TickInterestView)
    requires
        ticks_ready(v),
    ensures
        !finds_ready(TickInterestView { poll_ticks: None, ..v }, false),
{
}

} // verus!
