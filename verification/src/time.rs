//! Timers: sleeps, intervals and timeouts, on top of a [`Clock`].
//!
//! Instants and durations are nanoseconds on the runtime's monotonic clock;
//! the caller reads the clock and passes `now`.
use vstd::prelude::*;
use std::task::Waker;
use crate::clock::{Clock, due_in_order};

verus! {

/// The state of a sleep: its deadline, and the alarm that it set, if any.
pub struct Sleep {
    deadline: u64,
    alarm: Option<usize>,
}

/// Puts the current task to sleep until `deadline`.
pub fn sleep_until(deadline: u64) -> (s: Sleep)
    ensures
        s.deadline_at() == deadline,
        s.alarm_id() is None,
{
    Sleep { deadline, alarm: None }
}

/// Puts the current task to sleep for `duration` from `now`.
pub fn sleep(now: u64, duration: u64) -> (s: Sleep)
    requires
        now + duration <= u64::MAX,
    ensures
        s.deadline_at() == now + duration,
        s.alarm_id() is None,
{
    sleep_until(now + duration)
}

/// What a poll before the deadline does, from sleep `s0` on clock `c0` to
/// `s` on `c`: the sleep keeps its deadline and has an alarm set, which
/// wakes `waker`. A set alarm keeps its id and takes `waker`; otherwise a
/// new alarm with `waker` is set under the clock's next id.
pub open spec fn waits(s0: Sleep, c0: Clock, s: Sleep, c: Clock, waker: Waker) -> bool {
    &&& s.deadline_at() == s0.deadline_at()
    &&& s.armed(c)
    &&& if s0.armed(c0) {
        &&& s.alarm_id() == s0.alarm_id()
        &&& c.next_id() == c0.next_id()
        &&& c.alarms() == c0.alarms().insert((s0.deadline_at(), s0.alarm_id().unwrap()), waker)
    } else {
        &&& s.alarm_id() == Some(c0.next_id() as usize)
        &&& c.next_id() == c0.next_id() + 1
        &&& !c0.alarms().contains_key((s0.deadline_at(), c0.next_id() as usize))
        &&& c.alarms() == c0.alarms().insert((s0.deadline_at(), c0.next_id() as usize), waker)
    }
}

/// What moving the deadline to `deadline` does, from sleep `s0` on clock
/// `c0` to `s` on `c`: a set alarm moves with it, keeping its id and waker;
/// otherwise the sleep forgets its alarm and the clock is unchanged.
pub open spec fn moved(s0: Sleep, c0: Clock, deadline: u64, s: Sleep, c: Clock) -> bool {
    &&& s.deadline_at() == deadline
    &&& if s0.armed(c0) {
        let id = s0.alarm_id().unwrap();
        &&& s.alarm_id() == Some(id)
        &&& s.armed(c)
        &&& c.next_id() == c0.next_id()
        &&& c.alarms() == c0.alarms().remove((s0.deadline_at(), id)).insert(
            (deadline, id),
            c0.alarms()[(s0.deadline_at(), id)],
        )
    } else {
        &&& s.alarm_id() is None
        &&& c == c0
    }
}

impl Sleep {
    pub closed spec fn deadline_at(&self) -> u64 {
        self.deadline
    }

    /// The id of the alarm that the sleep set, if any.
    pub closed spec fn alarm_id(&self) -> Option<usize> {
        self.alarm
    }

    /// The alarm that the sleep set, if any, is still set on `clock`.
    pub open spec fn registered(&self, clock: &Clock) -> bool {
        self.alarm_id() matches Some(id) ==> clock.alarms().contains_key((self.deadline_at(), id))
    }

    /// The sleep has an alarm set on `clock`.
    pub open spec fn armed(&self, clock: Clock) -> bool {
        self.alarm_id() matches Some(id) && clock.alarms().contains_key((self.deadline_at(), id))
    }

    /// Whether the alarm that the sleep set, if any, is still set on `clock`.
    pub fn is_registered(&self, clock: &Clock) -> (r: bool)
        requires
            clock.wf(),
        ensures
            r == self.registered(clock),
    {
        match &self.alarm {
            Some(id) => clock.has_alarm(*id, self.deadline),
            None => true,
        }
    }

    /// Whether the sleep has an alarm set on `clock`.
    pub fn is_armed(&self, clock: &Clock) -> (r: bool)
        requires
            clock.wf(),
        ensures
            r == self.armed(*clock),
    {
        match &self.alarm {
            Some(id) => clock.has_alarm(*id, self.deadline),
            None => false,
        }
    }

    /// Returns the instant at which the sleep completes.
    pub fn deadline(&self) -> (d: u64)
        ensures
            d == self.deadline_at(),
    {
        self.deadline
    }

    /// Moves the deadline. A set alarm moves with it; an alarm that has
    /// fired is forgotten, so that the next poll before the new deadline
    /// sets a new one.
    pub fn reset(&mut self, clock: &mut Clock, deadline: u64)
        requires
            old(clock).wf(),
        ensures
            final(clock).wf(),
            moved(*old(self), *old(clock), deadline, *final(self), *final(clock)),
    {
        let armed = self.is_armed(clock);
        if armed {
            match &self.alarm {
                Some(id) => {
                    clock.reset_alarm(*id, self.deadline, deadline);
                },
                None => {},
            }
        } else {
            self.alarm = None;
        }
        self.deadline = deadline;
    }

    /// Polls the sleep at `now` on behalf of the task that `waker` wakes:
    /// `Some(deadline)` once the deadline has passed, which touches nothing;
    /// otherwise `None`, and the sleep's alarm wakes `waker`: a set alarm
    /// takes it in place of the waker it held, and when no alarm is set (none
    /// yet, or it has fired) a new one is set with it.
    pub fn poll(&mut self, clock: &mut Clock, now: u64, waker: Waker) -> (ready: Option<u64>)
        requires
            old(clock).wf(),
            now < old(self).deadline_at() && !old(self).armed(*old(clock)) ==> old(clock).next_id()
                < usize::MAX,
        ensures
            final(clock).wf(),
            if now >= old(self).deadline_at() {
                &&& ready == Some(old(self).deadline_at())
                &&& *final(self) == *old(self)
                &&& *final(clock) == *old(clock)
            } else {
                &&& ready is None
                &&& waits(*old(self), *old(clock), *final(self), *final(clock), waker)
            },
    {
        if now >= self.deadline {
            return Some(self.deadline);
        }
        let deadline = self.deadline;
        let armed = self.is_armed(clock);
        if armed {
            match &self.alarm {
                Some(id) => {
                    clock.replace_alarm_waker(*id, deadline, waker);
                },
                None => {},
            }
        } else {
            let id = clock.insert_alarm(deadline, waker);
            self.alarm = Some(id);
        }
        None
    }

    /// What dropping the sleep does: its alarm, if set, is removed.
    pub fn cancel(self, clock: &mut Clock)
        requires
            old(clock).wf(),
        ensures
            final(clock).wf(),
            final(clock).next_id() == old(clock).next_id(),
            final(clock).alarms() == match self.alarm_id() {
                Some(id) => old(clock).alarms().remove((self.deadline_at(), id)),
                None => old(clock).alarms(),
            },
    {
        match &self.alarm {
            Some(id) => clock.remove_alarm(*id, self.deadline),
            None => {},
        }
    }
}

/// An interval timer.
pub struct Interval {
    sleep: Sleep,
    interval: u64,
}

/// Returns an interval that ticks every `interval`, the first time at `now`.
pub fn interval(now: u64, period: u64) -> (i: Interval)
    ensures
        i.next_tick() == now,
        i.sleep_state().deadline_at() == now,
        i.period() == period,
        i.sleep_state().alarm_id() is None,
{
    interval_at(now, period)
}

/// Returns an interval that ticks every `interval`, the first time at
/// `start`.
pub fn interval_at(start: u64, period: u64) -> (i: Interval)
    ensures
        i.next_tick() == start,
        i.sleep_state().deadline_at() == start,
        i.period() == period,
        i.sleep_state().alarm_id() is None,
{
    Interval { interval: period, sleep: sleep_until(start) }
}

impl Interval {
    /// The instant of the next tick: the deadline of the sleep that times
    /// it, at which its alarm is set.
    pub open spec fn next_tick(&self) -> u64 {
        self.sleep_state().deadline_at()
    }

    pub closed spec fn period(&self) -> u64 {
        self.interval
    }

    pub closed spec fn sleep_state(&self) -> Sleep {
        self.sleep
    }

    /// The period of the interval.
    pub fn tick_period(&self) -> (p: u64)
        ensures
            p == self.period(),
    {
        self.interval
    }

    /// Whether the alarm that the interval's sleep set is still set on
    /// `clock`.
    pub fn is_registered(&self, clock: &Clock) -> (r: bool)
        requires
            clock.wf(),
        ensures
            r == self.sleep_state().registered(clock),
    {
        self.sleep.is_registered(clock)
    }

    /// Whether the interval's sleep has an alarm set on `clock`.
    pub fn is_armed(&self, clock: &Clock) -> (r: bool)
        requires
            clock.wf(),
        ensures
            r == self.sleep_state().armed(*clock),
    {
        self.sleep.is_armed(clock)
    }

    /// The sleep that times the next tick.
    pub fn into_sleep(self) -> (s: Sleep)
        ensures
            s == self.sleep_state(),
    {
        self.sleep
    }

    /// Polls for the next tick at `now` on behalf of the task that `waker`
    /// wakes: once it is due, the next one is set one period after `now`
    /// (moving the alarm, if one is still set) and its instant returned;
    /// until then the sleep's alarm wakes `waker`'s task, as with
    /// [`Sleep::poll`].
    pub fn poll_tick(&mut self, clock: &mut Clock, now: u64, waker: Waker) -> (tick: Option<u64>)
        requires
            old(clock).wf(),
            now < old(self).next_tick() && !old(self).sleep_state().armed(*old(clock))
                ==> old(clock).next_id() < usize::MAX,
            now + old(self).period() <= u64::MAX,
        ensures
            final(clock).wf(),
            final(self).period() == old(self).period(),
            if now >= old(self).next_tick() {
                &&& tick == Some((now + old(self).period()) as u64)
                &&& final(self).next_tick() == now + old(self).period()
                &&& final(self).sleep_state().deadline_at() == now + old(self).period()
                &&& moved(
                    old(self).sleep_state(),
                    *old(clock),
                    (now + old(self).period()) as u64,
                    final(self).sleep_state(),
                    *final(clock),
                )
            } else {
                &&& tick is None
                &&& waits(
                    old(self).sleep_state(),
                    *old(clock),
                    final(self).sleep_state(),
                    *final(clock),
                    waker,
                )
            },
    {
        match self.sleep.poll(clock, now, waker) {
            None => None,
            Some(_) => {
                self.sleep.reset(clock, now + self.interval);
                Some(self.sleep.deadline)
            },
        }
    }
}

/// A future that fails with [`TimedOut`] if it does not complete by its
/// deadline.
pub struct Timeout<F> {
    future: F,
    sleep: Sleep,
}

/// Causes `future` to time out `duration` after `now`.
pub fn timeout<F>(now: u64, duration: u64, future: F) -> (t: Timeout<F>)
    requires
        now + duration <= u64::MAX,
    ensures
        t.deadline_at() == now + duration,
        t.sleep_state().deadline_at() == now + duration,
        t.inner() == future,
        t.sleep_state().alarm_id() is None,
{
    timeout_at(now + duration, future)
}

/// Causes `future` to time out at `deadline`.
pub fn timeout_at<F>(deadline: u64, future: F) -> (t: Timeout<F>)
    ensures
        t.deadline_at() == deadline,
        t.sleep_state().deadline_at() == deadline,
        t.inner() == future,
        t.sleep_state().alarm_id() is None,
{
    Timeout { future, sleep: sleep_until(deadline) }
}

impl<F> Timeout<F> {
    /// The deadline: that of the sleep that times it, at which its alarm
    /// is set.
    pub open spec fn deadline_at(&self) -> u64 {
        self.sleep_state().deadline_at()
    }

    pub closed spec fn inner(&self) -> F {
        self.future
    }

    pub closed spec fn sleep_state(&self) -> Sleep {
        self.sleep
    }

    /// The instant at which the timeout fails.
    pub fn deadline(&self) -> (d: u64)
        ensures
            d == self.deadline_at(),
    {
        self.sleep.deadline
    }

    /// Whether the alarm that the timeout's sleep set is still set on
    /// `clock`.
    pub fn is_registered(&self, clock: &Clock) -> (r: bool)
        requires
            clock.wf(),
        ensures
            r == self.sleep_state().registered(clock),
    {
        self.sleep.is_registered(clock)
    }

    /// Whether the timeout's sleep has an alarm set on `clock`.
    pub fn is_armed(&self, clock: &Clock) -> (r: bool)
        requires
            clock.wf(),
        ensures
            r == self.sleep_state().armed(*clock),
    {
        self.sleep.is_armed(clock)
    }

    /// The future that is timed.
    pub fn future_mut(&mut self) -> (f: &mut F)
        ensures
            *f == old(self).inner(),
            final(self).inner() == *final(f),
            final(self).sleep_state() == old(self).sleep_state(),
    {
        &mut self.future
    }

    /// Splits the timeout into the future and the sleep that times it.
    pub fn into_parts(self) -> (parts: (F, Sleep))
        ensures
            parts.0 == self.inner(),
            parts.1 == self.sleep_state(),
    {
        (self.future, self.sleep)
    }

    /// Decides a poll of the timeout at `now`, given what polling the future
    /// gave (`Some` when it completed): the future's output wins; otherwise
    /// the timeout fails once its deadline has passed.
    pub fn poll_deadline<O>(&mut self, output: Option<O>, clock: &mut Clock, now: u64, waker: Waker) -> (r: Option<Result<O, TimedOut>>)
        requires
            old(clock).wf(),
            output is None && now < old(self).deadline_at() && !old(self).sleep_state().armed(
                *old(clock),
            ) ==> old(clock).next_id() < usize::MAX,
        ensures
            final(clock).wf(),
            final(self).inner() == old(self).inner(),
            final(self).deadline_at() == old(self).deadline_at(),
            final(self).sleep_state().deadline_at() == old(self).deadline_at(),
            match output {
                Some(v) => {
                    &&& r == Some(Ok::<O, TimedOut>(v))
                    &&& *final(clock) == *old(clock)
                    &&& final(self).sleep_state() == old(self).sleep_state()
                },
                None => if now >= old(self).deadline_at() {
                    &&& r matches Some(Err(_))
                    &&& *final(clock) == *old(clock)
                    &&& final(self).sleep_state() == old(self).sleep_state()
                } else {
                    &&& r is None
                    &&& waits(
                        old(self).sleep_state(),
                        *old(clock),
                        final(self).sleep_state(),
                        *final(clock),
                        waker,
                    )
                },
            },
    {
        match output {
            Some(v) => Some(Ok(v)),
            None => match self.sleep.poll(clock, now, waker) {
                Some(_) => Some(Err(TimedOut { _priv: () })),
                None => None,
            },
        }
    }
}

/// Error returned by [`Timeout`].
#[derive(Debug, PartialEq, Eq)]
pub struct TimedOut {
    _priv: (),
}

impl TimedOut {
    /// What the error says.
    pub fn message(&self) -> (m: &'static str)
        ensures
            m@ == "future timed out"@,
    {
        "future timed out"
    }
}

// Laws of the timers.

/// A sleep that waited with `waker` is woken once its deadline has passed:
/// when the clock's past alarms are taken at any later `now`, the sleep's
/// alarm is among them, and it hands out `waker`.
pub proof fn law_sleep_alarm_wakes_poller(
    s0: Sleep,
    c0: Clock,
    s: Sleep,
    c: Clock,
    waker: Waker,
    now: u64,
    keys: Seq<(u64, usize)>,
)
    requires
        waits(s0, c0, s, c, waker),
        s.deadline_at() < now,
        due_in_order(c.alarms(), now, keys),
    ensures
        s.alarm_id() is Some,
        keys.contains((s.deadline_at(), s.alarm_id().unwrap())),
        c.alarms()[(s.deadline_at(), s.alarm_id().unwrap())] == waker,
{
}

} // verus!
