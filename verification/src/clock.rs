//! The alarms of the runtime's timers.
//!
//! Instants are nanoseconds on the runtime's monotonic clock, counted from a
//! starting point that the runtime picks. An alarm is kept under its instant
//! and an id that no other alarm of the clock has, so that alarms fire in
//! the order of their instants, and alarms set for the same instant in the
//! order in which they were set.
use vstd::prelude::*;
use std::collections::BTreeMap;
use std::task::Waker;
use crate::waker::clone_waker;

verus! {

broadcast use vstd::laws_cmp::group_laws_cmp;

/// The order of alarm keys, as std documents it for tuples: by instant,
/// then by id.
pub open spec fn key_lt(a: (u64, usize), b: (u64, usize)) -> bool {
    a.0 < b.0 || (a.0 == b.0 && a.1 < b.1)
}

/// Calls `BTreeMap::first_key_value` and keeps the key: the smallest key of
/// the map, if it has any.
#[verifier::external_body]
fn first_key(alarms: &BTreeMap<(u64, usize), Waker>) -> (first: Option<(u64, usize)>)
    ensures
        first is None <==> alarms@.dom() == Set::<(u64, usize)>::empty(),
        first matches Some(k) ==> alarms@.contains_key(k) && forall|j: (u64, usize)|
            #[trigger] alarms@.contains_key(j) ==> j == k || key_lt(k, j),
{
    alarms.first_key_value().map(|(k, _)| *k)
}

/// Whether `k` is the earliest of the alarms.
pub open spec fn is_earliest(alarms: Map<(u64, usize), Waker>, k: (u64, usize)) -> bool {
    alarms.contains_key(k) && forall|j: (u64, usize)| #[trigger] alarms.contains_key(j) ==> j == k
        || key_lt(k, j)
}

/// The alarms that are still to come at `now`.
pub open spec fn pending_at(alarms: Map<(u64, usize), Waker>, now: u64) -> Map<
    (u64, usize),
    Waker,
> {
    alarms.restrict(alarms.dom().filter(|k: (u64, usize)| k.0 >= now))
}

/// Whether `keys` is strictly increasing.
pub open spec fn increasing(keys: Seq<(u64, usize)>) -> bool {
    forall|i: int, j: int| 0 <= i < j < keys.len() ==> key_lt(#[trigger] keys[i], #[trigger] keys[j])
}

/// Whether `keys` are exactly the alarms due before `now`, earliest first.
pub open spec fn due_in_order(alarms: Map<(u64, usize), Waker>, now: u64, keys: Seq<(u64, usize)>) -> bool {
    &&& increasing(keys)
    &&& forall|k: (u64, usize)| #[trigger] keys.contains(k) <==> (alarms.contains_key(k) && k.0 < now)
}

/// How long to wait, given the caller's limit and the time until the next
/// alarm (`None`: no limit): the shorter of the two.
pub open spec fn wait_for(limit: Option<u64>, next: Option<u64>) -> Option<u64> {
    match (limit, next) {
        (None, n) => n,
        (Some(d), None) => Some(d),
        (Some(d), Some(n)) => Some(if n < d { n } else { d }),
    }
}

/// The alarms of a runtime.
pub struct Clock {
    next_id: usize,
    alarms: BTreeMap<(u64, usize), Waker>,
}

impl Clock {
    /// Every alarm's id was handed out before.
    pub closed spec fn wf(&self) -> bool {
        forall|k: (u64, usize)| #[trigger] self.alarms@.contains_key(k) ==> k.1 < self.next_id
    }

    /// The alarms, each under its instant and id, with the waker to wake.
    pub closed spec fn alarms(&self) -> Map<(u64, usize), Waker> {
        self.alarms@
    }

    /// The id that the next alarm gets.
    pub closed spec fn next_id(&self) -> nat {
        self.next_id as nat
    }

    /// Creates a clock with no alarms.
    pub fn new() -> (clock: Self)
        ensures
            clock.wf(),
            clock.alarms() == Map::<(u64, usize), Waker>::empty(),
            clock.next_id() == 0,
    {
        Clock { next_id: 0, alarms: BTreeMap::new() }
    }

    /// The id that the next alarm will get.
    pub fn next_alarm_id(&self) -> (id: usize)
        ensures
            id == self.next_id(),
    {
        self.next_id
    }

    /// Whether an alarm with this id is set at `at`.
    pub fn has_alarm(&self, id: usize, at: u64) -> (r: bool)
        ensures
            r == self.alarms().contains_key((at, id)),
    {
        self.alarms.contains_key(&(at, id))
    }

    /// Sets an alarm at `at` that wakes `waker`, and returns its id.
    pub fn insert_alarm(&mut self, at: u64, waker: Waker) -> (id: usize)
        requires
            old(self).wf(),
            old(self).next_id() < usize::MAX,
        ensures
            final(self).wf(),
            id == old(self).next_id(),
            !old(self).alarms().contains_key((at, id)),
            final(self).alarms() == old(self).alarms().insert((at, id), waker),
            final(self).next_id() == old(self).next_id() + 1,
    {
        let id = self.next_id;
        self.alarms.insert((at, id), waker);
        self.next_id = self.next_id + 1;
        id
    }

    /// Sets an alarm at `at` that wakes the task of `waker`, and returns its
    /// id.
    pub fn insert(&mut self, at: u64, waker: &Waker) -> (id: usize)
        requires
            old(self).wf(),
            old(self).next_id() < usize::MAX,
        ensures
            final(self).wf(),
            id == old(self).next_id(),
            final(self).alarms().dom() == old(self).alarms().dom().insert((at, id)),
            forall|k: (u64, usize)| #[trigger] old(self).alarms().contains_key(k) ==> final(self).alarms()[k]
                == old(self).alarms()[k],
            final(self).next_id() == old(self).next_id() + 1,
    {
        self.insert_alarm(at, clone_waker(waker))
    }

    /// Removes the alarm with this id set at `at`, which must be set.
    pub fn remove(&mut self, at: u64, id: usize)
        requires
            old(self).wf(),
            old(self).alarms().contains_key((at, id)),
        ensures
            final(self).wf(),
            final(self).alarms() == old(self).alarms().remove((at, id)),
            final(self).next_id() == old(self).next_id(),
    {
        self.remove_alarm(id, at)
    }

    /// Removes the alarm with this id set at `at`, if there is one.
    pub fn remove_alarm(&mut self, id: usize, at: u64)
        requires
            old(self).wf(),
        ensures
            final(self).wf(),
            final(self).alarms() == old(self).alarms().remove((at, id)),
            final(self).next_id() == old(self).next_id(),
    {
        self.alarms.remove(&(at, id));
    }

    /// Moves the alarm with this id from `old_at` to `new_at`.
    pub fn reset_alarm(&mut self, id: usize, old_at: u64, new_at: u64)
        requires
            old(self).wf(),
            old(self).alarms().contains_key((old_at, id)),
        ensures
            final(self).wf(),
            final(self).alarms() == old(self).alarms().remove((old_at, id)).insert(
                (new_at, id),
                old(self).alarms()[(old_at, id)],
            ),
            final(self).next_id() == old(self).next_id(),
    {
        let waker = self.alarms.remove(&(old_at, id)).unwrap();
        self.alarms.insert((new_at, id), waker);
    }

    /// Makes the alarm with this id, set at `deadline`, wake `waker`.
    pub fn replace_alarm_waker(&mut self, id: usize, deadline: u64, waker: Waker)
        requires
            old(self).wf(),
            old(self).alarms().contains_key((deadline, id)),
        ensures
            final(self).wf(),
            final(self).alarms() == old(self).alarms().insert((deadline, id), waker),
            final(self).next_id() == old(self).next_id(),
    {
        self.alarms.insert((deadline, id), waker);
    }

    /// Takes the alarms due before `cutoff` and appends their wakers to
    /// `wakers`, earliest first. Returns how long the runtime may sleep at
    /// `now`, in whole milliseconds: none at all if an alarm was due, until
    /// the earliest remaining alarm otherwise, and without limit (`None`)
    /// when no alarm is left.
    fn take_before(&mut self, cutoff: u64, now: u64, wakers: &mut Vec<Waker>) -> (sleep: Option<u64>)
        requires
            old(self).wf(),
            now <= cutoff,
        ensures
            final(self).wf(),
            final(self).next_id() == old(self).next_id(),
            final(self).alarms() == pending_at(old(self).alarms(), cutoff),
            exists|keys: Seq<(u64, usize)>|
                due_in_order(old(self).alarms(), cutoff, keys) && final(wakers)@ == old(wakers)@ + keys.map_values(
                    |k: (u64, usize)| old(self).alarms()[k],
                ) && sleep == (if keys.len() > 0 {
                    Some(0u64)
                } else if final(self).alarms().dom() == Set::<(u64, usize)>::empty() {
                    None
                } else {
                    Some(
                        ((choose|k: (u64, usize)| is_earliest(final(self).alarms(), k)).0 - now) as u64
                            / 1_000_000,
                    )
                }),
    {
        let ghost m0 = self.alarms@;
        let ghost w0 = wakers@;
        let ghost mut keys: Seq<(u64, usize)> = Seq::empty();
        let mut fired = false;
        loop
            invariant
                self.wf(),
                self.next_id == old(self).next_id,
                m0 == old(self).alarms@,
                w0 == old(wakers)@,
                increasing(keys),
                fired == (keys.len() > 0),
                forall|k: (u64, usize)| #[trigger] keys.contains(k) ==> m0.contains_key(k) && k.0 < cutoff,
                forall|k: (u64, usize)|
                    #[trigger] self.alarms@.contains_key(k) <==> (m0.contains_key(k) && !keys.contains(k)),
                forall|k: (u64, usize)| #[trigger] self.alarms@.contains_key(k) ==> self.alarms@[k] == m0[k],
                forall|k: (u64, usize), i: int|
                    0 <= i < keys.len() && #[trigger] self.alarms@.contains_key(k) ==> key_lt(#[trigger] keys[i], k),
                wakers@ == w0 + keys.map_values(|k: (u64, usize)| m0[k]),
            ensures
                self.wf(),
                self.next_id == old(self).next_id,
                increasing(keys),
                fired == (keys.len() > 0),
                forall|k: (u64, usize)| #[trigger] keys.contains(k) ==> m0.contains_key(k) && k.0 < cutoff,
                forall|k: (u64, usize)|
                    #[trigger] self.alarms@.contains_key(k) <==> (m0.contains_key(k) && !keys.contains(k)),
                forall|k: (u64, usize)| #[trigger] self.alarms@.contains_key(k) ==> self.alarms@[k] == m0[k],
                forall|k: (u64, usize)| #[trigger] self.alarms@.contains_key(k) ==> k.0 >= cutoff,
                wakers@ == w0 + keys.map_values(|k: (u64, usize)| m0[k]),
            decreases self.alarms@.dom().len(),
        {
            match first_key(&self.alarms) {
                None => {
                    break;
                },
                Some(k) => {
                    if k.0 >= cutoff {
                        break;
                    }
                    let waker = self.alarms.remove(&k).unwrap();
                    wakers.push(waker);
                    proof {
                        let keys2 = keys.push(k);
                        assert forall|i: int, j: int| 0 <= i < j < keys2.len() implies key_lt(
                            #[trigger] keys2[i],
                            #[trigger] keys2[j],
                        ) by {
                            if j == keys.len() {
                                assert(keys2[i] == keys[i]);
                            } else {
                                assert(keys2[i] == keys[i] && keys2[j] == keys[j]);
                            }
                        }
                        assert forall|kk: (u64, usize)| #[trigger] keys2.contains(kk) implies m0.contains_key(kk)
                            && kk.0 < cutoff by {
                            if kk != k {
                                let i = choose|i: int| 0 <= i < keys2.len() && keys2[i] == kk;
                                assert(keys[i] == kk);
                                assert(keys.contains(kk));
                            }
                        }
                        assert forall|kk: (u64, usize)| #[trigger] self.alarms@.contains_key(kk) <==> (
                        m0.contains_key(kk) && !keys2.contains(kk)) by {
                            if keys2.contains(kk) && kk != k {
                                let i = choose|i: int| 0 <= i < keys2.len() && keys2[i] == kk;
                                assert(keys[i] == kk);
                                assert(keys.contains(kk));
                            }
                            if keys.contains(kk) {
                                let i = choose|i: int| 0 <= i < keys.len() && keys[i] == kk;
                                assert(keys2[i] == kk);
                            }
                            assert(keys2[keys.len() as int] == k);
                        }
                        assert forall|kk: (u64, usize), i: int|
                            0 <= i < keys2.len() && #[trigger] self.alarms@.contains_key(kk) implies key_lt(
                            #[trigger] keys2[i],
                            kk,
                        ) by {
                            assert(old(self).alarms@.contains_key(kk) || true);
                            if i < keys.len() {
                                assert(keys2[i] == keys[i]);
                            }
                        }
                        assert(keys2.map_values(|kk: (u64, usize)| m0[kk]) =~= keys.map_values(
                            |kk: (u64, usize)| m0[kk],
                        ).push(m0[k]));
                        keys = keys2;
                    }
                    fired = true;
                },
            }
        }
        proof {
            assert(due_in_order(m0, cutoff, keys)) by {
                assert forall|k: (u64, usize)| (m0.contains_key(k) && k.0 < cutoff) implies #[trigger] keys.contains(k) by {
                    if !keys.contains(k) {
                        assert(self.alarms@.contains_key(k));
                    }
                }
            }
            assert(self.alarms@ =~= pending_at(m0, cutoff)) by {
                assert forall|k: (u64, usize)| #[trigger] self.alarms@.contains_key(k) <==> pending_at(m0, cutoff).contains_key(k) by {
                    if m0.contains_key(k) && k.0 >= cutoff {
                        assert(!keys.contains(k));
                    }
                }
            }
        }
        let sleep = if fired {
            Some(0)
        } else {
            match first_key(&self.alarms) {
                None => None,
                Some(k) => {
                    proof {
                        assert(is_earliest(self.alarms@, k));
                        let c = choose|c: (u64, usize)| is_earliest(self.alarms@, c);
                        assert(is_earliest(self.alarms@, c));
                        if c != k {
                            assert(key_lt(k, c));
                            assert(key_lt(c, k));
                        }
                        assert(self.alarms@.contains_key(k));
                    }
                    Some((k.0 - now) / 1_000_000)
                },
            }
        };
        proof {
            assert(keys.map_values(|k: (u64, usize)| old(self).alarms()[k]) =~= keys.map_values(
                |k: (u64, usize)| m0[k],
            ));
            assert(due_in_order(old(self).alarms(), cutoff, keys) && wakers@ == old(wakers)@ + keys.map_values(
                |k: (u64, usize)| old(self).alarms()[k],
            ));
        }
        sleep
    }

    /// Takes the alarms due before `now` (those set for an earlier instant)
    /// and appends their wakers to `wakers`, earliest first. Returns how
    /// long the runtime may sleep in whole milliseconds: none at all if an
    /// alarm was due, until the earliest remaining alarm otherwise, and
    /// without limit (`None`) when no alarm is left.
    pub fn take_past_alarms(&mut self, now: u64, wakers: &mut Vec<Waker>) -> (sleep: Option<u64>)
        requires
            old(self).wf(),
        ensures
            final(self).wf(),
            final(self).next_id() == old(self).next_id(),
            final(self).alarms() == pending_at(old(self).alarms(), now),
            exists|keys: Seq<(u64, usize)>|
                due_in_order(old(self).alarms(), now, keys) && final(wakers)@ == old(wakers)@ + keys.map_values(
                    |k: (u64, usize)| old(self).alarms()[k],
                ) && sleep == (if keys.len() > 0 {
                    Some(0u64)
                } else if final(self).alarms().dom() == Set::<(u64, usize)>::empty() {
                    None
                } else {
                    Some(
                        ((choose|k: (u64, usize)| is_earliest(final(self).alarms(), k)).0 - now) as u64
                            / 1_000_000,
                    )
                }),
    {
        self.take_before(now, now, wakers)
    }

    /// Takes the alarms due before `now` into `wakers` and returns how long
    /// the runtime may sleep; the same as `take_past_alarms`.
    pub fn take_ready(&mut self, now: u64, wakers: &mut Vec<Waker>) -> (sleep: Option<u64>)
        requires
            old(self).wf(),
        ensures
            final(self).wf(),
            final(self).next_id() == old(self).next_id(),
            final(self).alarms() == pending_at(old(self).alarms(), now),
            exists|keys: Seq<(u64, usize)>|
                due_in_order(old(self).alarms(), now, keys) && final(wakers)@ == old(wakers)@ + keys.map_values(
                    |k: (u64, usize)| old(self).alarms()[k],
                ) && sleep == (if keys.len() > 0 {
                    Some(0u64)
                } else if final(self).alarms().dom() == Set::<(u64, usize)>::empty() {
                    None
                } else {
                    Some(
                        ((choose|k: (u64, usize)| is_earliest(final(self).alarms(), k)).0 - now) as u64
                            / 1_000_000,
                    )
                }),
    {
        self.take_before(now, now, wakers)
    }

    /// Takes the alarms that have expired at `now` (those set for `now` or
    /// earlier) and appends their wakers to `wakers`, earliest first.
    /// Returns how long the runtime may sleep, as `take_past_alarms` does.
    pub fn take_expired(&mut self, now: u64, wakers: &mut Vec<Waker>) -> (sleep: Option<u64>)
        requires
            old(self).wf(),
            now < u64::MAX,
        ensures
            final(self).wf(),
            final(self).next_id() == old(self).next_id(),
            final(self).alarms() == pending_at(old(self).alarms(), (now + 1) as u64),
            exists|keys: Seq<(u64, usize)>|
                due_in_order(old(self).alarms(), (now + 1) as u64, keys) && final(wakers)@ == old(
                    wakers,
                )@ + keys.map_values(|k: (u64, usize)| old(self).alarms()[k]) && sleep == (if keys.len()
                    > 0 {
                    Some(0u64)
                } else if final(self).alarms().dom() == Set::<(u64, usize)>::empty() {
                    None
                } else {
                    Some(
                        ((choose|k: (u64, usize)| is_earliest(final(self).alarms(), k)).0 - now) as u64
                            / 1_000_000,
                    )
                }),
    {
        self.take_before(now + 1, now, wakers)
    }

    /// Prepares to park the thread at `now`: takes the expired alarms into
    /// `wakers` and returns how long to wait for I/O, in milliseconds
    /// (`None`: without limit). `limit` is the longest wait the caller
    /// allows (`None`: none); the wait is cut short at the next alarm.
    pub fn park_timeout(&mut self, now: u64, limit: Option<u64>, wakers: &mut Vec<Waker>) -> (timeout: Option<u64>)
        requires
            old(self).wf(),
            now < u64::MAX,
        ensures
            final(self).wf(),
            final(self).next_id() == old(self).next_id(),
            final(self).alarms() == pending_at(old(self).alarms(), (now + 1) as u64),
            exists|next: Option<u64>|
                {
                    &&& exists|keys: Seq<(u64, usize)>|
                        due_in_order(old(self).alarms(), (now + 1) as u64, keys) && final(wakers)@ == old(
                            wakers,
                        )@ + keys.map_values(|k: (u64, usize)| old(self).alarms()[k]) && next == (if keys.len()
                            > 0 {
                            Some(0u64)
                        } else if final(self).alarms().dom() == Set::<(u64, usize)>::empty() {
                            None
                        } else {
                            Some(
                                ((choose|k: (u64, usize)| is_earliest(final(self).alarms(), k)).0 - now) as u64
                                    / 1_000_000,
                            )
                        })
                    &&& timeout == wait_for(limit, next)
                },
    {
        let next = self.take_expired(now, wakers);
        let timeout = match limit {
            None => next,
            Some(d) => match next {
                Some(n) => if n < d { Some(n) } else { Some(d) },
                None => Some(d),
            },
        };
        assert(timeout == wait_for(limit, next));
        timeout
    }
}

// Laws of the alarms.

/// Taking the past alarms at `now` fires exactly the alarms due before
/// `now`: each of them hands out its waker and is gone, and every later
/// alarm stays with its waker and fires on no account.
pub proof fn law_alarm_fires_when_due(
    alarms: Map<(u64, usize), Waker>,
    now: u64,
    keys: Seq<(u64, usize)>,
    k: (u64, usize),
)
    requires
        due_in_order(alarms, now, keys),
    ensures
        alarms.contains_key(k) && k.0 < now ==> keys.contains(k) && !pending_at(
            alarms,
            now,
        ).contains_key(k),
        alarms.contains_key(k) && k.0 >= now ==> !keys.contains(k) && pending_at(
            alarms,
            now,
        ).contains_key(k) && pending_at(alarms, now)[k] == alarms[k],
        !alarms.contains_key(k) ==> !keys.contains(k) && !pending_at(alarms, now).contains_key(k),
{
}

} // verus!
