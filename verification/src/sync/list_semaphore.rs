//! A counting semaphore whose waiters queue in a [`LinkedList`] and are
//! notified one at a time.
//!
//! A waiter that cannot take its permits at once is added at the front of
//! the list, so that the oldest waiter is the last node. Only the oldest
//! waiter is ever notified, once the free permits cover it; when it takes
//! its permits, the next oldest is considered.
use vstd::prelude::*;
use std::task::Waker;
use crate::list::{LinkedList, ListNode, position_of};

verus! {

/// A waiting task, as the list holds it.
pub struct Waiter {
    waker: Option<Waker>,
    required: usize,
    notified: bool,
}

/// A waiter as the semaphore's users see it.
pub struct QueuedWaiter {
    pub handle: usize,
    pub required: usize,
    pub notified: bool,
    /// The waker of the waiting task, until it is handed out to be woken.
    pub waker: Option<Waker>,
}

/// The state of the semaphore: its free permits and its waiters, the newest
/// first.
pub struct ListSemaphoreView {
    pub permits: nat,
    pub waiting: Seq<QueuedWaiter>,
}

/// Whether `try_acquire(required)` succeeds: enough permits are free and no
/// task is queued (a request for no permits always succeeds when the
/// permits are there).
pub open spec fn can_take(v: ListSemaphoreView, required: nat) -> bool {
    v.permits >= required && (v.waiting.len() == 0 || required == 0)
}

/// Whether the oldest waiter gets notified: the free permits cover it and
/// it was not notified before.
pub open spec fn notifies(v: ListSemaphoreView) -> bool {
    let n = v.waiting.len();
    n > 0 && v.waiting[n - 1].required <= v.permits && !v.waiting[n - 1].notified
}

/// The state after the oldest waiter is notified if the free permits cover
/// it; its waker is handed out.
pub open spec fn notify_oldest(v: ListSemaphoreView) -> ListSemaphoreView {
    let n = v.waiting.len();
    if notifies(v) {
        ListSemaphoreView {
            waiting: v.waiting.update(
                n - 1,
                QueuedWaiter { notified: true, waker: None, ..v.waiting[n - 1] },
            ),
            ..v
        }
    } else {
        v
    }
}

/// The wakers that notifying the oldest waiter hands out: its waker, when
/// it gets notified.
pub open spec fn notify_wakers(v: ListSemaphoreView) -> Seq<Waker> {
    if notifies(v) {
        match v.waiting[v.waiting.len() - 1].waker {
            Some(w) => seq![w],
            None => Seq::empty(),
        }
    } else {
        Seq::empty()
    }
}

/// The state after `try_acquire(required)`.
pub open spec fn after_take(v: ListSemaphoreView, required: nat) -> ListSemaphoreView {
    if can_take(v, required) {
        ListSemaphoreView { permits: (v.permits - required) as nat, ..v }
    } else {
        v
    }
}

/// The state after `add_permits(n)`.
pub open spec fn after_add(v: ListSemaphoreView, n: nat) -> ListSemaphoreView {
    if n == 0 {
        v
    } else {
        notify_oldest(ListSemaphoreView { permits: v.permits + n, ..v })
    }
}

/// The state after the notified oldest waiter takes its permits and leaves
/// the queue, before the next oldest is considered.
pub open spec fn after_leave(v: ListSemaphoreView) -> ListSemaphoreView {
    let n = v.waiting.len();
    ListSemaphoreView {
        permits: (v.permits - v.waiting[n - 1].required) as nat,
        waiting: v.waiting.drop_last(),
    }
}

/// The state after the notified oldest waiter takes its permits and leaves
/// the queue.
pub open spec fn after_grant(v: ListSemaphoreView) -> ListSemaphoreView {
    notify_oldest(after_leave(v))
}

/// The wakers that the notified oldest waiter taking its permits hands out.
pub open spec fn grant_wakers(v: ListSemaphoreView) -> Seq<Waker> {
    notify_wakers(after_leave(v))
}

/// The wakers that `add_permits(n)` hands out.
pub open spec fn add_wakers(v: ListSemaphoreView, n: nat) -> Seq<Waker> {
    if n == 0 {
        Seq::empty()
    } else {
        notify_wakers(ListSemaphoreView { permits: v.permits + n, ..v })
    }
}

/// A consistent state: only the oldest waiter may be notified, and the free
/// permits cover it then.
pub open spec fn consistent(v: ListSemaphoreView) -> bool {
    &&& forall|i: int| 0 <= i < v.waiting.len() - 1 ==> !(#[trigger] v.waiting[i]).notified
    &&& v.waiting.len() > 0 && v.waiting.last().notified ==> v.waiting.last().required <= v.permits
}

/// Where an `acquire` call stands.
pub enum AcquireStage {
    /// Not yet polled.
    Idle,
    /// Queued under this handle.
    Waiting(usize),
    /// Completed.
    Done,
}

/// An `acquire` call, polled until it completes.
pub struct Acquire {
    pub stage: AcquireStage,
    pub required: usize,
}

/// Permits taken from the semaphore.
pub struct Permit {
    permits: usize,
}

impl View for Permit {
    type V = nat;

    closed spec fn view(&self) -> nat {
        self.permits as nat
    }
}

impl Permit {
    /// The number of permits held.
    pub fn count(&self) -> (n: usize)
        ensures
            n == self@,
    {
        self.permits
    }

    /// Makes the permit hold nothing: the permits stay taken for good.
    pub fn forget(&mut self)
        ensures
            final(self)@ == 0,
    {
        self.permits = 0;
    }
}

/// A semaphore whose waiters are notified one at a time, oldest first.
///
/// It keeps account of its permits: those it started with or was given by
/// `add_permits` (supplied), those it handed out in a [`Permit`], and those
/// that `release` gave back. The free permits are always what was supplied
/// and given back less what was handed out.
pub struct Semaphore {
    permits: usize,
    waiters: LinkedList<Waiter>,
    supplied: Ghost<nat>,
    handed_out: Ghost<nat>,
    given_back: Ghost<nat>,
}

impl View for Semaphore {
    type V = ListSemaphoreView;

    closed spec fn view(&self) -> ListSemaphoreView {
        ListSemaphoreView {
            permits: self.permits as nat,
            waiting: Seq::new(
                self.waiters.handles().len(),
                |i: int|
                    QueuedWaiter {
                        handle: self.waiters.handles()[i],
                        required: self.waiters.values()[i].required,
                        notified: self.waiters.values()[i].notified,
                        waker: self.waiters.values()[i].waker,
                    },
            ),
        }
    }
}

/// The state after the waiter under `handle` keeps `waker` to be woken.
pub open spec fn with_waker(v: ListSemaphoreView, handle: usize, waker: Option<Waker>) -> ListSemaphoreView {
    ListSemaphoreView {
        waiting: v.waiting.map_values(
            |q: QueuedWaiter|
                if q.handle == handle {
                    QueuedWaiter { waker: waker, ..q }
                } else {
                    q
                },
        ),
        ..v
    }
}

/// Whether `handle` is queued.
pub open spec fn is_waiting(v: ListSemaphoreView, handle: usize) -> bool {
    exists|i: int| 0 <= i < v.waiting.len() && #[trigger] v.waiting[i].handle == handle
}

/// Whether `acquire` is a call that the semaphore knows: not yet polled,
/// or queued.
pub open spec fn follows(v: ListSemaphoreView, acquire: Acquire) -> bool {
    match acquire.stage {
        AcquireStage::Idle => true,
        AcquireStage::Waiting(h) => is_waiting(v, h) && v.waiting[position_of(
            v.waiting.map_values(|w: QueuedWaiter| w.handle),
            h,
        )].required == acquire.required,
        AcquireStage::Done => false,
    }
}

impl Semaphore {
    pub closed spec fn wf(&self) -> bool {
        &&& self.waiters.wf()
        &&& self.waiters.values().len() == self.waiters.handles().len()
        &&& consistent(self@)
        &&& self.balanced()
    }

    spec fn balanced(&self) -> bool {
        self.permits + self.handed_out@ == self.supplied@ + self.given_back@
    }

    /// The permits that the semaphore started with, and those added since.
    pub closed spec fn supplied(&self) -> nat {
        self.supplied@
    }

    /// The permits that the semaphore handed out in a [`Permit`].
    pub closed spec fn handed_out(&self) -> nat {
        self.handed_out@
    }

    /// The permits that `release` gave back.
    pub closed spec fn given_back(&self) -> nat {
        self.given_back@
    }

    /// The account of the permits balances in every state that the
    /// operations produce: the free permits together with those handed out
    /// make up those supplied together with those given back. So the
    /// permits handed out and not yet given back (held in live permits, or
    /// forgotten) are exactly what is missing from the free ones.
    pub proof fn law_permits_balance(&self)
        requires
            self.wf(),
        ensures
            self@.permits + self.handed_out() == self.supplied() + self.given_back(),
    {
    }

    /// A well-formed semaphore is in a consistent state.
    pub proof fn lemma_consistent(&self)
        requires
            self.wf(),
        ensures
            consistent(self@),
    {
    }

    proof fn lemma_handles(&self)
        requires
            self.waiters.values().len() == self.waiters.handles().len(),
        ensures
            self@.waiting.map_values(|w: QueuedWaiter| w.handle) == self.waiters.handles(),
            self@.waiting.len() == self.waiters.handles().len(),
    {
        assert(self@.waiting.map_values(|w: QueuedWaiter| w.handle) =~= self.waiters.handles());
    }

    /// A semaphore with `permits` free permits and no waiter.
    pub fn new(permits: usize) -> (s: Self)
        ensures
            s.wf(),
            s@ == (ListSemaphoreView { permits: permits as nat, waiting: Seq::empty() }),
            s.supplied() == permits,
            s.handed_out() == 0,
            s.given_back() == 0,
    {
        let s = Semaphore {
            permits,
            waiters: LinkedList::new(),
            supplied: Ghost(permits as nat),
            handed_out: Ghost(0),
            given_back: Ghost(0),
        };
        proof {
            assert(s@.waiting =~= Seq::<QueuedWaiter>::empty());
        }
        s
    }

    /// The number of free permits.
    pub fn permits(&self) -> (n: usize)
        ensures
            n == self@.permits,
    {
        self.permits
    }

    /// Takes `permits` permits if they are free and no task is queued.
    pub fn try_acquire(&mut self, permits: usize) -> (permit: Option<Permit>)
        requires
            old(self).wf(),
        ensures
            final(self).wf(),
            permit is Some <==> can_take(old(self)@, permits as nat),
            permit matches Some(p) ==> p@ == permits,
            final(self)@ == after_take(old(self)@, permits as nat),
            final(self).supplied() == old(self).supplied(),
            final(self).given_back() == old(self).given_back(),
            final(self).handed_out() == old(self).handed_out() + match permit {
                Some(p) => p@,
                None => 0,
            },
    {
        if self.permits >= permits && (self.waiters.is_empty() || permits == 0) {
            self.permits = self.permits - permits;
            self.handed_out = Ghost((self.handed_out@ + permits) as nat);
            proof {
                assert(self@.waiting =~= old(self)@.waiting);
            }
            Some(Permit { permits })
        } else {
            None
        }
    }

    /// Notifies the oldest waiter if the free permits cover it, handing its
    /// waker to `wakers`.
    fn wake(&mut self, wakers: &mut Vec<Waker>)
        requires
            old(self).waiters.wf(),
            old(self).waiters.values().len() == old(self).waiters.handles().len(),
            consistent(old(self)@),
            old(self).balanced(),
        ensures
            final(self).wf(),
            final(self).supplied() == old(self).supplied(),
            final(self).handed_out() == old(self).handed_out(),
            final(self).given_back() == old(self).given_back(),
            final(self)@ == notify_oldest(old(self)@),
            final(wakers)@ == old(wakers)@ + notify_wakers(old(self)@),
    {
        let ghost v0 = self@;
        match self.waiters.last_handle() {
            None => {
                proof {
                    assert(v0.waiting.len() == 0);
                }
            },
            Some(h) => {
                let ghost n = self.waiters.handles().len();
                proof {
                    assert(self.waiters.handles()[n - 1] == h);
                    assert(self.waiters.handles().contains(h));
                    let p = position_of(self.waiters.handles(), h);
                    assert(self.waiters.handles()[p] == h);
                    if p != n - 1 {
                        assert(self.waiters.handles()[p] != self.waiters.handles()[n - 1]) by {
                            self.waiters.lemma_distinct(p, n - 1);
                        }
                    }
                }
                let (required, notified) = match self.waiters.get(h) {
                    Some(w) => (w.required, w.notified),
                    None => {
                        return;
                    },
                };
                if self.permits < required {
                    return;
                }
                if !notified {
                    let previous = self.waiters.replace(
                        h,
                        Waiter { waker: None, required, notified: true },
                    );
                    match previous.waker {
                        Some(w) => wakers.push(w),
                        None => {},
                    }
                }
                proof {
                    assert(self@.waiting =~= notify_oldest(v0).waiting);
                    assert(wakers@ =~= old(wakers)@ + notify_wakers(v0));
                }
            },
        }
    }

    /// Adds `permits` free permits, notifying the oldest waiter if they
    /// cover it.
    pub fn add_permits(&mut self, permits: usize, wakers: &mut Vec<Waker>)
        requires
            old(self).wf(),
            old(self)@.permits + permits <= usize::MAX,
        ensures
            final(self).wf(),
            final(self)@ == after_add(old(self)@, permits as nat),
            final(wakers)@ == old(wakers)@ + add_wakers(old(self)@, permits as nat),
            final(self).supplied() == old(self).supplied() + permits,
            final(self).handed_out() == old(self).handed_out(),
            final(self).given_back() == old(self).given_back(),
    {
        if permits == 0 {
            return;
        }
        self.permits = self.permits + permits;
        self.supplied = Ghost((self.supplied@ + permits) as nat);
        proof {
            assert(self@.waiting =~= old(self)@.waiting);
        }
        self.wake(wakers);
    }

    /// Gives the permits of `permit` back, as `add_permits` does.
    pub fn release(&mut self, permit: Permit, wakers: &mut Vec<Waker>)
        requires
            old(self).wf(),
            old(self)@.permits + permit@ <= usize::MAX,
        ensures
            final(self).wf(),
            final(self)@ == after_add(old(self)@, permit@),
            final(wakers)@ == old(wakers)@ + add_wakers(old(self)@, permit@),
            final(self).supplied() == old(self).supplied(),
            final(self).handed_out() == old(self).handed_out(),
            final(self).given_back() == old(self).given_back() + permit@,
    {
        self.add_permits(permit.permits, wakers);
        self.supplied = Ghost((self.supplied@ - permit.permits) as nat);
        self.given_back = Ghost((self.given_back@ + permit.permits) as nat);
    }

    /// A new call to take `permits` permits.
    pub fn acquire(&self, permits: usize) -> (a: Acquire)
        ensures
            a.stage is Idle,
            a.required == permits,
    {
        Acquire { stage: AcquireStage::Idle, required: permits }
    }

    /// Polls `acquire` on behalf of the task that `waker` wakes. A call not
    /// yet polled takes its permits at once when it can, and otherwise
    /// queues at the front. A queued call takes its permits once it was
    /// notified, which notifies the next oldest waiter if it is covered.
    pub fn poll_acquire(&mut self, acquire: &mut Acquire, waker: Waker, wakers: &mut Vec<Waker>) -> (permit: Option<Permit>)
        requires
            old(self).wf(),
            follows(old(self)@, *old(acquire)),
        ensures
            final(self).wf(),
            final(acquire).required == old(acquire).required,
            permit matches Some(p) ==> p@ == old(acquire).required,
            !(final(acquire).stage is Done) ==> follows(final(self)@, *final(acquire)),
            final(self).supplied() == old(self).supplied(),
            final(self).given_back() == old(self).given_back(),
            final(self).handed_out() == old(self).handed_out() + match permit {
                Some(p) => p@,
                None => 0,
            },
            match old(acquire).stage {
                AcquireStage::Idle => if can_take(old(self)@, old(acquire).required as nat) {
                    &&& permit is Some
                    &&& final(acquire).stage is Done
                    &&& final(self)@ == after_take(old(self)@, old(acquire).required as nat)
                    &&& final(wakers)@ == old(wakers)@
                } else {
                    &&& permit is None
                    &&& final(acquire).stage matches AcquireStage::Waiting(h)
                    &&& !is_waiting(old(self)@, h)
                    &&& final(self)@ == (ListSemaphoreView {
                        waiting: seq![
                            QueuedWaiter {
                                handle: h,
                                required: old(acquire).required,
                                notified: false,
                                waker: Some(waker),
                            },
                        ] + old(self)@.waiting,
                        ..old(self)@
                    })
                    &&& final(wakers)@ == old(wakers)@
                },
                AcquireStage::Waiting(h) => {
                    let n = old(self)@.waiting.len();
                    if old(self)@.waiting[n - 1].handle == h && old(self)@.waiting[n - 1].notified {
                        &&& permit is Some
                        &&& final(acquire).stage is Done
                        &&& final(self)@ == after_grant(old(self)@)
                        &&& final(wakers)@ == old(wakers)@ + grant_wakers(old(self)@)
                    } else {
                        &&& permit is None
                        &&& final(acquire).stage == old(acquire).stage
                        &&& final(self)@ == with_waker(old(self)@, h, Some(waker))
                        &&& final(wakers)@ == old(wakers)@
                    }
                },
                AcquireStage::Done => false,
            },
    {
        proof {
            self.lemma_handles();
        }
        match acquire.stage {
            AcquireStage::Idle => {
                let required = acquire.required;
                if self.permits >= required && (self.waiters.is_empty() || required == 0) {
                    self.permits = self.permits - required;
                    self.handed_out = Ghost((self.handed_out@ + required) as nat);
                    acquire.stage = AcquireStage::Done;
                    proof {
                        assert(self@.waiting =~= old(self)@.waiting);
                    }
                    Some(Permit { permits: required })
                } else {
                    let h = self.waiters.add_front(
                        ListNode::new(Waiter { waker: Some(waker), required, notified: false }),
                    );
                    acquire.stage = AcquireStage::Waiting(h);
                    proof {
                        let v = self@;
                        let v0 = old(self)@;
                        assert(v.waiting =~= seq![
                            QueuedWaiter { handle: h, required: required, notified: false, waker: Some(waker) },
                        ] + v0.waiting) by {
                            assert forall|i: int| 0 <= i < v.waiting.len() implies #[trigger] v.waiting[i]
                                == (seq![QueuedWaiter { handle: h, required: required, notified: false, waker: Some(waker) }]
                                + v0.waiting)[i] by {
                                if i > 0 {
                                    assert(self.waiters.handles()[i] == old(self).waiters.handles()[i - 1]);
                                    assert(self.waiters.values()[i] == old(self).waiters.values()[i - 1]);
                                }
                            }
                        }
                        if is_waiting(v0, h) {
                            let i = choose|i: int| 0 <= i < v0.waiting.len() && #[trigger] v0.waiting[i].handle == h;
                            assert(old(self).waiters.handles()[i] == h);
                            assert(old(self).waiters.handles().contains(h));
                        }
                        self.lemma_handles();
                        assert(v.waiting[0].handle == h);
                        assert(is_waiting(v, h));
                        let p = position_of(v.waiting.map_values(|w: QueuedWaiter| w.handle), h);
                        assert(self.waiters.handles()[p] == h);
                        if p != 0 {
                            self.waiters.lemma_distinct(0, p);
                        }
                    }
                    None
                }
            },
            AcquireStage::Waiting(h) => {
                proof {
                    let v0 = old(self)@;
                    let i = choose|i: int| 0 <= i < v0.waiting.len() && #[trigger] v0.waiting[i].handle == h;
                    assert(self.waiters.handles()[i] == h);
                    assert(self.waiters.handles().contains(h));
                }
                let (required, notified) = match self.waiters.get(h) {
                    Some(w) => (w.required, w.notified),
                    None => {
                        return None;
                    },
                };
                let ghost n = self.waiters.handles().len();
                let ghost p = position_of(self.waiters.handles(), h);
                proof {
                    assert(self.waiters.handles()[p] == h);
                    if p != n - 1 && notified {
                        assert(!self@.waiting[p].notified);
                    }
                }
                if notified {
                    proof {
                        assert(p == n - 1);
                        assert(self@.waiting[n - 1].handle == h);
                    }
                    self.permits = self.permits - required;
                    self.handed_out = Ghost((self.handed_out@ + required) as nat);
                    let ghost before = self.waiters.handles();
                    let removed = self.waiters.remove(h);
                    proof {
                        let q = choose|q: int|
                            0 <= q < before.len() && before[q] == h
                                && self.waiters.handles() == before.remove(q)
                                && self.waiters.values() == old(self).waiters.values().remove(q);
                        if q != n - 1 {
                            old(self).waiters.lemma_distinct(q, n - 1);
                        }
                        assert(before.remove(n - 1) =~= before.drop_last());
                        assert(old(self).waiters.values().remove(n - 1) =~= old(self).waiters.values().drop_last());
                        assert(self@.waiting =~= old(self)@.waiting.drop_last());
                    }
                    self.wake(wakers);
                    acquire.stage = AcquireStage::Done;
                    Some(Permit { permits: required })
                } else {
                    proof {
                        if old(self)@.waiting[n - 1].handle == h {
                            if p != n - 1 {
                                old(self).waiters.lemma_distinct(p, n - 1);
                            }
                        }
                    }
                    let ghost v0 = self@;
                    let _previous = self.waiters.replace(h, Waiter { waker: Some(waker), required, notified });
                    proof {
                        let v = self@;
                        self.lemma_handles();
                        assert(v.waiting.len() == v0.waiting.len());
                        assert(v0.waiting[p].handle == h);
                        assert forall|i: int| 0 <= i < v.waiting.len() && i != p implies #[trigger] v.waiting[i]
                            == v0.waiting[i] && v0.waiting[i].handle != h by {
                            old(self).waiters.lemma_distinct(i, p);
                        }
                        assert(v.waiting =~= with_waker(v0, h, Some(waker)).waiting);
                        assert(v0 == old(self)@);
                    }
                    None
                }
            },
            AcquireStage::Done => None,
        }
    }
}

/// Only the oldest waiter is ever notified, and only when the free permits
/// cover it: adding permits keeps every newer waiter waiting.
pub proof fn law_only_oldest_notified(v: ListSemaphoreView, n: nat)
    requires
        consistent(v),
    ensures
        consistent(after_add(v, n)),
        forall|i: int|
            0 <= i < v.waiting.len() - 1 ==> !(#[trigger] after_add(v, n).waiting[i]).notified,
{
}

/// Permits are neither made nor lost: taking permits moves them from the
/// free count into the permit taken, giving permits back adds exactly them,
/// and the notified waiter's grant moves exactly what it asked for.
pub proof fn law_permits_conserved(v: ListSemaphoreView, n: nat)
    requires
        consistent(v),
    ensures
        can_take(v, n) ==> after_take(v, n).permits + n == v.permits,
        after_add(v, n).permits == v.permits + n,
        v.waiting.len() > 0 && v.waiting.last().notified ==> after_grant(v).permits
            + v.waiting.last().required == v.permits,
{
}

/// A request never overtakes a queued waiter.
pub proof fn law_no_barging(v: ListSemaphoreView, required: nat)
    requires
        v.waiting.len() > 0,
        required > 0,
    ensures
        !can_take(v, required),
        after_take(v, required) == v,
{
}

/// When the notified waiter takes its permits, the next oldest is notified
/// in turn if the rest covers it, and its waker is what the grant hands out.
pub proof fn law_notification_passes_on(v: ListSemaphoreView, w: Waker)
    requires
        consistent(v),
        v.waiting.len() >= 2,
        v.waiting.last().notified,
        v.waiting[v.waiting.len() - 2].required <= v.permits - v.waiting.last().required,
    ensures
        after_grant(v).waiting.last().notified,
        after_grant(v).permits == v.permits - v.waiting.last().required,
        consistent(after_grant(v)),
        v.waiting[v.waiting.len() - 2].waker == Some(w) ==> grant_wakers(v) == seq![w],
{
}

/// An oldest waiter that added permits cover, and that was not notified
/// yet, is notified: its waker is what `add_permits` hands out.
pub proof fn law_covered_oldest_is_woken(v: ListSemaphoreView, n: nat, w: Waker)
    requires
        n > 0,
        v.waiting.len() > 0,
        !v.waiting.last().notified,
        v.waiting.last().waker == Some(w),
        v.waiting.last().required <= v.permits + n,
    ensures
        after_add(v, n).waiting.last().notified,
        add_wakers(v, n) == seq![w],
{
}

} // verus!
