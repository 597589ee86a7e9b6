//! A counting semaphore whose waiters are served in arrival order.
//!
//! The waiters form a doubly linked list threaded through a `slab::Slab`:
//! new waiters enter at the head, the oldest waiter sits at the tail, and
//! permits are handed to waiters from the tail onwards.
use vstd::prelude::*;
use std::task::Waker;
use slab::Slab;

verus! {

/// `slab::Slab`, the arena that holds the waiters.
#[verifier::external_type_specification]
#[verifier::external_body]
#[verifier::reject_recursive_types(T)]
pub struct ExSlab<T>(Slab<T>);

/// A task waiting for permits.
pub struct Waiter {
    pub waker: Option<Waker>,
    /// The next older waiter.
    pub next: Option<usize>,
    /// The next newer waiter.
    pub prev: Option<usize>,
    pub required: usize,
    pub woke: bool,
}

/// What the logic reads of a waiter.
pub struct WaiterView {
    pub waker: Option<Waker>,
    pub next: Option<usize>,
    pub prev: Option<usize>,
    pub required: usize,
    pub woke: bool,
}

impl View for Waiter {
    type V = WaiterView;

    open spec fn view(&self) -> WaiterView {
        WaiterView {
            waker: self.waker,
            next: self.next,
            prev: self.prev,
            required: self.required,
            woke: self.woke,
        }
    }
}

/// What a slab of waiters holds: each occupied key with its waiter's view.
pub uninterp spec fn slab_waiters(s: Slab<Waiter>) -> Map<usize, WaiterView>;

/// Calls `Slab::new`, which makes an empty slab.
#[verifier::external_body]
fn slab_new() -> (slab: Slab<Waiter>)
    ensures
        slab_waiters(slab).dom() == Set::<usize>::empty(),
{
    Slab::new()
}

/// Calls `Slab::insert`: the value is stored under a key that was vacant,
/// and that key is returned.
#[verifier::external_body]
fn slab_insert(slab: &mut Slab<Waiter>, waiter: Waiter) -> (key: usize)
    ensures
        !slab_waiters(*old(slab)).contains_key(key),
        slab_waiters(*final(slab)) == slab_waiters(*old(slab)).insert(key, waiter@),
{
    slab.insert(waiter)
}

/// Calls `Slab::remove` on an occupied key: the value under it is returned
/// and the key becomes vacant.
#[verifier::external_body]
fn slab_remove(slab: &mut Slab<Waiter>, key: usize) -> (waiter: Waiter)
    requires
        slab_waiters(*old(slab)).contains_key(key),
    ensures
        waiter@ == slab_waiters(*old(slab))[key],
        slab_waiters(*final(slab)) == slab_waiters(*old(slab)).remove(key),
{
    slab.remove(key)
}

/// Calls `Slab::is_empty`: whether no key is occupied.
#[verifier::external_body]
fn slab_is_empty(slab: &Slab<Waiter>) -> (r: bool)
    ensures
        r == (slab_waiters(*slab).dom() == Set::<usize>::empty()),
{
    slab.is_empty()
}

/// Calls `Slab::contains`: whether the key is occupied.
#[verifier::external_body]
fn slab_contains(slab: &Slab<Waiter>, key: usize) -> (r: bool)
    ensures
        r == slab_waiters(*slab).contains_key(key),
{
    slab.contains(key)
}

/// Calls `Slab::get_mut` on an occupied key and unwraps the result: it is
/// the waiter under that key, and what the caller writes through it is what
/// the slab holds under that key afterwards.
#[verifier::external_body]
fn slot_mut(slab: &mut Slab<Waiter>, key: usize) -> (w: &mut Waiter)
    requires
        slab_waiters(*old(slab)).contains_key(key),
    ensures
        w@ == slab_waiters(*old(slab))[key],
        slab_waiters(*final(slab)) == slab_waiters(*old(slab)).insert(key, final(w)@),
{
    slab.get_mut(key).unwrap()
}

/// A waiter as the semaphore's users see it.
pub struct WaitEntry {
    pub key: usize,
    pub required: usize,
    pub woke: bool,
    /// The waker of the waiting task, until it is handed out to be woken.
    pub waker: Option<Waker>,
}

/// The state of a semaphore: its free permits and its waiters, the one that
/// has waited longest first.
pub struct SemaphoreView {
    pub permits: nat,
    pub waiting: Seq<WaitEntry>,
}

/// The permits that the first `n` waiters ask for, together.
pub open spec fn demand(s: Seq<WaitEntry>, n: int) -> int
    decreases n,
{
    if n <= 0 {
        0
    } else {
        demand(s, n - 1) + s[n - 1].required
    }
}

/// The waiters after a wake-up with `budget` permits: the oldest waiters are
/// marked as woken as long as the permits cover all of them together.
pub open spec fn woken(s: Seq<WaitEntry>, budget: int) -> Seq<WaitEntry> {
    Seq::new(
        s.len(),
        |i: int|
            WaitEntry {
                key: s[i].key,
                required: s[i].required,
                woke: s[i].woke || demand(s, i + 1) <= budget,
                waker: if !s[i].woke && demand(s, i + 1) <= budget {
                    None
                } else {
                    s[i].waker
                },
            },
    )
}

/// The wakers handed out, oldest first, when the first `n` waiters are
/// woken with `budget` permits: those of the waiters that this wakes.
pub open spec fn handed(s: Seq<WaitEntry>, budget: int, n: int) -> Seq<Waker>
    decreases n,
{
    if n <= 0 {
        Seq::empty()
    } else {
        handed(s, budget, n - 1) + (if !s[n - 1].woke && demand(s, n) <= budget {
            match s[n - 1].waker {
                Some(w) => seq![w],
                None => Seq::empty(),
            }
        } else {
            Seq::empty()
        })
    }
}

/// The wakers that a wake-up with `budget` permits hands out: those of the
/// waiters that it marks as woken, oldest first.
pub open spec fn woken_wakers(s: Seq<WaitEntry>, budget: int) -> Seq<Waker> {
    handed(s, budget, s.len() as int)
}

/// A consistent semaphore state: the woken waiters are the oldest ones, and
/// the free permits cover each woken waiter together with all older ones.
pub open spec fn valid_view(v: SemaphoreView) -> bool {
    &&& forall|i: int, j: int|
        0 <= i < j < v.waiting.len() && #[trigger] v.waiting[j].woke ==> #[trigger] v.waiting[i].woke
    &&& forall|i: int|
        0 <= i < v.waiting.len() && #[trigger] v.waiting[i].woke ==> demand(v.waiting, i + 1)
            <= v.permits
    &&& forall|i: int, j: int|
        0 <= i < j < v.waiting.len() ==> #[trigger] v.waiting[i].key != #[trigger] v.waiting[j].key
}

/// Whether `try_acquire(required)` succeeds: enough permits are free and no
/// task is queued ahead (a request for no permits always succeeds when
/// the permits are there).
pub open spec fn can_acquire(v: SemaphoreView, required: nat) -> bool {
    v.permits >= required && (v.waiting.len() == 0 || required == 0)
}

/// The wakers that `add_permits(n)` hands out.
pub open spec fn add_permits_wakers(v: SemaphoreView, n: nat) -> Seq<Waker> {
    if n == 0 {
        Seq::empty()
    } else {
        woken_wakers(v.waiting, (v.permits + n) as int)
    }
}

/// The state after `add_permits(n)`.
pub open spec fn after_add_permits(v: SemaphoreView, n: nat) -> SemaphoreView {
    if n == 0 {
        v
    } else {
        SemaphoreView { permits: v.permits + n, waiting: woken(v.waiting, (v.permits + n) as int) }
    }
}


/// Whether `key` is queued.
pub open spec fn queued(v: SemaphoreView, key: usize) -> bool {
    exists|p: int| 0 <= p < v.waiting.len() && v.waiting[p].key == key
}

/// Where `key` stands in the queue.
pub open spec fn position(v: SemaphoreView, key: usize) -> int {
    choose|p: int| 0 <= p < v.waiting.len() && v.waiting[p].key == key
}

/// The state after `try_acquire(required)`.
pub open spec fn after_try_acquire(v: SemaphoreView, required: nat) -> SemaphoreView {
    if can_acquire(v, required) {
        SemaphoreView { permits: (v.permits - required) as nat, waiting: v.waiting }
    } else {
        v
    }
}

/// The state after a new waiter for `required` permits, whose task `waker`
/// wakes, is queued under `key`.
pub open spec fn after_enqueue(v: SemaphoreView, key: usize, required: nat, waker: Waker) -> SemaphoreView {
    SemaphoreView {
        permits: v.permits,
        waiting: v.waiting.push(
            WaitEntry { key: key, required: required as usize, woke: false, waker: Some(waker) },
        ),
    }
}

/// The state after the waiter at `p` keeps `waker` to be woken.
pub open spec fn with_waker(v: SemaphoreView, p: int, waker: Option<Waker>) -> SemaphoreView {
    SemaphoreView { permits: v.permits, waiting: v.waiting.update(p, WaitEntry { waker: waker, ..v.waiting[p] }) }
}

/// The state after the woken waiter at `p` takes its permits and leaves the
/// queue, and the waiters behind it are woken as far as the rest covers.
pub open spec fn after_grant(v: SemaphoreView, p: int) -> SemaphoreView {
    let left = v.permits - v.waiting[p].required;
    SemaphoreView { permits: left as nat, waiting: woken(v.waiting.remove(p), left) }
}

/// The wakers that the grant to the waiter at `p` hands out.
pub open spec fn grant_wakers(v: SemaphoreView, p: int) -> Seq<Waker> {
    woken_wakers(v.waiting.remove(p), v.permits - v.waiting[p].required)
}

/// The wakers that the waiter at `p` giving up hands out.
pub open spec fn cancel_wakers(v: SemaphoreView, p: int) -> Seq<Waker> {
    woken_wakers(v.waiting.remove(p), v.permits as int)
}

/// The state after the waiter at `p` gives up waiting.
pub open spec fn after_cancel(v: SemaphoreView, p: int) -> SemaphoreView {
    SemaphoreView { permits: v.permits, waiting: woken(v.waiting.remove(p), v.permits as int) }
}

/// Where a pending acquisition stands.
pub enum AcquireState {
    /// Not yet polled.
    Idle,
    /// Queued under this key.
    Waiting(usize),
    /// Completed.
    Done,
}

/// The state of an `acquire` call, polled until it completes.
pub struct Acquire {
    pub state: AcquireState,
    pub permits: usize,
}

/// Permits taken from a semaphore, to be given back with
/// [`Semaphore::release`].
pub struct Permit {
    permits: usize,
}

impl View for Permit {
    type V = nat;

    closed spec fn view(&self) -> nat {
        self.permits as nat
    }
}

impl Permit {
    /// The number of permits held.
    pub fn count(&self) -> (n: usize)
        ensures
            n == self@,
    {
        self.permits
    }

    /// Makes the permit hold nothing, so that releasing it gives nothing
    /// back: the permits it held stay taken for good.
    pub fn forget(&mut self)
        ensures
            final(self)@ == 0,
    {
        self.permits = 0;
    }
}

/// The state of a semaphore.
pub struct Inner {
    permits: usize,
    waiters: Slab<Waiter>,
    head: Option<usize>,
    tail: Option<usize>,
    /// The keys of the queued waiters, the oldest (at `tail`) first.
    queue: Ghost<Seq<usize>>,
}

impl Inner {
    pub closed spec fn slots(self) -> Map<usize, WaiterView> {
        slab_waiters(self.waiters)
    }

    pub closed spec fn keys(self) -> Seq<usize> {
        self.queue@
    }

    pub closed spec fn view(self) -> SemaphoreView {
        SemaphoreView {
            permits: self.permits as nat,
            waiting: self.queue@.map_values(
                |k: usize|
                    WaitEntry {
                        key: k,
                        required: slab_waiters(self.waiters)[k].required,
                        woke: slab_waiters(self.waiters)[k].woke,
                        waker: slab_waiters(self.waiters)[k].waker,
                    },
            ),
        }
    }

    /// The list threaded through the slab is the queue of keys.
    pub closed spec fn links_ok(self) -> bool {
        list_ok(self.queue@, slab_waiters(self.waiters), self.head, self.tail)
    }

    pub closed spec fn wf(self) -> bool {
        self.links_ok() && valid_view(self.view())
    }
}


/// `q` (oldest first) is the list that `m` links from `head` to `tail`.
spec fn list_ok(
    q: Seq<usize>,
    m: Map<usize, WaiterView>,
    head: Option<usize>,
    tail: Option<usize>,
) -> bool {
    let n = q.len();
    &&& forall|i: int, j: int| 0 <= i < j < n ==> #[trigger] q[i] != #[trigger] q[j]
    &&& forall|k: usize| #[trigger] m.contains_key(k) <==> q.contains(k)
    &&& tail == (if n == 0 { None } else { Some(q[0]) })
    &&& head == (if n == 0 { None } else { Some(q[n - 1]) })
    &&& forall|i: int|
        0 <= i < n ==> (#[trigger] m[q[i]]).next == (if i == 0 {
            None
        } else {
            Some(q[i - 1])
        })
    &&& forall|i: int|
        0 <= i < n ==> (#[trigger] m[q[i]]).prev == (if i == n - 1 {
            None
        } else {
            Some(q[i + 1])
        })
}

/// Unlinking the waiter at `p` and joining its neighbours leaves the list
/// without it.
proof fn lemma_unlink(
    q: Seq<usize>,
    m0: Map<usize, WaiterView>,
    head0: Option<usize>,
    tail0: Option<usize>,
    p: int,
    m: Map<usize, WaiterView>,
    head: Option<usize>,
    tail: Option<usize>,
)
    requires
        list_ok(q, m0, head0, tail0),
        0 <= p < q.len(),
        m.dom() == m0.dom().remove(q[p]),
        forall|k: usize|
            #[trigger] m.contains_key(k) && Some(k) != m0[q[p]].prev && Some(k) != m0[q[p]].next
                ==> m[k] == m0[k],
        m0[q[p]].prev matches Some(pv) ==> m[pv] == (WaiterView {
            waker: m0[pv].waker,
            next: m0[q[p]].next,
            prev: m0[pv].prev,
            required: m0[pv].required,
            woke: m0[pv].woke,
        }),
        m0[q[p]].next matches Some(nx) ==> m[nx] == (WaiterView {
            waker: m0[nx].waker,
            next: m0[nx].next,
            prev: m0[q[p]].prev,
            required: m0[nx].required,
            woke: m0[nx].woke,
        }),
        head == (if m0[q[p]].prev is None { m0[q[p]].next } else { head0 }),
        tail == (if m0[q[p]].next is None { m0[q[p]].prev } else { tail0 }),
    ensures
        list_ok(q.remove(p), m, head, tail),
        forall|i: int|
            0 <= i < q.remove(p).len() ==> m[#[trigger] q.remove(p)[i]].required
                == m0[q.remove(p)[i]].required && m[q.remove(p)[i]].woke
                == m0[q.remove(p)[i]].woke && m[q.remove(p)[i]].waker == m0[q.remove(p)[i]].waker,
{
    let n = q.len();
    let q2 = q.remove(p);
    q.remove_ensures(p);
    assert(m0[q[p]].next == (if p == 0 { None } else { Some(q[p - 1]) }));
    assert(m0[q[p]].prev == (if p == n - 1 { None } else { Some(q[p + 1]) }));
    assert forall|i: int| 0 <= i < n && i != p implies #[trigger] q[i] != q[p] by {}
    assert forall|i: int, j: int| 0 <= i < j < q2.len() implies #[trigger] q2[i] != #[trigger] q2[j] by {
        let i0 = if i < p { i } else { i + 1 };
        let j0 = if j < p { j } else { j + 1 };
        assert(q[i0] != q[j0]);
    }
    assert forall|k: usize| #[trigger] m.contains_key(k) <==> q2.contains(k) by {
        if q2.contains(k) {
            let i = choose|i: int| 0 <= i < q2.len() && q2[i] == k;
            let i0 = if i < p { i } else { i + 1 };
            assert(q[i0] == k);
            assert(q.contains(k));
            assert(m0.contains_key(k));
        }
        if m.contains_key(k) {
            assert(m0.contains_key(k));
            assert(q.contains(k));
            let i = choose|i: int| 0 <= i < q.len() && q[i] == k;
            assert(i != p);
            if i < p {
                assert(q2[i] == k);
            } else {
                assert(q2[i - 1] == k);
            }
        }
    }
    assert forall|i: int| 0 <= i < q2.len() implies (#[trigger] m[q2[i]]).next == (if i == 0 {
        None
    } else {
        Some(q2[i - 1])
    }) && m[q2[i]].prev == (if i == q2.len() - 1 {
        None
    } else {
        Some(q2[i + 1])
    }) && m[q2[i]].required == m0[q2[i]].required && m[q2[i]].woke == m0[q2[i]].woke
        && m[q2[i]].waker == m0[q2[i]].waker by {
        let i0 = if i < p { i } else { i + 1 };
        assert(q2[i] == q[i0]);
        assert(q.contains(q[i0]));
        assert(m0.contains_key(q[i0]));
        assert(m.contains_key(q[i0]));
        assert(m0[q[i0]].next == (if i0 == 0 { None } else { Some(q[i0 - 1]) }));
        assert(m0[q[i0]].prev == (if i0 == n - 1 { None } else { Some(q[i0 + 1]) }));
    }
}

/// Removing a waiter keeps the state consistent.
proof fn lemma_valid_remove(v0: SemaphoreView, p: int)
    requires
        valid_view(v0),
        0 <= p < v0.waiting.len(),
    ensures
        valid_view(SemaphoreView { permits: v0.permits, waiting: v0.waiting.remove(p) }),
{
    let v = SemaphoreView { permits: v0.permits, waiting: v0.waiting.remove(p) };
    v0.waiting.remove_ensures(p);
    assert forall|i: int| 0 <= i < v.waiting.len() && #[trigger] v.waiting[i].woke implies demand(
        v.waiting,
        i + 1,
    ) <= v.permits by {
        if i < p {
            lemma_demand_prefix(v.waiting, v0.waiting, i + 1);
        } else {
            assert(v.waiting[i] == v0.waiting[i + 1]);
            lemma_demand_remove(v0.waiting, p, i + 1);
        }
    }
    assert forall|i: int, j: int|
        0 <= i < j < v.waiting.len() && #[trigger] v.waiting[j].woke implies #[trigger] v.waiting[i].woke by {
        let i0 = if i < p { i } else { i + 1 };
        let j0 = if j < p { j } else { j + 1 };
        assert(v0.waiting[j0].woke);
        assert(v0.waiting[i0].woke);
    }
    assert forall|i: int, j: int|
        0 <= i < j < v.waiting.len() implies #[trigger] v.waiting[i].key != #[trigger] v.waiting[j].key by {
        let i0 = if i < p { i } else { i + 1 };
        let j0 = if j < p { j } else { j + 1 };
        assert(v0.waiting[i0].key != v0.waiting[j0].key);
    }
}

/// `demand` only grows with `n`.
proof fn lemma_demand_monotone(s: Seq<WaitEntry>, i: int, j: int)
    requires
        0 <= i <= j,
    ensures
        demand(s, i) <= demand(s, j),
    decreases j - i,
{
    if i < j {
        lemma_demand_monotone(s, i, j - 1);
    }
}

/// `demand` of a prefix depends only on that prefix.
proof fn lemma_demand_prefix(s: Seq<WaitEntry>, t: Seq<WaitEntry>, n: int)
    requires
        0 <= n <= s.len(),
        n <= t.len(),
        forall|i: int| 0 <= i < n ==> #[trigger] s[i].required == t[i].required,
    ensures
        demand(s, n) == demand(t, n),
    decreases n,
{
    if n > 0 {
        lemma_demand_prefix(s, t, n - 1);
    }
}

/// Removing the waiter at `p` lowers the demand of every longer prefix by
/// what that waiter asked for.
proof fn lemma_demand_remove(s: Seq<WaitEntry>, p: int, n: int)
    requires
        0 <= p < n < s.len(),
    ensures
        demand(s.remove(p), n) == demand(s, n + 1) - s[p].required,
    decreases n,
{
    s.remove_ensures(p);
    if n == p + 1 {
        lemma_demand_prefix(s.remove(p), s, p);
        assert(demand(s, n + 1) == demand(s, n) + s[n].required);
        assert(demand(s, n) == demand(s, p) + s[p].required);
    } else {
        lemma_demand_remove(s, p, n - 1);
    }
}

/// Waking is idempotent, and waking with a larger budget wakes at least as
/// many waiters.
proof fn lemma_woken_demand(s: Seq<WaitEntry>, budget: int, n: int)
    requires
        0 <= n <= s.len(),
    ensures
        demand(woken(s, budget), n) == demand(s, n),
{
    lemma_demand_prefix(woken(s, budget), s, n);
}

/// Past the first waiter that a budget does not cover, waking hands out
/// nothing more.
proof fn lemma_handed_stop(s: Seq<WaitEntry>, budget: int, j: int, n: int)
    requires
        0 <= j <= n <= s.len(),
        j < s.len() ==> demand(s, j + 1) > budget,
    ensures
        handed(s, budget, n) == handed(s, budget, j),
    decreases n - j,
{
    if n > j {
        lemma_handed_stop(s, budget, j, n - 1);
        lemma_demand_monotone(s, j + 1, n);
        assert(handed(s, budget, n) =~= handed(s, budget, n - 1));
    }
}

impl Inner {
    /// Queues a new waiter at the head and returns its key.
    fn add(&mut self, waker: Waker, required: usize) -> (key: usize)
        requires
            old(self).wf(),
        ensures
            final(self).wf(),
            !old(self).keys().contains(key),
            final(self).keys() == old(self).keys().push(key),
            final(self).view() == (SemaphoreView {
                permits: old(self).view().permits,
                waiting: old(self).view().waiting.push(
                    WaitEntry { key: key, required: required, woke: false, waker: Some(waker) },
                ),
            }),
    {
        let ghost q = self.queue@;
        let ghost m0 = slab_waiters(self.waiters);
        let key = slab_insert(
            &mut self.waiters,
            Waiter { waker: Some(waker), required, woke: false, next: self.head, prev: None },
        );
        proof {
            if q.contains(key) {
                assert(m0.contains_key(key));
            }
        }
        let ghost m1 = slab_waiters(self.waiters);
        match self.head {
            Some(head) => {
                let w = slot_mut(&mut self.waiters, head);
                w.prev = Some(key);
            },
            None => {},
        }
        self.head = Some(key);
        if self.tail.is_none() {
            self.tail = Some(key);
        }
        self.queue = Ghost(q.push(key));
        proof {
            let q2 = self.queue@;
            let m = slab_waiters(self.waiters);
            let n = q.len();
            assert forall|i: int| 0 <= i < n implies #[trigger] q2[i] != key by {
                assert(q.contains(q[i]));
            }
            assert forall|i: int| 0 <= i < n implies m[#[trigger] q2[i]].required
                == m0[q[i]].required && m[q2[i]].woke == m0[q[i]].woke && m[q2[i]].waker
                == m0[q[i]].waker by {
                assert(q.contains(q[i]));
            }
            assert forall|k: usize| #[trigger] m.contains_key(k) <==> q2.contains(k) by {
                if q2.contains(k) && k != key {
                    let i = choose|i: int| 0 <= i < q2.len() && q2[i] == k;
                    assert(q.contains(k)) by {
                        assert(q[i] == k);
                    }
                }
                if m.contains_key(k) && k != key {
                    assert(q.contains(k));
                    let i = choose|i: int| 0 <= i < q.len() && q[i] == k;
                    assert(q2[i] == k);
                }
                if k == key {
                    assert(q2[n as int] == key);
                }
            }
            let v0 = old(self).view();
            let v = self.view();
            assert(v.waiting =~= v0.waiting.push(
                WaitEntry { key: key, required: required, woke: false, waker: Some(waker) },
            ));
            assert forall|i: int| 0 <= i < v.waiting.len() && #[trigger] v.waiting[i].woke implies demand(
                v.waiting,
                i + 1,
            ) <= v.permits by {
                lemma_demand_prefix(v.waiting, v0.waiting, i + 1);
            }
        }
        key
    }

    /// Unlinks the waiter under `key` and frees its slot.
    fn remove(&mut self, key: usize) -> (removed: Waiter)
        requires
            old(self).wf(),
            old(self).keys().contains(key),
        ensures
            final(self).wf(),
            exists|p: int|
                0 <= p < old(self).keys().len() && old(self).keys()[p] == key
                    && final(self).keys() == old(self).keys().remove(p)
                    && final(self).view() == (SemaphoreView {
                    permits: old(self).view().permits,
                    waiting: old(self).view().waiting.remove(p),
                }),
            removed@.required == old(self).slots()[key].required,
            removed@.woke == old(self).slots()[key].woke,
    {
        let ghost q = self.queue@;
        let ghost p = choose|p: int| 0 <= p < q.len() && q[p] == key;
        let ghost m0 = slab_waiters(self.waiters);
        proof {
            assert(m0.contains_key(key));
            assert(m0[q[p]].next == (if p == 0 { None } else { Some(q[p - 1]) }));
            assert(m0[q[p]].prev == (if p == q.len() - 1 { None } else { Some(q[p + 1]) }));
            if p + 1 < q.len() {
                assert(q.contains(q[p + 1]));
                assert(m0.contains_key(q[p + 1]));
                assert(q[p + 1] != key);
            }
            if p > 0 {
                assert(q.contains(q[p - 1]));
                assert(m0.contains_key(q[p - 1]));
                assert(q[p - 1] != key);
                if p + 1 < q.len() {
                    assert(q[p - 1] != q[p + 1]);
                }
            }
        }
        let waiter = slab_remove(&mut self.waiters, key);
        match waiter.prev {
            None => {
                self.head = waiter.next;
            },
            Some(prev) => {
                let w = slot_mut(&mut self.waiters, prev);
                w.next = waiter.next;
            },
        }
        match waiter.next {
            None => {
                self.tail = waiter.prev;
            },
            Some(next) => {
                let w = slot_mut(&mut self.waiters, next);
                w.prev = waiter.prev;
            },
        }
        self.queue = Ghost(q.remove(p));
        proof {
            let m = slab_waiters(self.waiters);
            assert(m.dom() =~= m0.dom().remove(q[p]));
            lemma_unlink(q, m0, old(self).head, old(self).tail, p, m, self.head, self.tail);
            Inner::lemma_removed(*old(self), *self, p);
        }
        waiter
    }

    /// The view after the waiter at `p` of `before` was unlinked, giving
    /// `after`, whose slots keep the other waiters' entries.
    proof fn lemma_removed(before: Inner, after: Inner, p: int)
        requires
            before.wf(),
            0 <= p < before.queue@.len(),
            after.queue@ == before.queue@.remove(p),
            after.permits == before.permits,
            after.links_ok(),
            forall|i: int|
                0 <= i < after.queue@.len() ==> slab_waiters(after.waiters)[#[trigger] after.queue@[i]].required
                    == slab_waiters(before.waiters)[after.queue@[i]].required
                    && slab_waiters(after.waiters)[after.queue@[i]].woke
                    == slab_waiters(before.waiters)[after.queue@[i]].woke
                    && slab_waiters(after.waiters)[after.queue@[i]].waker
                    == slab_waiters(before.waiters)[after.queue@[i]].waker,
        ensures
            after.wf(),
            after.view() == (SemaphoreView {
                permits: before.view().permits,
                waiting: before.view().waiting.remove(p),
            }),
    {
        let q = before.queue@;
        let v0 = before.view();
        let v = after.view();
        q.remove_ensures(p);
        assert(v.waiting =~= v0.waiting.remove(p)) by {
            v0.waiting.remove_ensures(p);
            assert forall|i: int| 0 <= i < v.waiting.len() implies #[trigger] v.waiting[i]
                == v0.waiting.remove(p)[i] by {
                let i0 = if i < p { i } else { i + 1 };
                assert(q.remove(p)[i] == q[i0]);
            }
        }
        lemma_valid_remove(v0, p);
    }

    /// Marks as woken the oldest waiters whose requests the free permits
    /// cover together, and hands their wakers to `wakers`, oldest first;
    /// stops at the first waiter they do not cover.
    #[verifier::rlimit(80)]
    fn wake(&mut self, wakers: &mut Vec<Waker>)
        requires
            old(self).wf(),
        ensures
            final(self).wf(),
            final(self).keys() == old(self).keys(),
            final(self).view() == (SemaphoreView {
                permits: old(self).view().permits,
                waiting: woken(old(self).view().waiting, old(self).view().permits as int),
            }),
            final(wakers)@ == old(wakers)@ + woken_wakers(
                old(self).view().waiting,
                old(self).view().permits as int,
            ),
    {
        let ghost q = self.queue@;
        let ghost n = q.len();
        let ghost m0 = slab_waiters(self.waiters);
        let ghost s0 = self.view().waiting;
        let ghost budget = self.permits as int;
        let ghost w0 = wakers@;
        let mut permits = self.permits;
        let mut tail = self.tail;
        let ghost mut j: int = 0;
        loop
            invariant
                self.queue@ == q,
                self.head == old(self).head,
                self.tail == old(self).tail,
                self.permits == budget,
                old(self).wf(),
                q == old(self).queue@,
                m0 == slab_waiters(old(self).waiters),
                s0 == old(self).view().waiting,
                budget == old(self).permits,
                w0 == old(wakers)@,
                n == q.len(),
                0 <= j <= n,
                tail == (if j < n { Some(q[j]) } else { None::<usize> }),
                permits == budget - demand(s0, j),
                wakers@ == w0 + handed(s0, budget, j),
                slab_waiters(self.waiters).dom() == m0.dom(),
                forall|k: usize|
                    #[trigger] m0.contains_key(k) ==> slab_waiters(self.waiters)[k].next == m0[k].next
                        && slab_waiters(self.waiters)[k].prev == m0[k].prev
                        && slab_waiters(self.waiters)[k].required == m0[k].required,
                forall|i: int|
                    0 <= i < n ==> (#[trigger] slab_waiters(self.waiters)[q[i]]).woke == (
                    m0[q[i]].woke || (i < j && demand(s0, i + 1) <= budget)),
                forall|i: int|
                    0 <= i < n ==> (#[trigger] slab_waiters(self.waiters)[q[i]]).waker == (if i < j
                        && !m0[q[i]].woke && demand(s0, i + 1) <= budget {
                        None
                    } else {
                        m0[q[i]].waker
                    }),
            ensures
                forall|i: int|
                    0 <= i < n ==> (#[trigger] slab_waiters(self.waiters)[q[i]]).woke == (
                    m0[q[i]].woke || demand(s0, i + 1) <= budget),
                forall|i: int|
                    0 <= i < n ==> (#[trigger] slab_waiters(self.waiters)[q[i]]).waker == (if !m0[q[i]].woke
                        && demand(s0, i + 1) <= budget {
                        None
                    } else {
                        m0[q[i]].waker
                    }),
                wakers@ == w0 + handed(s0, budget, n as int),
                slab_waiters(self.waiters).dom() == m0.dom(),
                forall|k: usize|
                    #[trigger] m0.contains_key(k) ==> slab_waiters(self.waiters)[k].next == m0[k].next
                        && slab_waiters(self.waiters)[k].prev == m0[k].prev
                        && slab_waiters(self.waiters)[k].required == m0[k].required,
                self.queue@ == q,
                self.head == old(self).head,
                self.tail == old(self).tail,
                self.permits == budget,
            decreases n - j,
        {
            match tail {
                None => {
                    proof {
                        assert(j == n);
                    }
                    break;
                },
                Some(key) => {
                    assert(q.contains(key));
                    assert(m0.contains_key(key));
                    assert(m0[q[j]].prev == (if j == n - 1 { None } else { Some(q[j + 1]) }));
                    let ghost m1 = slab_waiters(self.waiters);
                    let w = slot_mut(&mut self.waiters, key);
                    assert(s0[j].required == w.required);
                    if permits < w.required {
                        proof {
                            assert(demand(s0, j + 1) > budget);
                            lemma_handed_stop(s0, budget, j, n as int);
                            assert forall|i: int| 0 <= i < n implies (#[trigger] slab_waiters(
                                self.waiters,
                            )[q[i]]).woke == (m0[q[i]].woke || demand(s0, i + 1) <= budget) by {
                                assert(q.contains(q[i]));
                                if i >= j {
                                    lemma_demand_monotone(s0, j + 1, i + 1);
                                }
                            }
                            assert forall|i: int| 0 <= i < n implies (#[trigger] slab_waiters(
                                self.waiters,
                            )[q[i]]).waker == (if !m0[q[i]].woke && demand(s0, i + 1) <= budget {
                                None
                            } else {
                                m0[q[i]].waker
                            }) by {
                                assert(q.contains(q[i]));
                                if i >= j {
                                    lemma_demand_monotone(s0, j + 1, i + 1);
                                }
                            }
                        }
                        break;
                    }
                    permits = permits - w.required;
                    let ghost before = wakers@;
                    if !w.woke {
                        w.woke = true;
                        match w.waker.take() {
                            Some(waker) => wakers.push(waker),
                            None => {},
                        }
                    }
                    tail = w.prev;
                    proof {
                        let m = slab_waiters(self.waiters);
                        assert(s0[j].woke == m0[q[j]].woke);
                        assert(s0[j].waker == m0[q[j]].waker);
                        assert(demand(s0, j + 1) == demand(s0, j) + s0[j].required);
                        assert(wakers@ =~= w0 + handed(s0, budget, j + 1));
                        assert forall|i: int|
                            0 <= i < n implies (#[trigger] slab_waiters(self.waiters)[q[i]]).woke == (
                            m0[q[i]].woke || (i < j + 1 && demand(s0, i + 1) <= budget)) by {
                            if i != j {
                                assert(q[i] != q[j]);
                            }
                        }
                        assert forall|i: int|
                            0 <= i < n implies (#[trigger] slab_waiters(self.waiters)[q[i]]).waker == (if i
                                < j + 1 && !m0[q[i]].woke && demand(s0, i + 1) <= budget {
                                None
                            } else {
                                m0[q[i]].waker
                            }) by {
                            if i != j {
                                assert(q[i] != q[j]);
                            }
                        }
                        assert forall|k: usize| #[trigger] m0.contains_key(k) implies m[k].next
                            == m0[k].next && m[k].prev == m0[k].prev && m[k].required
                            == m0[k].required by {
                            if k != key {
                                assert(m1.dom() == m0.dom());
                                assert(m1.contains_key(k));
                            }
                        }
                        j = j + 1;
                    }
                },
            }
        }
        proof {
            let m = slab_waiters(self.waiters);
            let v0 = old(self).view();
            let v = self.view();
            assert forall|i: int| 0 <= i < n implies (#[trigger] m[q[i]]).next == m0[q[i]].next
                && m[q[i]].prev == m0[q[i]].prev by {
                assert(q.contains(q[i]));
                assert(m0.contains_key(q[i]));
            }
            assert(v.waiting =~= woken(v0.waiting, budget)) by {
                assert forall|i: int| 0 <= i < n implies #[trigger] v.waiting[i] == woken(
                    v0.waiting,
                    budget,
                )[i] by {
                    assert(q.contains(q[i]));
                    assert(m0.contains_key(q[i]));
                }
            }
            assert forall|i: int, jj: int|
                0 <= i < jj < v.waiting.len() && #[trigger] v.waiting[jj].woke implies #[trigger] v.waiting[i].woke by {
                if !v0.waiting[jj].woke {
                    lemma_demand_monotone(s0, i + 1, jj + 1);
                }
            }
            assert forall|i: int| 0 <= i < v.waiting.len() && #[trigger] v.waiting[i].woke implies demand(
                v.waiting,
                i + 1,
            ) <= v.permits by {
                lemma_demand_prefix(v.waiting, v0.waiting, i + 1);
            }
        }
    }

    /// Advances an acquisition of `permits` permits by one poll from the
    /// task that `waker` wakes; returns whether the permits were taken. The
    /// wakers of the waiters that this wakes are handed to `wakers`.
    fn poll_acquire(
        &mut self,
        permits: usize,
        state: &mut AcquireState,
        waker: Waker,
        wakers: &mut Vec<Waker>,
    ) -> (ready: bool)
        requires
            old(self).wf(),
            !(*old(state) is Done),
            *old(state) matches AcquireState::Waiting(k) ==> queued(old(self).view(), k),
        ensures
            final(self).wf(),
            match *old(state) {
                AcquireState::Idle => if can_acquire(old(self).view(), permits as nat) {
                    &&& ready
                    &&& *final(state) is Idle
                    &&& final(self).view() == after_try_acquire(old(self).view(), permits as nat)
                    &&& final(wakers)@ == old(wakers)@
                } else {
                    &&& !ready
                    &&& *final(state) matches AcquireState::Waiting(key)
                    &&& !queued(old(self).view(), key)
                    &&& final(self).view() == after_enqueue(old(self).view(), key, permits as nat, waker)
                    &&& final(wakers)@ == old(wakers)@
                },
                AcquireState::Waiting(k) => {
                    let p = position(old(self).view(), k);
                    if old(self).view().waiting[p].woke {
                        &&& ready
                        &&& *final(state) is Done
                        &&& final(self).view() == after_grant(old(self).view(), p)
                        &&& final(wakers)@ == old(wakers)@ + grant_wakers(old(self).view(), p)
                    } else {
                        &&& !ready
                        &&& *final(state) == *old(state)
                        &&& final(self).view() == with_waker(old(self).view(), p, Some(waker))
                        &&& final(wakers)@ == old(wakers)@
                    }
                },
                AcquireState::Done => false,
            },
    {
        proof {
            self.lemma_keys_of_view();
        }
        match *state {
            AcquireState::Idle => {
                if self.try_acquire(permits) {
                    true
                } else {
                    let key = self.add(waker, permits);
                    proof {
                        self.lemma_keys_of_view();
                        old(self).lemma_keys_of_view();
                    }
                    *state = AcquireState::Waiting(key);
                    false
                }
            },
            AcquireState::Waiting(i) => {
                let ghost v0 = self.view();
                let ghost p = position(v0, i);
                proof {
                    assert(self.keys()[p] == i);
                    assert(self.keys().contains(i));
                    assert(slab_waiters(self.waiters).contains_key(i));
                }
                let ghost m0 = slab_waiters(self.waiters);
                let w = slot_mut(&mut self.waiters, i);
                if w.woke {
                    let required = w.required;
                    proof {
                        assert(slab_waiters(self.waiters) =~= m0);
                        assert(v0.waiting[p].woke);
                        assert(demand(v0.waiting, p + 1) == demand(v0.waiting, p) + required);
                        lemma_demand_monotone(v0.waiting, 0, p);
                    }
                    assert(self.permits >= required);
                    self.remove(i);
                    proof {
                        let v1 = self.view();
                        v0.waiting.remove_ensures(p);
                        assert(v1.waiting == v0.waiting.remove(p)) by {
                            assert(v0.waiting[p].key == i);
                            assert forall|pp: int|
                                0 <= pp < old(self).keys().len() && old(self).keys()[pp] == i implies pp == p by {
                                if pp != p {
                                    assert(v0.waiting[pp].key == i);
                                }
                            }
                        }
                    }
                    self.permits = self.permits - required;
                    proof {
                        let v = self.view();
                        assert forall|a: int| 0 <= a < v.waiting.len() && #[trigger] v.waiting[a].woke implies demand(
                            v.waiting,
                            a + 1,
                        ) <= v.permits by {
                            if a < p {
                                lemma_demand_prefix(v.waiting, v0.waiting, a + 1);
                                lemma_demand_monotone(v0.waiting, a + 1, p);
                            } else {
                                assert(v.waiting[a] == v0.waiting[a + 1]);
                                lemma_demand_remove(v0.waiting, p, a + 1);
                            }
                        }
                    }
                    self.wake(wakers);
                    *state = AcquireState::Done;
                    true
                } else {
                    w.waker = Some(waker);
                    proof {
                        let v = self.view();
                        assert(v0.waiting[p].key == i);
                        assert forall|a: int| 0 <= a < v0.waiting.len() && a != p implies #[trigger] v.waiting[a]
                            == v0.waiting[a] by {
                            assert(self.keys()[a] == old(self).keys()[a]);
                            assert(v0.waiting[a].key != v0.waiting[p].key);
                        }
                        assert(v.waiting =~= with_waker(v0, p, Some(waker)).waiting);
                        assert forall|a: int| 0 <= a < v.waiting.len() && #[trigger] v.waiting[a].woke implies demand(
                            v.waiting,
                            a + 1,
                        ) <= v.permits by {
                            lemma_demand_prefix(v.waiting, v0.waiting, a + 1);
                        }
                    }
                    false
                }
            },
            AcquireState::Done => {
                false
            },
        }
    }

    /// Adds `permits` free permits and wakes the waiters that they cover,
    /// handing their wakers to `wakers`.
    fn put_permits(&mut self, permits: usize, wakers: &mut Vec<Waker>)
        requires
            old(self).wf(),
            old(self).view().permits + permits <= usize::MAX,
        ensures
            final(self).wf(),
            final(self).permits == old(self).permits + permits,
            final(self).view() == after_add_permits(old(self).view(), permits as nat),
            final(wakers)@ == old(wakers)@ + add_permits_wakers(old(self).view(), permits as nat),
    {
        if permits == 0 {
            return;
        }
        let ghost v0 = self.view();
        self.permits = self.permits + permits;
        proof {
            let v = self.view();
            assert(v.waiting == v0.waiting);
            assert(valid_view(v0));
            assert forall|i: int| 0 <= i < v.waiting.len() && #[trigger] v.waiting[i].woke implies demand(
                v.waiting,
                i + 1,
            ) <= v.permits by {}
        }
        self.wake(wakers);
    }

    /// The queue's keys are those of the view's waiters.
    proof fn lemma_keys_of_view(self)
        requires
            self.wf(),
        ensures
            self.keys().len() == self.view().waiting.len(),
            forall|i: int| 0 <= i < self.keys().len() ==> #[trigger] self.view().waiting[i].key == self.keys()[i],
            forall|k: usize| queued(self.view(), k) <==> #[trigger] self.keys().contains(k),
    {
        assert forall|k: usize| queued(self.view(), k) <==> #[trigger] self.keys().contains(k) by {
            if self.keys().contains(k) {
                let i = choose|i: int| 0 <= i < self.keys().len() && self.keys()[i] == k;
                assert(self.view().waiting[i].key == k);
            }
        }
    }

    fn try_acquire(&mut self, required: usize) -> (r: bool)
        requires
            old(self).wf(),
        ensures
            final(self).wf(),
            r == can_acquire(old(self).view(), required as nat),
            final(self).view() == (if r {
                SemaphoreView {
                    permits: (old(self).view().permits - required) as nat,
                    waiting: old(self).view().waiting,
                }
            } else {
                old(self).view()
            }),
            final(self).keys() == old(self).keys(),
    {
        let empty = slab_is_empty(&self.waiters);
        proof {
            if self.queue@.len() > 0 {
                assert(self.queue@.contains(self.queue@[0]));
                assert(slab_waiters(self.waiters).contains_key(self.queue@[0]));
                assert(slab_waiters(self.waiters).dom().contains(self.queue@[0]));
            } else {
                assert(slab_waiters(self.waiters).dom() =~= Set::<usize>::empty());
            }
        }
        if self.permits >= required && (empty || required == 0) {
            self.permits = self.permits - required;
            proof {
                let v = self.view();
                assert forall|i: int|
                    0 <= i < v.waiting.len() && #[trigger] v.waiting[i].woke implies demand(
                    v.waiting,
                    i + 1,
                ) <= v.permits by {}
            }
            true
        } else {
            false
        }
    }
}

/// Whether `acquire` is an acquisition of this semaphore that may be
/// polled: not completed, and when queued, queued here for its permits.
pub open spec fn tracks(v: SemaphoreView, acquire: Acquire) -> bool {
    match acquire.state {
        AcquireState::Idle => true,
        AcquireState::Waiting(k) => queued(v, k) && v.waiting[position(v, k)].required
            == acquire.permits,
        AcquireState::Done => false,
    }
}

/// A counting semaphore. Waiters are served oldest first, and a request for
/// permits never overtakes a queued waiter.
///
/// It keeps account of its permits: those it started with or was given by
/// `add_permits` (supplied), those it handed out in a [`Permit`], and those
/// that `release` gave back. The free permits are always what was supplied
/// and given back less what was handed out.
pub struct Semaphore {
    inner: Inner,
    supplied: Ghost<nat>,
    handed_out: Ghost<nat>,
    given_back: Ghost<nat>,
}

impl View for Semaphore {
    type V = SemaphoreView;

    closed spec fn view(&self) -> SemaphoreView {
        self.inner.view()
    }
}

impl Semaphore {
    pub closed spec fn wf(&self) -> bool {
        &&& self.inner.wf()
        &&& self.inner.permits + self.handed_out@ == self.supplied@ + self.given_back@
    }

    /// The permits that the semaphore started with, and those added since.
    pub closed spec fn supplied(&self) -> nat {
        self.supplied@
    }

    /// The permits that the semaphore handed out in a [`Permit`].
    pub closed spec fn handed_out(&self) -> nat {
        self.handed_out@
    }

    /// The permits that `release` gave back.
    pub closed spec fn given_back(&self) -> nat {
        self.given_back@
    }

    /// Creates a semaphore with `permits` free permits and no waiters.
    pub fn new(permits: usize) -> (s: Self)
        ensures
            s.wf(),
            s@ == (SemaphoreView { permits: permits as nat, waiting: Seq::<WaitEntry>::empty() }),
            s.supplied() == permits,
            s.handed_out() == 0,
            s.given_back() == 0,
    {
        let s = Semaphore {
            inner: Inner {
                permits,
                head: None,
                tail: None,
                waiters: slab_new(),
                queue: Ghost(Seq::empty()),
            },
            supplied: Ghost(permits as nat),
            handed_out: Ghost(0),
            given_back: Ghost(0),
        };
        proof {
            assert(s.inner.view().waiting =~= Seq::<WaitEntry>::empty());
            assert forall|k: usize| #[trigger] s.inner.slots().contains_key(k) <==> s.inner.keys().contains(k) by {
                assert(!s.inner.slots().dom().contains(k));
            }
        }
        s
    }

    /// Starts an acquisition of `permits` permits; poll it with
    /// [`Semaphore::poll_acquire`].
    pub fn acquire(&self, permits: usize) -> (a: Acquire)
        ensures
            a.state is Idle,
            a.permits == permits,
    {
        Acquire { state: AcquireState::Idle, permits }
    }

    /// Polls an acquisition on behalf of the task that `waker` wakes. On its
    /// first poll it takes the permits at once if it can, and otherwise
    /// queues with `waker`; once queued, it takes them when it has been
    /// woken, and until then keeps `waker` in place of the one it held.
    /// Taking the permits wakes the waiters behind that the rest covers:
    /// their wakers are handed to `wakers`, for the caller to wake.
    pub fn poll_acquire(&mut self, acquire: &mut Acquire, waker: Waker, wakers: &mut Vec<Waker>) -> (permit: Option<Permit>)
        requires
            old(self).wf(),
            tracks(old(self)@, *old(acquire)),
        ensures
            final(self).wf(),
            final(acquire).permits == old(acquire).permits,
            !(final(acquire).state is Done) ==> tracks(final(self)@, *final(acquire)),
            permit matches Some(p) ==> p@ == old(acquire).permits,
            final(self).supplied() == old(self).supplied(),
            final(self).given_back() == old(self).given_back(),
            final(self).handed_out() == old(self).handed_out() + match permit {
                Some(p) => p@,
                None => 0,
            },
            match old(acquire).state {
                AcquireState::Idle => if can_acquire(old(self)@, old(acquire).permits as nat) {
                    &&& permit is Some
                    &&& final(acquire).state is Idle
                    &&& final(self)@ == after_try_acquire(old(self)@, old(acquire).permits as nat)
                    &&& final(wakers)@ == old(wakers)@
                } else {
                    &&& permit is None
                    &&& final(acquire).state matches AcquireState::Waiting(key)
                    &&& !queued(old(self)@, key)
                    &&& final(self)@ == after_enqueue(old(self)@, key, old(acquire).permits as nat, waker)
                    &&& final(wakers)@ == old(wakers)@
                },
                AcquireState::Waiting(k) => {
                    let p = position(old(self)@, k);
                    if old(self)@.waiting[p].woke {
                        &&& permit is Some
                        &&& final(acquire).state is Done
                        &&& final(self)@ == after_grant(old(self)@, p)
                        &&& final(wakers)@ == old(wakers)@ + grant_wakers(old(self)@, p)
                    } else {
                        &&& permit is None
                        &&& final(acquire).state == old(acquire).state
                        &&& final(self)@ == with_waker(old(self)@, p, Some(waker))
                        &&& final(wakers)@ == old(wakers)@
                    }
                },
                AcquireState::Done => false,
            },
    {
        let ready = self.inner.poll_acquire(acquire.permits, &mut acquire.state, waker, wakers);
        proof {
            let v = self@;
            match old(acquire).state {
                AcquireState::Waiting(k) => {
                    let v0 = old(self)@;
                    let p = position(v0, k);
                    if !v0.waiting[p].woke {
                        let p2 = position(v, k);
                        assert(v.waiting[p].key == k);
                        assert(queued(v, k));
                        assert(v.waiting[p2].key == k);
                        if p2 != p {
                            assert(v.waiting[p2].key != v.waiting[p].key);
                        }
                    }
                },
                _ => {},
            }
            match acquire.state {
                AcquireState::Waiting(key) if old(acquire).state is Idle => {
                    assert(v.waiting[v.waiting.len() - 1].key == key);
                    assert(queued(v, key));
                    let p = position(v, key);
                    assert(v.waiting[p].key == key);
                    if p != v.waiting.len() - 1 {
                        assert(v.waiting[p].key != v.waiting[v.waiting.len() - 1].key);
                    }
                },
                _ => {},
            }
        }
        if ready {
            proof {
                match old(acquire).state {
                    AcquireState::Waiting(k) => {
                        let p = position(old(self)@, k);
                        old(self).lemma_valid_view();
                        law_woken_waiter_is_covered(old(self)@, p);
                    },
                    _ => {},
                }
            }
            self.handed_out = Ghost((self.handed_out@ + acquire.permits) as nat);
            Some(Permit { permits: acquire.permits })
        } else {
            None
        }
    }

    /// Abandons an acquisition: a queued waiter leaves the queue, and the
    /// waiters behind it are woken as far as the free permits cover them.
    pub fn cancel(&mut self, acquire: Acquire, wakers: &mut Vec<Waker>)
        requires
            old(self).wf(),
            tracks(old(self)@, acquire) || acquire.state is Done,
        ensures
            final(self).wf(),
            final(self)@ == match acquire.state {
                AcquireState::Waiting(k) => after_cancel(old(self)@, position(old(self)@, k)),
                _ => old(self)@,
            },
            final(wakers)@ == old(wakers)@ + match acquire.state {
                AcquireState::Waiting(k) => cancel_wakers(old(self)@, position(old(self)@, k)),
                _ => Seq::empty(),
            },
    {
        match acquire.state {
            AcquireState::Waiting(i) => {
                proof {
                    self.inner.lemma_keys_of_view();
                }
                let ghost v0 = self@;
                let ghost p = position(v0, i);
                self.inner.remove(i);
                proof {
                    let v1 = self@;
                    assert(v1.waiting == v0.waiting.remove(p)) by {
                        assert(v0.waiting[p].key == i);
                        assert forall|pp: int|
                            0 <= pp < old(self).inner.keys().len() && old(self).inner.keys()[pp] == i implies pp
                            == p by {
                            if pp != p {
                                assert(v0.waiting[pp].key == i);
                            }
                        }
                    }
                }
                self.inner.wake(wakers);
            },
            _ => {},
        }
    }

    /// Takes `permits` permits if they are free and no task is queued (or
    /// `permits` is zero).
    pub fn try_acquire(&mut self, permits: usize) -> (permit: Option<Permit>)
        requires
            old(self).wf(),
        ensures
            final(self).wf(),
            permit is Some <==> can_acquire(old(self)@, permits as nat),
            permit matches Some(p) ==> p@ == permits,
            final(self)@ == after_try_acquire(old(self)@, permits as nat),
            final(self).supplied() == old(self).supplied(),
            final(self).given_back() == old(self).given_back(),
            final(self).handed_out() == old(self).handed_out() + match permit {
                Some(p) => p@,
                None => 0,
            },
    {
        if self.inner.try_acquire(permits) {
            self.handed_out = Ghost((self.handed_out@ + permits) as nat);
            Some(Permit { permits })
        } else {
            None
        }
    }

    /// The number of free permits.
    pub fn permits(&self) -> (n: usize)
        ensures
            n == self@.permits,
    {
        self.inner.permits
    }

    /// Adds `permits` free permits and wakes the waiters that they cover:
    /// their wakers are handed to `wakers`, oldest first, for the caller to
    /// wake.
    pub fn add_permits(&mut self, permits: usize, wakers: &mut Vec<Waker>)
        requires
            old(self).wf(),
            old(self)@.permits + permits <= usize::MAX,
        ensures
            final(self).wf(),
            final(self)@ == after_add_permits(old(self)@, permits as nat),
            final(wakers)@ == old(wakers)@ + add_permits_wakers(old(self)@, permits as nat),
            final(self).supplied() == old(self).supplied() + permits,
            final(self).handed_out() == old(self).handed_out(),
            final(self).given_back() == old(self).given_back(),
    {
        self.inner.put_permits(permits, wakers);
        self.supplied = Ghost((self.supplied@ + permits) as nat);
    }

    /// Gives back the permits that `permit` holds, waking the waiters that
    /// they cover as `add_permits` does.
    pub fn release(&mut self, permit: Permit, wakers: &mut Vec<Waker>)
        requires
            old(self).wf(),
            old(self)@.permits + permit@ <= usize::MAX,
        ensures
            final(self).wf(),
            final(self)@ == after_add_permits(old(self)@, permit@),
            final(wakers)@ == old(wakers)@ + add_permits_wakers(old(self)@, permit@),
            final(self).supplied() == old(self).supplied(),
            final(self).handed_out() == old(self).handed_out(),
            final(self).given_back() == old(self).given_back() + permit@,
    {
        self.inner.put_permits(permit.permits, wakers);
        self.given_back = Ghost((self.given_back@ + permit.permits) as nat);
    }

    /// Whether a waiter is queued under `key`.
    pub fn is_queued(&self, key: usize) -> (r: bool)
        requires
            self.wf(),
        ensures
            r == queued(self@, key),
    {
        proof {
            self.inner.lemma_keys_of_view();
        }
        slab_contains(&self.inner.waiters, key)
    }
}

// Laws of the semaphore, over the states that its operations produce.

/// A woken waiter can always take its permits: granting never runs short.
pub proof fn law_woken_waiter_is_covered(v: SemaphoreView, p: int)
    requires
        valid_view(v),
        0 <= p < v.waiting.len(),
        v.waiting[p].woke,
    ensures
        v.waiting[p].required <= v.permits,
{
    assert(demand(v.waiting, p + 1) == demand(v.waiting, p) + v.waiting[p].required);
    lemma_demand_monotone(v.waiting, 0, p);
}

/// Permits are neither made nor lost: taking permits moves them from the
/// free count into the permit taken, giving permits back adds exactly them,
/// a woken waiter's grant moves exactly what it asked for, and queueing or
/// giving up waiting leaves the free count as it was.
pub proof fn law_permits_conserved(v: SemaphoreView, n: nat, p: int, key: usize, w: Waker)
    requires
        valid_view(v),
    ensures
        can_acquire(v, n) ==> after_try_acquire(v, n).permits + n == v.permits,
        after_add_permits(v, n).permits == v.permits + n,
        after_enqueue(v, key, n, w).permits == v.permits,
        0 <= p < v.waiting.len() ==> after_cancel(v, p).permits == v.permits,
        0 <= p < v.waiting.len() && v.waiting[p].woke ==> after_grant(v, p).permits
            + v.waiting[p].required == v.permits,
{
    if 0 <= p < v.waiting.len() && v.waiting[p].woke {
        law_woken_waiter_is_covered(v, p);
    }
}

/// A request for permits never overtakes a queued waiter.
pub proof fn law_no_barging(v: SemaphoreView, required: nat)
    requires
        v.waiting.len() > 0,
        required > 0,
    ensures
        !can_acquire(v, required),
{
}

/// Taking permits and giving them back restores the semaphore.
pub proof fn law_acquire_release(v: SemaphoreView, required: nat)
    requires
        can_acquire(v, required),
    ensures
        after_add_permits(after_try_acquire(v, required), required) == v,
{
    if required > 0 {
        assert(woken(v.waiting, v.permits as int) =~= v.waiting);
    }
}

/// Waking serves the oldest waiters first: when a waiter has been woken, so
/// has every waiter that queued before it.
pub proof fn law_oldest_woken_first(v: SemaphoreView, budget: int, i: int, j: int)
    requires
        valid_view(v),
        0 <= i < j < v.waiting.len(),
        woken(v.waiting, budget)[j].woke,
    ensures
        woken(v.waiting, budget)[i].woke,
{
    if !v.waiting[j].woke {
        lemma_demand_monotone(v.waiting, i + 1, j + 1);
    }
}

/// Waking twice with the same permits wakes no one more.
pub proof fn law_wake_idempotent(s: Seq<WaitEntry>, budget: int)
    ensures
        woken(woken(s, budget), budget) == woken(s, budget),
{
    assert forall|i: int| 0 <= i < s.len() implies #[trigger] woken(woken(s, budget), budget)[i]
        == woken(s, budget)[i] by {
        lemma_woken_demand(s, budget, i + 1);
    }
    assert(woken(woken(s, budget), budget) =~= woken(s, budget));
}

/// With a single permit (a mutex), a second holder is refused until the
/// first gives the permit back.
pub proof fn law_single_permit_excludes(v: SemaphoreView)
    requires
        v.permits == 1,
        can_acquire(v, 1),
    ensures
        !can_acquire(after_try_acquire(v, 1), 1),
        can_acquire(after_add_permits(after_try_acquire(v, 1), 1), 1),
{
    law_acquire_release(v, 1);
}

/// With all `usize::MAX` permits as the capacity (a read-write lock), any
/// reader holding a permit keeps a writer out, and a writer holding all of
/// them keeps every reader out.
pub proof fn law_readers_and_writer_exclude(v: SemaphoreView)
    requires
        v.permits <= usize::MAX,
    ensures
        v.permits < usize::MAX ==> !can_acquire(v, usize::MAX as nat),
        can_acquire(v, usize::MAX as nat) ==> !can_acquire(
            after_try_acquire(v, usize::MAX as nat),
            1,
        ),
{
}

/// A waker stays among those handed out once a later waiter's turn comes.
proof fn lemma_handed_contains(s: Seq<WaitEntry>, budget: int, n: int, p: int, w: Waker)
    requires
        0 <= p < n <= s.len(),
        !s[p].woke,
        demand(s, p + 1) <= budget,
        s[p].waker == Some(w),
    ensures
        handed(s, budget, n).contains(w),
    decreases n,
{
    if p == n - 1 {
        let h = handed(s, budget, n);
        assert(h[h.len() - 1] == w);
    } else {
        lemma_handed_contains(s, budget, n - 1, p, w);
        let h0 = handed(s, budget, n - 1);
        let i = choose|i: int| 0 <= i < h0.len() && h0[i] == w;
        assert(handed(s, budget, n)[i] == w);
    }
}

/// A waiting task whose request the free permits cover, together with all
/// older ones, once permits are added, is woken: it is marked as woken and
/// its waker is among those that `add_permits` hands out.
pub proof fn law_covered_waiter_is_woken(v: SemaphoreView, n: nat, p: int, w: Waker)
    requires
        n > 0,
        0 <= p < v.waiting.len(),
        !v.waiting[p].woke,
        v.waiting[p].waker == Some(w),
        demand(v.waiting, p + 1) <= v.permits + n,
    ensures
        after_add_permits(v, n).waiting[p].woke,
        add_permits_wakers(v, n).contains(w),
{
    lemma_handed_contains(v.waiting, (v.permits + n) as int, v.waiting.len() as int, p, w);
}

/// When a woken waiter takes its permits, the waiters behind it are served
/// from what is left: the free permits drop by exactly what it asked for,
/// the rest of the queue keeps its order, and a remaining waiter is marked
/// woken exactly when it was before or the leftover permits cover it
/// together with all older remaining waiters. Such a newly covered waiter
/// has its waker handed out.
pub proof fn law_grant_wakes_covered(v: SemaphoreView, p: int, i: int, w: Waker)
    requires
        valid_view(v),
        0 <= p < v.waiting.len(),
        v.waiting[p].woke,
        0 <= i < v.waiting.len() - 1,
    ensures
        after_grant(v, p).permits + v.waiting[p].required == v.permits,
        after_grant(v, p).waiting.len() == v.waiting.len() - 1,
        after_grant(v, p).waiting[i].key == v.waiting.remove(p)[i].key,
        after_grant(v, p).waiting[i].required == v.waiting.remove(p)[i].required,
        after_grant(v, p).waiting[i].woke == (v.waiting.remove(p)[i].woke || demand(
            v.waiting.remove(p),
            i + 1,
        ) + v.waiting[p].required <= v.permits),
        !v.waiting.remove(p)[i].woke && v.waiting.remove(p)[i].waker == Some(w) && demand(
            v.waiting.remove(p),
            i + 1,
        ) + v.waiting[p].required <= v.permits ==> grant_wakers(v, p).contains(w),
{
    law_woken_waiter_is_covered(v, p);
    let s = v.waiting.remove(p);
    let left = v.permits - v.waiting[p].required;
    if !s[i].woke && s[i].waker == Some(w) && demand(s, i + 1) <= left {
        lemma_handed_contains(s, left, s.len() as int, i, w);
    }
}

/// When a queued waiter gives up, whether or not it had been woken, the
/// free permits stay as they are, the rest of the queue keeps its order,
/// and a remaining waiter is marked woken exactly when it was before or the
/// free permits cover it together with all older remaining waiters. Such a
/// newly covered waiter has its waker handed out.
pub proof fn law_cancel_wakes_covered(v: SemaphoreView, p: int, i: int, w: Waker)
    requires
        0 <= p < v.waiting.len(),
        0 <= i < v.waiting.len() - 1,
    ensures
        after_cancel(v, p).permits == v.permits,
        after_cancel(v, p).waiting.len() == v.waiting.len() - 1,
        after_cancel(v, p).waiting[i].key == v.waiting.remove(p)[i].key,
        after_cancel(v, p).waiting[i].required == v.waiting.remove(p)[i].required,
        after_cancel(v, p).waiting[i].woke == (v.waiting.remove(p)[i].woke || demand(
            v.waiting.remove(p),
            i + 1,
        ) <= v.permits),
        !v.waiting.remove(p)[i].woke && v.waiting.remove(p)[i].waker == Some(w) && demand(
            v.waiting.remove(p),
            i + 1,
        ) <= v.permits ==> cancel_wakers(v, p).contains(w),
{
    let s = v.waiting.remove(p);
    if !s[i].woke && s[i].waker == Some(w) && demand(s, i + 1) <= v.permits {
        lemma_handed_contains(s, v.permits as int, s.len() as int, i, w);
    }
}

impl Semaphore {
    /// A well-formed semaphore is in a consistent state: the woken waiters
    /// are the oldest, the free permits cover them, and keys are distinct.
    pub proof fn lemma_valid_view(&self)
        requires
            self.wf(),
        ensures
            valid_view(self@),
    {
    }

    /// The account of the permits balances in every state that the
    /// operations produce: the free permits together with those handed out
    /// make up those supplied together with those given back. So the
    /// permits handed out and not yet given back (held in live permits, or
    /// forgotten) are exactly what is missing from the free ones.
    pub proof fn law_permits_balance(&self)
        requires
            self.wf(),
        ensures
            self@.permits + self.handed_out() == self.supplied() + self.given_back(),
    {
    }
}

} // verus!
