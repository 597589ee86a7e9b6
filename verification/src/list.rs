//! A doubly linked list whose nodes live in an arena owned by the list.
//!
//! A node added to the list is named by the handle that `add_front` returns,
//! and can be removed by that handle from anywhere in the list. The list
//! runs from its first node (the most recently added at the front) to its
//! last node.
use vstd::prelude::*;

verus! {

/// A node which carries data of type `T` and is stored in a list.
pub struct ListNode<T> {
    /// The neighbour towards the front of the list.
    prev: Option<usize>,
    /// The neighbour towards the back of the list.
    next: Option<usize>,
    /// The data which is associated to this list item.
    data: T,
}

impl<T> ListNode<T> {
    /// Creates a new node with the associated data.
    pub fn new(data: T) -> (node: ListNode<T>)
        ensures
            node.value() == data,
            node.is_unlinked(),
    {
        ListNode { prev: None, next: None, data }
    }

    pub closed spec fn value(&self) -> T {
        self.data
    }

    /// The node is in no list.
    pub closed spec fn is_unlinked(&self) -> bool {
        self.prev is None && self.next is None
    }

    /// The data of the node.
    pub fn get(&self) -> (data: &T)
        ensures
            *data == self.value(),
    {
        &self.data
    }

    /// Takes the data out of the node.
    pub fn into_inner(self) -> (data: T)
        ensures
            data == self.value(),
    {
        self.data
    }
}

/// A doubly linked list of nodes, where each node carries data of type `T`.
pub struct LinkedList<T> {
    slots: Vec<Option<ListNode<T>>>,
    free: Vec<usize>,
    head: Option<usize>,
    tail: Option<usize>,
    /// The handles of the nodes, from the first to the last.
    order: Ghost<Seq<usize>>,
}

/// The node in slot `k`.
spec fn slot_node<T>(slots: Seq<Option<ListNode<T>>>, k: usize) -> ListNode<T> {
    slots[k as int].unwrap()
}

/// `q` (first to last) is the list that `slots` links from `head` to
/// `tail`, and `free` lists vacant slots.
spec fn chain_ok<T>(
    q: Seq<usize>,
    slots: Seq<Option<ListNode<T>>>,
    free: Seq<usize>,
    head: Option<usize>,
    tail: Option<usize>,
) -> bool {
    let n = q.len();
    &&& forall|i: int, j: int| 0 <= i < j < n ==> #[trigger] q[i] != #[trigger] q[j]
    &&& forall|i: int| 0 <= i < n ==> #[trigger] q[i] < slots.len() && slots[q[i] as int] is Some
    &&& forall|k: usize| k < slots.len() && #[trigger] slots[k as int] is Some ==> q.contains(k)
    &&& forall|i: int|
        0 <= i < free.len() ==> #[trigger] free[i] < slots.len() && slots[free[i] as int] is None
    &&& forall|i: int, j: int| 0 <= i < j < free.len() ==> #[trigger] free[i] != #[trigger] free[j]
    &&& head == (if n == 0 { None } else { Some(q[0]) })
    &&& tail == (if n == 0 { None } else { Some(q[n - 1]) })
    &&& forall|i: int|
        0 <= i < n ==> (#[trigger] slot_node(slots, q[i])).prev == (if i == 0 {
            None
        } else {
            Some(q[i - 1])
        })
    &&& forall|i: int|
        0 <= i < n ==> (#[trigger] slot_node(slots, q[i])).next == (if i == n - 1 {
            None
        } else {
            Some(q[i + 1])
        })
}

/// Sets the neighbour towards the front of the node in slot `k`.
fn set_prev<T>(slots: &mut Vec<Option<ListNode<T>>>, k: usize, prev: Option<usize>)
    requires
        k < old(slots)@.len(),
        old(slots)@[k as int] is Some,
    ensures
        final(slots)@ == old(slots)@.update(
            k as int,
            Some(
                ListNode {
                    prev: prev,
                    next: slot_node(old(slots)@, k).next,
                    data: slot_node(old(slots)@, k).data,
                },
            ),
        ),
{
    let mut n = slots[k].take().unwrap();
    n.prev = prev;
    slots.set(k, Some(n));
}

/// Sets the neighbour towards the back of the node in slot `k`.
fn set_next<T>(slots: &mut Vec<Option<ListNode<T>>>, k: usize, next: Option<usize>)
    requires
        k < old(slots)@.len(),
        old(slots)@[k as int] is Some,
    ensures
        final(slots)@ == old(slots)@.update(
            k as int,
            Some(
                ListNode {
                    prev: slot_node(old(slots)@, k).prev,
                    next: next,
                    data: slot_node(old(slots)@, k).data,
                },
            ),
        ),
{
    let mut n = slots[k].take().unwrap();
    n.next = next;
    slots.set(k, Some(n));
}

/// Unlinking the node at `p`, joining its neighbours and freeing its slot
/// leaves the list without it.
proof fn lemma_chain_unlink<T>(
    q: Seq<usize>,
    s0: Seq<Option<ListNode<T>>>,
    f0: Seq<usize>,
    head0: Option<usize>,
    tail0: Option<usize>,
    p: int,
    s: Seq<Option<ListNode<T>>>,
    f: Seq<usize>,
    head: Option<usize>,
    tail: Option<usize>,
)
    requires
        chain_ok(q, s0, f0, head0, tail0),
        0 <= p < q.len(),
        s.len() == s0.len(),
        s[q[p] as int] is None,
        forall|k: usize|
            k < s.len() && k != q[p] && Some(k) != slot_node(s0, q[p]).prev && Some(k)
                != slot_node(s0, q[p]).next ==> #[trigger] s[k as int] == s0[k as int],
        slot_node(s0, q[p]).prev matches Some(pv) ==> s[pv as int] == Some(
            ListNode {
                prev: slot_node(s0, pv).prev,
                next: slot_node(s0, q[p]).next,
                data: slot_node(s0, pv).data,
            },
        ),
        slot_node(s0, q[p]).next matches Some(nx) ==> s[nx as int] == Some(
            ListNode {
                prev: slot_node(s0, q[p]).prev,
                next: slot_node(s0, nx).next,
                data: slot_node(s0, nx).data,
            },
        ),
        head == (if slot_node(s0, q[p]).prev is None {
            slot_node(s0, q[p]).next
        } else {
            head0
        }),
        tail == (if slot_node(s0, q[p]).next is None {
            slot_node(s0, q[p]).prev
        } else {
            tail0
        }),
        f == f0.push(q[p]),
    ensures
        chain_ok(q.remove(p), s, f, head, tail),
        forall|i: int|
            0 <= i < q.remove(p).len() ==> #[trigger] slot_node(s, q.remove(p)[i]).data == slot_node(
                s0,
                q.remove(p)[i],
            ).data,
{
    let n = q.len();
    let q2 = q.remove(p);
    let handle = q[p];
    q.remove_ensures(p);
    assert(q[p] < s0.len());
    assert(slot_node(s0, q[p]).prev == (if p == 0 { None } else { Some(q[p - 1]) }));
    assert(slot_node(s0, q[p]).next == (if p == n - 1 { None } else { Some(q[p + 1]) }));
    assert forall|i: int| 0 <= i < n && i != p implies #[trigger] q[i] != handle by {}
    assert forall|i: int|
        0 <= i < q2.len() implies #[trigger] q2[i] < s.len() && s[q2[i] as int] is Some
        && slot_node(s, q2[i]).data == slot_node(s0, q2[i]).data by {
        let i0 = if i < p { i } else { i + 1 };
        assert(q2[i] == q[i0]);
        assert(q[i0] < s0.len());
    }
    assert forall|i: int, j: int| 0 <= i < j < q2.len() implies #[trigger] q2[i] != #[trigger] q2[j] by {
        let i0 = if i < p { i } else { i + 1 };
        let j0 = if j < p { j } else { j + 1 };
        assert(q[i0] != q[j0]);
    }
    assert forall|k: usize| k < s.len() && #[trigger] s[k as int] is Some implies q2.contains(k) by {
        assert(k != handle);
        if p > 0 && k == q[p - 1] {
            assert(q[p - 1] < s0.len());
        } else if p + 1 < n && k == q[p + 1] {
            assert(q[p + 1] < s0.len());
        } else {
            assert(s[k as int] == s0[k as int]);
        }
        assert(s0[k as int] is Some);
        assert(q.contains(k));
        let i = choose|i: int| 0 <= i < q.len() && q[i] == k;
        assert(i != p);
        if i < p {
            assert(q2[i] == k);
        } else {
            assert(q2[i - 1] == k);
        }
    }
    assert forall|i: int| 0 <= i < f.len() implies #[trigger] f[i] < s.len() && s[f[i] as int] is None by {
        if i < f.len() - 1 {
            assert(f[i] == f0[i]);
            assert(s0[f0[i] as int] is None);
            assert(f0[i] != handle);
        }
    }
    assert forall|i: int, j: int| 0 <= i < j < f.len() implies #[trigger] f[i] != #[trigger] f[j] by {
        if j < f.len() - 1 {
            assert(f[i] == f0[i]);
            assert(f[j] == f0[j]);
        } else {
            assert(f[i] == f0[i]);
            assert(s0[f[i] as int] is None);
        }
    }
    assert forall|i: int| 0 <= i < q2.len() implies (#[trigger] slot_node(s, q2[i])).prev == (if i == 0 {
        None
    } else {
        Some(q2[i - 1])
    }) && slot_node(s, q2[i]).next == (if i == q2.len() - 1 {
        None
    } else {
        Some(q2[i + 1])
    }) by {
        let i0 = if i < p { i } else { i + 1 };
        assert(q2[i] == q[i0]);
        assert(q[i0] < s0.len());
        assert(slot_node(s0, q[i0]).prev == (if i0 == 0 { None } else { Some(q[i0 - 1]) }));
        assert(slot_node(s0, q[i0]).next == (if i0 == n - 1 { None } else { Some(q[i0 + 1]) }));
    }
}

/// Where `handle` stands in `handles`.
pub open spec fn position_of(handles: Seq<usize>, handle: usize) -> int {
    choose|p: int| 0 <= p < handles.len() && handles[p] == handle
}

impl<T> LinkedList<T> {
    pub closed spec fn wf(&self) -> bool {
        chain_ok(self.order@, self.slots@, self.free@, self.head, self.tail)
    }

    /// The handles of the nodes, from the first to the last.
    pub closed spec fn handles(&self) -> Seq<usize> {
        self.order@
    }

    /// The data of the nodes, from the first to the last.
    pub closed spec fn values(&self) -> Seq<T> {
        self.order@.map_values(|k: usize| slot_node(self.slots@, k).data)
    }

    /// Creates an empty linked list.
    pub fn new() -> (list: Self)
        ensures
            list.wf(),
            list.values() == Seq::<T>::empty(),
            list.handles() == Seq::<usize>::empty(),
    {
        let list = LinkedList { slots: Vec::new(), free: Vec::new(), head: None, tail: None, order: Ghost(Seq::empty()) };
        proof {
            assert(list.values() =~= Seq::<T>::empty());
        }
        list
    }

    /// Adds a node at the front of the linked list and returns the handle
    /// under which it can be removed.
    pub fn add_front(&mut self, node: ListNode<T>) -> (handle: usize)
        requires
            old(self).wf(),
        ensures
            final(self).wf(),
            !old(self).handles().contains(handle),
            final(self).handles() == seq![handle] + old(self).handles(),
            final(self).values() == seq![node.value()] + old(self).values(),
    {
        let ghost q = self.order@;
        let ghost s0 = self.slots@;
        let mut node = node;
        node.next = self.head;
        node.prev = None;
        let key = match self.free.pop() {
            Some(k) => {
                proof {
                    assert(self.free@ == old(self).free@.drop_last());
                    assert(old(self).free@[old(self).free@.len() - 1] == k);
                }
                self.slots.set(k, Some(node));
                k
            },
            None => {
                self.slots.push(Some(node));
                self.slots.len() - 1
            },
        };
        proof {
            if q.contains(key) {
                let i = choose|i: int| 0 <= i < q.len() && q[i] == key;
                assert(s0[q[i] as int] is Some);
            }
            assert forall|i: int| 0 <= i < q.len() implies #[trigger] q[i] != key by {
                assert(q.contains(q[i]));
            }
        }
        let ghost s1 = self.slots@;
        match self.head {
            Some(h) => {
                set_prev(&mut self.slots, h, Some(key));
            },
            None => {},
        }
        self.head = Some(key);
        if self.tail.is_none() {
            self.tail = Some(key);
        }
        self.order = Ghost(seq![key] + q);
        proof {
            let q2 = self.order@;
            let s = self.slots@;
            let n = q.len();
            assert forall|i: int| 0 <= i < n implies #[trigger] q2[i + 1] == q[i] by {}
            assert forall|i: int| 0 <= i < n implies s[q[i] as int] is Some && slot_node(s, q[i]).next == slot_node(s0, q[i]).next
                && slot_node(s, q[i]).data == slot_node(s0, q[i]).data && (i > 0 ==> slot_node(s, q[i]).prev == slot_node(s0, q[i]).prev)
                by {
                assert(q[i] < s0.len() && s0[q[i] as int] is Some);
            }
            assert forall|k: usize| k < s.len() && #[trigger] s[k as int] is Some implies q2.contains(k) by {
                if k == key {
                    assert(q2[0] == key);
                } else {
                    assert(s0[k as int] is Some);
                    assert(q.contains(k));
                    let i = choose|i: int| 0 <= i < q.len() && q[i] == k;
                    assert(q2[i + 1] == k);
                }
            }
            assert forall|i: int| 0 <= i < self.free@.len() implies #[trigger] self.free@[i] < s.len()
                && s[self.free@[i] as int] is None by {
                assert(old(self).free@[i] == self.free@[i]);
                if self.free@[i] == key {
                    assert(old(self).free@[i] != old(self).free@[old(self).free@.len() - 1]);
                }
            }
            assert forall|i: int, j: int| 0 <= i < j < q2.len() implies #[trigger] q2[i] != #[trigger] q2[j] by {
                if i > 0 {
                    assert(q[i - 1] != q[j - 1]);
                }
            }
            assert forall|i: int| 0 <= i < q2.len() implies (#[trigger] slot_node(s, q2[i])).prev == (if i == 0 {
                None
            } else {
                Some(q2[i - 1])
            }) && slot_node(s, q2[i]).next == (if i == q2.len() - 1 {
                None
            } else {
                Some(q2[i + 1])
            }) by {
                if i > 0 {
                    assert(q2[i] == q[i - 1]);
                    assert(slot_node(s0, q[i - 1]).prev == (if i - 1 == 0 { None } else { Some(q[i - 2]) }));
                    assert(slot_node(s0, q[i - 1]).next == (if i - 1 == n - 1 { None } else { Some(q[i]) }));
                }
            }
            assert(self.values() =~= seq![node.value()] + old(self).values()) by {
                assert forall|i: int| 0 <= i < q2.len() implies #[trigger] self.values()[i] == (seq![node.value()]
                    + old(self).values())[i] by {
                    if i > 0 {
                        assert(q2[i] == q[i - 1]);
                    }
                }
            }
        }
        key
    }

    /// Unlinks the node under `handle`, frees its slot and returns it.
    fn unlink(&mut self, handle: usize) -> (removed: ListNode<T>)
        requires
            old(self).wf(),
            old(self).handles().contains(handle),
        ensures
            final(self).wf(),
            removed.is_unlinked(),
            exists|p: int|
                0 <= p < old(self).handles().len() && old(self).handles()[p] == handle
                    && final(self).handles() == old(self).handles().remove(p)
                    && final(self).values() == old(self).values().remove(p) && removed.value()
                    == old(self).values()[p],
    {
        let ghost q = self.order@;
        let ghost n = q.len();
        let ghost p = choose|p: int| 0 <= p < q.len() && q[p] == handle;
        let ghost s0 = self.slots@;
        proof {
            assert(q[p] < s0.len());
            assert(slot_node(s0, q[p]).prev == (if p == 0 { None } else { Some(q[p - 1]) }));
            assert(slot_node(s0, q[p]).next == (if p == n - 1 { None } else { Some(q[p + 1]) }));
            if p > 0 {
                assert(q[p - 1] < s0.len());
                assert(q[p - 1] != handle);
            }
            if p + 1 < n {
                assert(q[p + 1] < s0.len());
                assert(q[p + 1] != handle);
                if p > 0 {
                    assert(q[p - 1] != q[p + 1]);
                }
            }
        }
        let mut node = self.slots[handle].take().unwrap();
        let ghost s1 = self.slots@;
        match node.prev {
            None => {
                self.head = node.next;
            },
            Some(pv) => {
                set_next(&mut self.slots, pv, node.next);
            },
        }
        match node.next {
            None => {
                self.tail = node.prev;
            },
            Some(nx) => {
                set_prev(&mut self.slots, nx, node.prev);
            },
        }
        self.free.push(handle);
        node.prev = None;
        node.next = None;
        self.order = Ghost(q.remove(p));
        proof {
            lemma_chain_unlink(q, s0, old(self).free@, old(self).head, old(self).tail, p, self.slots@, self.free@, self.head, self.tail);
            let q2 = self.order@;
            q.remove_ensures(p);
            assert(self.values() =~= old(self).values().remove(p)) by {
                old(self).values().remove_ensures(p);
                assert forall|i: int| 0 <= i < q2.len() implies #[trigger] self.values()[i] == old(
                    self,
                ).values().remove(p)[i] by {
                    let i0 = if i < p { i } else { i + 1 };
                    assert(q2[i] == q[i0]);
                }
            }
        }
        node
    }

    /// Removes the node under `node` from the linked list and returns it,
    /// or `None` if no node of the list has that handle.
    pub fn remove(&mut self, node: usize) -> (removed: Option<ListNode<T>>)
        requires
            old(self).wf(),
        ensures
            final(self).wf(),
            removed is Some <==> old(self).handles().contains(node),
            removed is None ==> final(self).handles() == old(self).handles() && final(self).values()
                == old(self).values(),
            removed matches Some(r) ==> r.is_unlinked() && exists|p: int|
                0 <= p < old(self).handles().len() && old(self).handles()[p] == node
                    && final(self).handles() == old(self).handles().remove(p)
                    && final(self).values() == old(self).values().remove(p) && r.value()
                    == old(self).values()[p],
    {
        if node < self.slots.len() && self.slots[node].is_some() {
            Some(self.unlink(node))
        } else {
            proof {
                if self.order@.contains(node) {
                    let i = choose|i: int| 0 <= i < self.order@.len() && self.order@[i] == node;
                    assert(self.order@[i] < self.slots@.len());
                }
            }
            None
        }
    }

    /// Removes the first node from the linked list and returns it.
    pub fn remove_first(&mut self) -> (removed: Option<ListNode<T>>)
        requires
            old(self).wf(),
        ensures
            final(self).wf(),
            removed is None <==> old(self).values().len() == 0,
            removed is None ==> final(self).handles() == old(self).handles() && final(self).values()
                == old(self).values(),
            removed matches Some(r) ==> r.is_unlinked() && r.value() == old(self).values()[0]
                && final(self).values() == old(self).values().drop_first()
                && final(self).handles() == old(self).handles().drop_first(),
    {
        match self.head {
            None => None,
            Some(h) => {
                proof {
                    assert(self.order@[0] == h);
                    assert(self.order@.contains(h));
                }
                let r = self.unlink(h);
                proof {
                    assert(old(self).handles().remove(0) =~= old(self).handles().drop_first());
                    assert(old(self).values().remove(0) =~= old(self).values().drop_first());
                }
                Some(r)
            },
        }
    }

    /// Removes the last node from the linked list and returns it.
    pub fn remove_last(&mut self) -> (removed: Option<ListNode<T>>)
        requires
            old(self).wf(),
        ensures
            final(self).wf(),
            removed is None <==> old(self).values().len() == 0,
            removed is None ==> final(self).handles() == old(self).handles() && final(self).values()
                == old(self).values(),
            removed matches Some(r) ==> r.is_unlinked() && r.value() == old(self).values().last()
                && final(self).values() == old(self).values().drop_last()
                && final(self).handles() == old(self).handles().drop_last(),
    {
        match self.tail {
            None => None,
            Some(t) => {
                let ghost last = self.order@.len() - 1;
                proof {
                    assert(self.order@[last] == t);
                    assert(self.order@.contains(t));
                }
                let r = self.unlink(t);
                proof {
                    assert(old(self).handles().remove(last) =~= old(self).handles().drop_last());
                    assert(old(self).values().remove(last) =~= old(self).values().drop_last());
                }
                Some(r)
            },
        }
    }

    /// Returns the first node in the linked list without removing it.
    pub fn peek_first(&self) -> (first: Option<&ListNode<T>>)
        requires
            self.wf(),
        ensures
            first is None <==> self.values().len() == 0,
            first matches Some(n) ==> n.value() == self.values()[0],
    {
        match self.head {
            None => None,
            Some(h) => {
                proof {
                    assert(self.order@[0] < self.slots@.len());
                }
                self.slots[h].as_ref()
            },
        }
    }

    /// Returns the last node in the linked list without removing it.
    pub fn peek_last(&self) -> (last: Option<&ListNode<T>>)
        requires
            self.wf(),
        ensures
            last is None <==> self.values().len() == 0,
            last matches Some(n) ==> n.value() == self.values().last(),
    {
        match self.tail {
            None => None,
            Some(t) => {
                proof {
                    assert(self.order@[self.order@.len() - 1] < self.slots@.len());
                }
                self.slots[t].as_ref()
            },
        }
    }

    /// Empties the list and returns its nodes, unlinked, from the first to
    /// the last.
    pub fn drain(&mut self) -> (nodes: Vec<ListNode<T>>)
        requires
            old(self).wf(),
        ensures
            final(self).wf(),
            final(self).values().len() == 0,
            nodes.len() == old(self).values().len(),
            forall|i: int| 0 <= i < nodes.len() ==> (#[trigger] nodes@[i]).value() == old(self).values()[i]
                && nodes@[i].is_unlinked(),
    {
        let mut nodes: Vec<ListNode<T>> = Vec::new();
        loop
            invariant
                self.wf(),
                nodes.len() <= old(self).values().len(),
                self.values() == old(self).values().skip(nodes.len() as int),
                forall|i: int| 0 <= i < nodes.len() ==> (#[trigger] nodes@[i]).value() == old(self).values()[i]
                    && nodes@[i].is_unlinked(),
            ensures
                self.wf(),
                self.values().len() == 0,
                nodes.len() == old(self).values().len(),
                forall|i: int| 0 <= i < nodes.len() ==> (#[trigger] nodes@[i]).value() == old(self).values()[i]
                    && nodes@[i].is_unlinked(),
            decreases self.values().len(),
        {
            match self.remove_first() {
                None => {
                    break;
                },
                Some(node) => {
                    proof {
                        assert(old(self).values().skip(nodes.len() as int)[0] == old(self).values()[nodes.len() as int]);
                        assert(old(self).values().skip(nodes.len() as int).drop_first() =~= old(self).values().skip(
                            nodes.len() + 1,
                        ));
                    }
                    nodes.push(node);
                },
            }
        }
        nodes
    }

    /// Empties the list and returns its nodes, unlinked, from the last to
    /// the first.
    pub fn reverse_drain(&mut self) -> (nodes: Vec<ListNode<T>>)
        requires
            old(self).wf(),
        ensures
            final(self).wf(),
            final(self).values().len() == 0,
            nodes.len() == old(self).values().len(),
            forall|i: int|
                0 <= i < nodes.len() ==> (#[trigger] nodes@[i]).value() == old(self).values()[old(
                    self,
                ).values().len() - 1 - i] && nodes@[i].is_unlinked(),
    {
        let mut nodes: Vec<ListNode<T>> = Vec::new();
        let ghost total = old(self).values().len();
        loop
            invariant
                self.wf(),
                total == old(self).values().len(),
                nodes.len() <= total,
                self.values() == old(self).values().take(total - nodes.len()),
                forall|i: int|
                    0 <= i < nodes.len() ==> (#[trigger] nodes@[i]).value() == old(self).values()[total - 1
                        - i] && nodes@[i].is_unlinked(),
            ensures
                self.wf(),
                self.values().len() == 0,
                nodes.len() == total,
                forall|i: int|
                    0 <= i < nodes.len() ==> (#[trigger] nodes@[i]).value() == old(self).values()[total - 1
                        - i] && nodes@[i].is_unlinked(),
            decreases self.values().len(),
        {
            match self.remove_last() {
                None => {
                    break;
                },
                Some(node) => {
                    proof {
                        let k = total - nodes.len();
                        assert(old(self).values().take(k).last() == old(self).values()[k - 1]);
                        assert(old(self).values().take(k).drop_last() =~= old(self).values().take(k - 1));
                    }
                    nodes.push(node);
                },
            }
        }
        nodes
    }

    /// The nodes of a list have distinct handles.
    pub proof fn lemma_distinct(&self, i: int, j: int)
        requires
            self.wf(),
            0 <= i < self.handles().len(),
            0 <= j < self.handles().len(),
            i != j,
        ensures
            self.handles()[i] != self.handles()[j],
    {
        if i < j {
            assert(self.order@[i] != self.order@[j]);
        } else {
            assert(self.order@[j] != self.order@[i]);
        }
    }

    /// The handle of the last node, if there is one.
    pub fn last_handle(&self) -> (handle: Option<usize>)
        requires
            self.wf(),
        ensures
            handle == (if self.handles().len() == 0 {
                None
            } else {
                Some(self.handles().last())
            }),
    {
        self.tail
    }

    /// The data of the node under `handle`, or `None` if no node of the
    /// list has that handle.
    pub fn get(&self, handle: usize) -> (data: Option<&T>)
        requires
            self.wf(),
        ensures
            data is Some <==> self.handles().contains(handle),
            data matches Some(d) ==> *d == self.values()[position_of(self.handles(), handle)],
    {
        if handle < self.slots.len() {
            match &self.slots[handle] {
                Some(node) => {
                    proof {
                        let q = self.order@;
                        assert(q.contains(handle));
                        let p = position_of(q, handle);
                        assert(0 <= p < q.len() && q[p] == handle);
                    }
                    Some(&node.data)
                },
                None => {
                    proof {
                        if self.order@.contains(handle) {
                            let i = choose|i: int| 0 <= i < self.order@.len() && self.order@[i] == handle;
                            assert(self.slots@[self.order@[i] as int] is Some);
                        }
                    }
                    None
                },
            }
        } else {
            proof {
                if self.order@.contains(handle) {
                    let i = choose|i: int| 0 <= i < self.order@.len() && self.order@[i] == handle;
                    assert(self.order@[i] < self.slots@.len());
                }
            }
            None
        }
    }

    /// Puts `data` in the node under `handle` and returns the data it held.
    pub fn replace(&mut self, handle: usize, data: T) -> (previous: T)
        requires
            old(self).wf(),
            old(self).handles().contains(handle),
        ensures
            final(self).wf(),
            final(self).handles() == old(self).handles(),
            previous == old(self).values()[position_of(old(self).handles(), handle)],
            final(self).values() == old(self).values().update(
                position_of(old(self).handles(), handle),
                data,
            ),
    {
        let ghost q = self.order@;
        let ghost s0 = self.slots@;
        let ghost p = position_of(q, handle);
        proof {
            assert(0 <= p < q.len() && q[p] == handle);
            assert(q[p] < s0.len());
        }
        let mut node = self.slots[handle].take().unwrap();
        let mut data = data;
        std::mem::swap(&mut node.data, &mut data);
        self.slots.set(handle, Some(node));
        proof {
            let s = self.slots@;
            assert forall|i: int| 0 <= i < q.len() implies #[trigger] s[q[i] as int] is Some
                && slot_node(s, q[i]).prev == slot_node(s0, q[i]).prev
                && slot_node(s, q[i]).next == slot_node(s0, q[i]).next by {
                assert(q[i] < s0.len());
            }
            assert forall|k: usize| k < s.len() && #[trigger] s[k as int] is Some implies q.contains(k) by {
                if k != handle {
                    assert(s0[k as int] is Some);
                }
            }
            assert forall|i: int| 0 <= i < self.free@.len() implies #[trigger] self.free@[i] < s.len()
                && s[self.free@[i] as int] is None by {
                assert(s0[self.free@[i] as int] is None);
            }
            assert(self.values() =~= old(self).values().update(p, self.slots@[handle as int].unwrap().data)) by {
                assert forall|i: int| 0 <= i < q.len() implies #[trigger] self.values()[i] == old(
                    self,
                ).values().update(p, self.slots@[handle as int].unwrap().data)[i] by {
                    if i != p {
                        assert(q[i] != q[p]);
                    }
                }
            }
        }
        data
    }

    /// Returns whether the linked list does not contain any node.
    pub fn is_empty(&self) -> (r: bool)
        requires
            self.wf(),
        ensures
            r == (self.values().len() == 0),
    {
        if !self.head.is_none() {
            return false;
        }
        true
    }
}

/// Adding a node at the front and removing the first node gives back that
/// node and leaves the list as it was.
pub proof fn law_add_then_remove_first<T>(values: Seq<T>, data: T)
    ensures
        (seq![data] + values)[0] == data,
        (seq![data] + values).drop_first() == values,
{
    assert((seq![data] + values).drop_first() =~= values);
}

/// Used as a queue (nodes added at the front, removed from the back), the
/// list hands its nodes out in the order in which they were added.
pub proof fn law_queue_order<T>(values: Seq<T>, data: T)
    ensures
        values.len() == 0 ==> (seq![data] + values).last() == data && (seq![data]
            + values).drop_last() == values,
        values.len() > 0 ==> (seq![data] + values).last() == values.last() && (seq![data]
            + values).drop_last() == seq![data] + values.drop_last(),
{
    if values.len() == 0 {
        assert((seq![data] + values).drop_last() =~= values);
    } else {
        assert((seq![data] + values).drop_last() =~= seq![data] + values.drop_last());
    }
}

} // verus!
