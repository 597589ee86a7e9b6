use platoon::list::{LinkedList, ListNode};

fn values(nodes: Vec<ListNode<u32>>) -> Vec<u32> {
    nodes.into_iter().map(|n| n.into_inner()).collect()
}

#[test]
fn new_list_is_empty() {
    let list = LinkedList::<u32>::new();
    assert!(list.is_empty());
    assert!(list.peek_first().is_none());
    assert!(list.peek_last().is_none());
}

#[test]
fn add_front_orders_newest_first() {
    let mut list = LinkedList::new();
    list.add_front(ListNode::new(1));
    list.add_front(ListNode::new(2));
    list.add_front(ListNode::new(3));
    assert!(!list.is_empty());
    assert_eq!(*list.peek_first().unwrap().get(), 3);
    assert_eq!(*list.peek_last().unwrap().get(), 1);
    assert_eq!(values(list.drain()), vec![3, 2, 1]);
    assert!(list.is_empty());
}

#[test]
fn reverse_drain_gives_oldest_first() {
    let mut list = LinkedList::new();
    for i in 0..5u32 {
        list.add_front(ListNode::new(i));
    }
    assert_eq!(values(list.reverse_drain()), vec![0, 1, 2, 3, 4]);
    assert!(list.is_empty());
}

#[test]
fn add_then_remove_first_restores() {
    let mut list = LinkedList::new();
    list.add_front(ListNode::new(10));
    list.add_front(ListNode::new(20));
    let removed = list.remove_first().unwrap();
    assert_eq!(removed.into_inner(), 20);
    assert_eq!(values(list.drain()), vec![10]);
}

#[test]
fn queue_order_front_to_back() {
    let mut list = LinkedList::new();
    list.add_front(ListNode::new(1));
    list.add_front(ListNode::new(2));
    list.add_front(ListNode::new(3));
    assert_eq!(list.remove_last().unwrap().into_inner(), 1);
    assert_eq!(list.remove_last().unwrap().into_inner(), 2);
    list.add_front(ListNode::new(4));
    assert_eq!(list.remove_last().unwrap().into_inner(), 3);
    assert_eq!(list.remove_last().unwrap().into_inner(), 4);
    assert!(list.remove_last().is_none());
    assert!(list.remove_first().is_none());
}

#[test]
fn remove_by_handle_from_the_middle() {
    let mut list = LinkedList::new();
    let a = list.add_front(ListNode::new('a'));
    let b = list.add_front(ListNode::new('b'));
    let c = list.add_front(ListNode::new('c'));
    assert_eq!(list.remove(b).unwrap().into_inner(), 'b');
    // a handle that was removed is no longer in the list
    assert!(list.remove(b).is_none());
    assert_eq!(*list.peek_first().unwrap().get(), 'c');
    assert_eq!(*list.peek_last().unwrap().get(), 'a');
    assert_eq!(list.remove(c).unwrap().into_inner(), 'c');
    assert_eq!(list.remove(a).unwrap().into_inner(), 'a');
    assert!(list.is_empty());
}

#[test]
fn unknown_handle_removes_nothing() {
    let mut list = LinkedList::new();
    list.add_front(ListNode::new(1u8));
    assert!(list.remove(99).is_none());
    assert!(!list.is_empty());
}

#[test]
fn slots_are_reused_after_removal() {
    let mut list = LinkedList::new();
    let a = list.add_front(ListNode::new(1u8));
    assert_eq!(list.remove(a).unwrap().into_inner(), 1);
    let b = list.add_front(ListNode::new(2u8));
    assert_eq!(list.remove(b).unwrap().into_inner(), 2);
    assert!(list.is_empty());
}
