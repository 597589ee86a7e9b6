use platoon::reactor::{Direction, Reactor, Readiness};
use platoon::sys::{epoll_flags, event_from_epoll, Event};
use platoon::tick_reactor::TickReactor;

use std::sync::atomic::AtomicUsize;
use std::sync::Arc;
use std::task::{Wake, Waker};

struct MockTask {
    wakes: AtomicUsize,
}

impl Wake for MockTask {
    fn wake(self: Arc<Self>) {
        self.wake_by_ref();
    }

    fn wake_by_ref(self: &Arc<Self>) {
        self.wakes.fetch_add(1, std::sync::atomic::Ordering::SeqCst);
    }
}

fn mock_task() -> Arc<MockTask> {
    Arc::new(MockTask { wakes: AtomicUsize::new(0) })
}

fn waker_of(task: &Arc<MockTask>) -> Waker {
    Waker::from(task.clone())
}

fn readable(key: usize) -> Event {
    Event { key, readable: true, writable: false }
}

#[test]
fn sources_are_keyed_in_order() {
    let mut reactor = Reactor::new();
    assert_eq!(reactor.next_key(), 0);
    assert_eq!(reactor.insert_source(7), 0);
    assert_eq!(reactor.insert_source(8), 1);
    assert_eq!(reactor.next_key(), 2);
    assert_eq!(reactor.remove_source(0), 7);
}

#[test]
fn first_waiter_registers_interest() {
    let mut reactor = Reactor::new();
    let t = mock_task();
    let key = reactor.insert_source(3);
    let (r, e) = reactor.poll_ready(key, Direction::Read, waker_of(&t));
    match r {
        Readiness::Pending { register, previous } => {
            assert!(register);
            assert!(previous.is_none());
        }
        Readiness::Ready => panic!("no event arrived"),
    }
    assert_eq!(e, Event { key, readable: true, writable: false });
    // the same task polls again: nothing to register
    let (r, _) = reactor.poll_ready(key, Direction::Read, waker_of(&t));
    match r {
        Readiness::Pending { register, previous } => {
            assert!(!register);
            assert!(previous.is_none());
        }
        Readiness::Ready => panic!("no event arrived"),
    }
}

#[test]
fn event_wakes_poller_and_is_consumed_once() {
    let mut reactor = Reactor::new();
    let t = mock_task();
    let key = reactor.insert_source(3);
    reactor.poll_ready(key, Direction::Read, waker_of(&t));
    let mut wakers = Vec::new();
    assert_eq!(reactor.dispatch(&readable(key), &mut wakers), None);
    assert_eq!(wakers.len(), 1);
    for w in wakers {
        w.wake();
    }
    assert_eq!(t.wakes.load(std::sync::atomic::Ordering::SeqCst), 1);
    assert!(matches!(reactor.poll_ready(key, Direction::Read, waker_of(&t)).0, Readiness::Ready));
    assert!(matches!(
        reactor.poll_ready(key, Direction::Read, waker_of(&t)).0,
        Readiness::Pending { .. }
    ));
}

#[test]
fn event_for_other_direction_keeps_interest() {
    let mut reactor = Reactor::new();
    let reader = mock_task();
    let writer = mock_task();
    let key = reactor.insert_source(3);
    reactor.poll_ready(key, Direction::Read, waker_of(&reader));
    let (_, e) = reactor.poll_ready(key, Direction::Write, waker_of(&writer));
    assert_eq!(e, Event { key, readable: true, writable: true });
    let mut wakers = Vec::new();
    let again = reactor.dispatch(&readable(key), &mut wakers);
    assert_eq!(again, Some(Event { key, readable: false, writable: true }));
    assert_eq!(wakers.len(), 1);
}

#[test]
fn replaced_poller_is_handed_back() {
    let mut reactor = Reactor::new();
    let t1 = mock_task();
    let t2 = mock_task();
    let key = reactor.insert_source(3);
    reactor.poll_ready(key, Direction::Write, waker_of(&t1));
    match reactor.poll_ready(key, Direction::Write, waker_of(&t2)).0 {
        Readiness::Pending { register, previous } => {
            assert!(!register);
            assert!(previous.unwrap().will_wake(&waker_of(&t1)));
        }
        Readiness::Ready => panic!("no event arrived"),
    }
}

#[test]
fn event_for_unknown_key_is_ignored() {
    let mut reactor = Reactor::new();
    let mut wakers = Vec::new();
    assert_eq!(reactor.dispatch(&readable(42), &mut wakers), None);
    assert!(wakers.is_empty());
}

#[test]
fn tick_readiness_after_later_event() {
    let mut reactor = TickReactor::new();
    let t = mock_task();
    let key = reactor.insert_source(5);
    let (r, e) = reactor.poll_ready(key, Direction::Read, waker_of(&t), false);
    assert!(matches!(r, Readiness::Pending { register: true, .. }));
    assert!(e.readable);
    // a round without an event for this source
    assert_eq!(reactor.next_tick(), 1);
    assert!(matches!(
        reactor.poll_ready(key, Direction::Read, waker_of(&t), false).0,
        Readiness::Pending { .. }
    ));
    // a round with an event
    assert_eq!(reactor.next_tick(), 2);
    let mut wakers = Vec::new();
    assert_eq!(reactor.dispatch(&readable(key), &mut wakers), None);
    assert_eq!(wakers.len(), 1);
    assert!(matches!(
        reactor.poll_ready(key, Direction::Read, waker_of(&t), false).0,
        Readiness::Ready
    ));
    // consumed
    assert!(matches!(
        reactor.poll_ready(key, Direction::Read, waker_of(&t), false).0,
        Readiness::Pending { .. }
    ));
}

#[test]
fn eager_tick_readiness_before_first_wait() {
    let mut reactor = TickReactor::new();
    let t = mock_task();
    let key = reactor.insert_source(5);
    assert!(matches!(
        reactor.poll_ready(key, Direction::Write, waker_of(&t), true).0,
        Readiness::Ready
    ));
    assert!(matches!(
        reactor.poll_ready(key, Direction::Write, waker_of(&t), true).0,
        Readiness::Ready
    ));
    assert_eq!(reactor.remove_source(key), 5);
}

#[test]
fn epoll_flags_encode_interest() {
    assert_eq!(epoll_flags(&Event { key: 1, readable: false, writable: false }), 0x4000_0000);
    assert_eq!(epoll_flags(&Event { key: 1, readable: true, writable: false }), 0x4000_2001);
    assert_eq!(epoll_flags(&Event { key: 1, readable: false, writable: true }), 0x4000_0004);
    assert_eq!(epoll_flags(&Event { key: 1, readable: true, writable: true }), 0x4000_2005);
}

#[test]
fn epoll_events_decode_readiness() {
    assert_eq!(event_from_epoll(0x1, 9), Event { key: 9, readable: true, writable: false });
    assert_eq!(event_from_epoll(0x2, 9), Event { key: 9, readable: true, writable: false });
    assert_eq!(event_from_epoll(0x4, 3), Event { key: 3, readable: false, writable: true });
    assert_eq!(event_from_epoll(0x2000, 3), Event { key: 3, readable: false, writable: false });
    assert_eq!(event_from_epoll(0x5, 0), Event { key: 0, readable: true, writable: true });
}

#[test]
fn event_defaults_to_no_interest() {
    assert_eq!(Event::default(), Event::none(0));
    assert_eq!(Event::none(4), Event { key: 4, readable: false, writable: false });
}

#[test]
fn registered_sources_can_be_looked_up() {
    let mut reactor = Reactor::new();
    let key = reactor.insert_source(11);
    assert!(reactor.contains_source(key));
    assert_eq!(reactor.source_raw(key), Some(11));
    assert_eq!(reactor.source_raw(key + 1), None);
    reactor.remove_source(key);
    assert!(!reactor.contains_source(key));
}

#[test]
fn connect_in_progress_is_not_an_error() {
    assert!(platoon::sys::connect_started(true, None, false));
    assert!(platoon::sys::connect_started(false, Some(115), false));
    assert!(platoon::sys::connect_started(false, Some(11), true));
    assert!(!platoon::sys::connect_started(false, Some(111), false));
    assert!(!platoon::sys::connect_started(false, None, false));
}

#[test]
fn connect_accepted_follows_the_in_progress_code() {
    // a target whose in-progress code is 150
    assert!(platoon::sys::connect_accepted(150, false, Some(150), false));
    assert!(!platoon::sys::connect_accepted(150, false, Some(115), false));
    assert!(platoon::sys::connect_accepted(150, true, None, false));
    assert!(platoon::sys::connect_accepted(150, false, Some(11), true));
    assert!(!platoon::sys::connect_accepted(150, false, None, false));
}

#[test]
fn event_wakes_the_latest_poller() {
    let mut reactor = Reactor::new();
    let t1 = mock_task();
    let t2 = mock_task();
    let key = reactor.insert_source(3);
    reactor.poll_ready(key, Direction::Read, waker_of(&t1));
    let previous = match reactor.poll_ready(key, Direction::Read, waker_of(&t2)).0 {
        Readiness::Pending { previous, .. } => previous,
        Readiness::Ready => panic!("no event arrived"),
    };
    let mut wakers = Vec::new();
    reactor.dispatch(&readable(key), &mut wakers);
    assert_eq!(wakers.len(), 1);
    assert!(wakers[0].will_wake(&waker_of(&t2)));
    assert!(previous.unwrap().will_wake(&waker_of(&t1)));
}
