use platoon::clock::Clock;
use platoon::time::{interval, interval_at, sleep, sleep_until, timeout, timeout_at, TimedOut};

use std::sync::atomic::AtomicUsize;
use std::sync::Arc;
use std::task::{Wake, Waker};

struct MockTask {
    id: usize,
    wakes: AtomicUsize,
}

impl Wake for MockTask {
    fn wake(self: Arc<Self>) {
        self.wake_by_ref();
    }

    fn wake_by_ref(self: &Arc<Self>) {
        self.wakes.fetch_add(1, std::sync::atomic::Ordering::SeqCst);
    }
}

fn mock_task(id: usize) -> Arc<MockTask> {
    Arc::new(MockTask { id, wakes: AtomicUsize::new(0) })
}

fn waker_of(task: &Arc<MockTask>) -> Waker {
    Waker::from(task.clone())
}

fn wakes(task: &Arc<MockTask>) -> usize {
    task.wakes.load(std::sync::atomic::Ordering::SeqCst)
}

const MS: u64 = 1_000_000;

#[test]
fn alarm_ids_count_up() {
    let mut clock = Clock::new();
    let t = mock_task(0);
    assert_eq!(clock.next_alarm_id(), 0);
    assert_eq!(clock.insert_alarm(5 * MS, waker_of(&t)), 0);
    assert_eq!(clock.insert_alarm(5 * MS, waker_of(&t)), 1);
    assert_eq!(clock.next_alarm_id(), 2);
    assert!(clock.has_alarm(0, 5 * MS));
    assert!(clock.has_alarm(1, 5 * MS));
    assert!(!clock.has_alarm(1, 6 * MS));
}

#[test]
fn past_alarms_fire_earliest_first() {
    let mut clock = Clock::new();
    let a = mock_task(1);
    let b = mock_task(2);
    let c = mock_task(3);
    clock.insert_alarm(30 * MS, waker_of(&c));
    clock.insert_alarm(10 * MS, waker_of(&a));
    clock.insert_alarm(20 * MS, waker_of(&b));
    let mut wakers = Vec::new();
    let sleep = clock.take_past_alarms(25 * MS, &mut wakers);
    assert_eq!(sleep, Some(0));
    assert_eq!(wakers.len(), 2);
    assert!(wakers[0].will_wake(&waker_of(&a)));
    assert!(wakers[1].will_wake(&waker_of(&b)));
    assert!(!clock.has_alarm(1, 10 * MS));
    assert!(clock.has_alarm(0, 30 * MS));
    for w in wakers {
        w.wake();
    }
    assert_eq!(wakes(&a), 1);
    assert_eq!(wakes(&b), 1);
    assert_eq!(wakes(&c), 0);
    assert_eq!(a.id + b.id + c.id, 6);
}

#[test]
fn sleep_until_next_alarm_in_whole_milliseconds() {
    let mut clock = Clock::new();
    let t = mock_task(0);
    clock.insert_alarm(10 * MS + 999_999, waker_of(&t));
    let mut wakers = Vec::new();
    // 7.999999 ms to go: rounded down to 7 ms
    assert_eq!(clock.take_past_alarms(3 * MS, &mut wakers), Some(7));
    assert!(wakers.is_empty());
}

#[test]
fn no_alarm_means_no_limit() {
    let mut clock = Clock::new();
    let mut wakers = Vec::new();
    assert_eq!(clock.take_past_alarms(0, &mut wakers), None);
    assert!(wakers.is_empty());
}

#[test]
fn alarm_at_now_is_past_only_when_expired() {
    let mut clock = Clock::new();
    let t = mock_task(0);
    clock.insert_alarm(10 * MS, waker_of(&t));
    let mut wakers = Vec::new();
    // due before `now` only: an alarm set for `now` stays
    assert_eq!(clock.take_past_alarms(10 * MS, &mut wakers), Some(0));
    assert!(wakers.is_empty());
    // expired at `now`: an alarm set for `now` fires
    assert_eq!(clock.take_expired(10 * MS, &mut wakers), Some(0));
    assert_eq!(wakers.len(), 1);
}

#[test]
fn park_timeout_is_cut_short_by_next_alarm() {
    let mut clock = Clock::new();
    let t = mock_task(0);
    clock.insert_alarm(50 * MS, waker_of(&t));
    let mut wakers = Vec::new();
    assert_eq!(clock.park_timeout(10 * MS, Some(100), &mut wakers), Some(40));
    assert_eq!(clock.park_timeout(10 * MS, Some(5), &mut wakers), Some(5));
    assert_eq!(clock.park_timeout(10 * MS, None, &mut wakers), Some(40));
    assert_eq!(clock.park_timeout(60 * MS, Some(100), &mut wakers), Some(0));
    assert_eq!(wakers.len(), 1);
    assert_eq!(clock.park_timeout(60 * MS, None, &mut wakers), None);
    assert_eq!(clock.park_timeout(60 * MS, Some(3), &mut wakers), Some(3));
}

#[test]
fn reset_and_replace_alarm() {
    let mut clock = Clock::new();
    let t1 = mock_task(1);
    let t2 = mock_task(2);
    let id = clock.insert_alarm(10 * MS, waker_of(&t1));
    clock.reset_alarm(id, 10 * MS, 20 * MS);
    assert!(!clock.has_alarm(id, 10 * MS));
    assert!(clock.has_alarm(id, 20 * MS));
    clock.replace_alarm_waker(id, 20 * MS, waker_of(&t2));
    let mut wakers = Vec::new();
    clock.take_past_alarms(21 * MS, &mut wakers);
    assert_eq!(wakers.len(), 1);
    assert!(wakers[0].will_wake(&waker_of(&t2)));
    clock.remove_alarm(id, 20 * MS);
    assert_eq!(clock.take_past_alarms(21 * MS, &mut wakers), None);
}

#[test]
fn sleep_sets_one_alarm_and_completes_at_deadline() {
    let mut clock = Clock::new();
    let t = mock_task(0);
    let mut s = sleep(5 * MS, 10 * MS);
    assert_eq!(s.deadline(), 15 * MS);
    assert_eq!(s.poll(&mut clock, 5 * MS, waker_of(&t)), None);
    assert!(clock.has_alarm(0, 15 * MS));
    // polled again by the same task: the alarm stays as it is
    assert_eq!(s.poll(&mut clock, 6 * MS, waker_of(&t)), None);
    assert_eq!(clock.next_alarm_id(), 1);
    assert!(s.is_registered(&clock));
    let mut wakers = Vec::new();
    clock.take_past_alarms(16 * MS, &mut wakers);
    assert_eq!(wakers.len(), 1);
    assert_eq!(s.poll(&mut clock, 16 * MS, waker_of(&t)), Some(15 * MS));
}

#[test]
fn sleep_reset_moves_its_alarm() {
    let mut clock = Clock::new();
    let t = mock_task(0);
    let mut s = sleep_until(10 * MS);
    assert_eq!(s.poll(&mut clock, 0, waker_of(&t)), None);
    s.reset(&mut clock, 30 * MS);
    assert_eq!(s.deadline(), 30 * MS);
    assert!(clock.has_alarm(0, 30 * MS));
    assert!(!clock.has_alarm(0, 10 * MS));
    s.cancel(&mut clock);
    assert!(!clock.has_alarm(0, 30 * MS));
}

#[test]
fn sleep_polled_by_other_task_points_alarm_at_it() {
    let mut clock = Clock::new();
    let t1 = mock_task(1);
    let t2 = mock_task(2);
    let mut s = sleep_until(10 * MS);
    assert_eq!(s.poll(&mut clock, 0, waker_of(&t1)), None);
    assert_eq!(s.poll(&mut clock, 0, waker_of(&t2)), None);
    let mut wakers = Vec::new();
    clock.take_past_alarms(11 * MS, &mut wakers);
    assert_eq!(wakers.len(), 1);
    assert!(wakers[0].will_wake(&waker_of(&t2)));
}

#[test]
fn interval_ticks_one_period_after_now() {
    let mut clock = Clock::new();
    let t = mock_task(0);
    let mut i = interval(100, 50);
    assert_eq!(i.poll_tick(&mut clock, 100, waker_of(&t)), Some(150));
    assert_eq!(i.poll_tick(&mut clock, 120, waker_of(&t)), None);
    assert_eq!(i.poll_tick(&mut clock, 170, waker_of(&t)), Some(220));
    let mut j = interval_at(1_000, 10);
    assert_eq!(j.poll_tick(&mut clock, 999, waker_of(&t)), None);
    assert_eq!(j.poll_tick(&mut clock, 1_000, waker_of(&t)), Some(1_010));
}

#[test]
fn timeout_output_wins_over_deadline() {
    let mut clock = Clock::new();
    let t = mock_task(0);
    let mut to = timeout(0, 10 * MS, ());
    assert_eq!(to.poll_deadline(Some(7u8), &mut clock, 20 * MS, waker_of(&t)), Some(Ok(7)));
    let mut to = timeout_at(10 * MS, ());
    assert_eq!(to.poll_deadline::<u8>(None, &mut clock, 5 * MS, waker_of(&t)), None);
    assert_eq!(to.poll_deadline::<u8>(None, &mut clock, 10 * MS, waker_of(&t)).unwrap().is_err(), true);
}

#[test]
fn timed_out_message() {
    let mut clock = Clock::new();
    let t = mock_task(0);
    let mut to = timeout_at(0, ());
    let err: TimedOut = to.poll_deadline::<u8>(None, &mut clock, 0, waker_of(&t)).unwrap().unwrap_err();
    assert_eq!(err.message(), "future timed out");
    let (future, s) = to.into_parts();
    assert_eq!(future, ());
    assert_eq!(s.deadline(), 0);
}

#[test]
fn interval_and_timeout_queries() {
    let mut clock = Clock::new();
    let t = mock_task(0);
    let mut i = interval_at(10, 25);
    assert_eq!(i.tick_period(), 25);
    assert!(i.is_registered(&clock));
    assert_eq!(i.poll_tick(&mut clock, 0, waker_of(&t)), None);
    assert!(i.is_registered(&clock));
    let s = i.into_sleep();
    assert_eq!(s.deadline(), 10);
    s.cancel(&mut clock);
    assert!(!clock.has_alarm(0, 10));
    let to = timeout(5, 7, ());
    assert_eq!(to.deadline(), 12);
    assert!(to.is_registered(&clock));
}

#[test]
fn sleep_after_its_alarm_fired_is_ready() {
    let mut clock = Clock::new();
    let t = mock_task(0);
    let mut s = sleep_until(10);
    assert_eq!(s.poll(&mut clock, 0, waker_of(&t)), None);
    let mut wakers = Vec::new();
    clock.take_past_alarms(11, &mut wakers);
    assert_eq!(wakers.len(), 1);
    assert!(!s.is_registered(&clock));
    assert_eq!(s.poll(&mut clock, 11, waker_of(&t)), Some(10));
}

#[test]
fn clock_insert_remove_take_ready() {
    let mut clock = Clock::new();
    let t = mock_task(0);
    let a = clock.insert(5 * MS, &waker_of(&t));
    let b = clock.insert(7 * MS, &waker_of(&t));
    assert_eq!((a, b), (0, 1));
    clock.remove(5 * MS, a);
    let mut wakers = Vec::new();
    assert_eq!(clock.take_ready(6 * MS, &mut wakers), Some(1));
    assert!(wakers.is_empty());
    assert_eq!(clock.take_ready(8 * MS, &mut wakers), Some(0));
    assert_eq!(wakers.len(), 1);
    assert_eq!(clock.take_ready(8 * MS, &mut wakers), None);
}

#[test]
fn interval_ticks_again_after_its_alarm_fired() {
    let mut clock = Clock::new();
    let t = mock_task(0);
    let mut i = interval(0, 10 * MS);
    assert_eq!(i.poll_tick(&mut clock, 0, waker_of(&t)), Some(10 * MS));
    assert_eq!(i.poll_tick(&mut clock, 5 * MS, waker_of(&t)), None);
    assert!(clock.has_alarm(0, 10 * MS));
    let mut wakers = Vec::new();
    clock.take_past_alarms(20 * MS, &mut wakers);
    assert_eq!(wakers.len(), 1);
    assert!(!i.is_armed(&clock));
    // the tick is due: no alarm is needed for it
    assert_eq!(i.poll_tick(&mut clock, 20 * MS, waker_of(&t)), Some(30 * MS));
    // the next wait sets a new alarm
    assert_eq!(i.poll_tick(&mut clock, 25 * MS, waker_of(&t)), None);
    assert!(i.is_armed(&clock));
    assert!(clock.has_alarm(1, 30 * MS));
    let mut wakers = Vec::new();
    clock.take_past_alarms(31 * MS, &mut wakers);
    assert_eq!(i.poll_tick(&mut clock, 31 * MS, waker_of(&t)), Some(41 * MS));
}

#[test]
fn sleep_reset_after_its_alarm_fired() {
    let mut clock = Clock::new();
    let t = mock_task(0);
    let mut s = sleep_until(10 * MS);
    assert_eq!(s.poll(&mut clock, 0, waker_of(&t)), None);
    let mut wakers = Vec::new();
    clock.take_past_alarms(11 * MS, &mut wakers);
    assert_eq!(wakers.len(), 1);
    s.reset(&mut clock, 30 * MS);
    assert_eq!(s.deadline(), 30 * MS);
    assert!(!s.is_armed(&clock));
    assert_eq!(s.poll(&mut clock, 20 * MS, waker_of(&t)), None);
    assert!(s.is_armed(&clock));
    assert!(clock.has_alarm(1, 30 * MS));
    assert_eq!(s.poll(&mut clock, 30 * MS, waker_of(&t)), Some(30 * MS));
}

#[test]
fn sleep_alarm_wakes_the_latest_poller() {
    let mut clock = Clock::new();
    let t1 = mock_task(1);
    let t2 = mock_task(2);
    let mut s = sleep_until(10 * MS);
    assert_eq!(s.poll(&mut clock, 0, waker_of(&t1)), None);
    assert_eq!(s.poll(&mut clock, 1, waker_of(&t2)), None);
    assert_eq!(s.poll(&mut clock, 2, waker_of(&t1)), None);
    let mut wakers = Vec::new();
    clock.take_past_alarms(11 * MS, &mut wakers);
    for w in wakers {
        w.wake();
    }
    assert_eq!(wakes(&t1), 1);
    assert_eq!(wakes(&t2), 0);
}
