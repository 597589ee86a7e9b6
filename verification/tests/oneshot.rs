use platoon::sync::oneshot::{channel, Closed, Shared};

use std::sync::atomic::{AtomicBool, AtomicUsize};
use std::sync::Arc;
use std::task::{Wake, Waker};

/// A task that records whether it was woken.
struct MockTask {
    woken: AtomicBool,
    wakes: AtomicUsize,
}

impl Wake for MockTask {
    fn wake(self: Arc<Self>) {
        self.wake_by_ref();
    }

    fn wake_by_ref(self: &Arc<Self>) {
        self.woken.store(true, std::sync::atomic::Ordering::SeqCst);
        self.wakes.fetch_add(1, std::sync::atomic::Ordering::SeqCst);
    }
}

fn mock_task() -> Arc<MockTask> {
    Arc::new(MockTask { woken: AtomicBool::new(false), wakes: AtomicUsize::new(0) })
}

fn waker_of(task: &Arc<MockTask>) -> Waker {
    Waker::from(task.clone())
}

fn is_woken(task: &Arc<MockTask>) -> bool {
    task.woken.load(std::sync::atomic::Ordering::SeqCst)
}

/// The references to the task's waker, the task's own included.
fn waker_ref_count(task: &Arc<MockTask>) -> usize {
    Arc::strong_count(task)
}

/// Wakes the task whose waker the channel handed out, if any.
fn wake(to_wake: Option<Waker>) {
    if let Some(waker) = to_wake {
        waker.wake();
    }
}

/// Sending consumes the sender: the message is stored and the sender is
/// dropped.
fn send<T>(shared: &mut Shared<T>, message: T) -> Result<(), T> {
    let r = shared.send(message);
    wake(shared.drop_sender());
    r
}

#[test]
fn send_recv() {
    let mut ch = channel();
    let rx = mock_task();

    assert!(ch.poll_recv(waker_of(&rx)).is_none());

    assert!(send(&mut ch, 1).is_ok());

    assert!(is_woken(&rx));

    let val = ch.poll_recv(waker_of(&rx)).unwrap().unwrap();
    assert_eq!(val, 1);
}

#[test]
fn async_send_recv() {
    let mut ch = channel();
    let rx = mock_task();

    assert!(send(&mut ch, 1).is_ok());
    assert_eq!(1, ch.poll_recv(waker_of(&rx)).unwrap().unwrap());
}

#[test]
fn close_tx() {
    let mut ch = channel::<i32>();
    let rx = mock_task();

    assert!(ch.poll_recv(waker_of(&rx)).is_none());

    wake(ch.drop_sender());

    assert!(is_woken(&rx));
    assert!(ch.poll_recv(waker_of(&rx)).unwrap().is_err());
}

#[test]
fn close_rx() {
    // First, without checking poll_closed()
    let mut ch = channel();
    wake(ch.drop_receiver());

    assert!(send(&mut ch, 1).is_err());

    // Second, via poll_closed()
    let mut ch = channel();
    let tx = mock_task();

    assert!(!ch.poll_closed(waker_of(&tx)));

    wake(ch.drop_receiver());

    assert!(is_woken(&tx));
    assert!(ch.is_closed());
    assert!(ch.poll_closed(waker_of(&tx)));

    assert!(send(&mut ch, 1).is_err());
}

#[test]
fn async_rx_closed() {
    let mut ch = channel::<()>();
    let tx = mock_task();

    assert!(!ch.poll_closed(waker_of(&tx)));
    // the spawned task drops the receiver
    wake(ch.drop_receiver());
    assert!(is_woken(&tx));
    assert!(ch.poll_closed(waker_of(&tx)));
}

#[test]
fn explicit_close_poll() {
    // First, with message sent
    let mut ch = channel();
    let rx = mock_task();

    assert!(send(&mut ch, 1).is_ok());

    wake(ch.close());

    let value = ch.poll_recv(waker_of(&rx)).unwrap().unwrap();
    assert_eq!(value, 1);

    // Second, without the message sent
    let mut ch = channel::<i32>();
    let tx = mock_task();
    let rx = mock_task();

    assert!(!ch.poll_closed(waker_of(&tx)));

    wake(ch.close());

    assert!(is_woken(&tx));
    assert!(ch.is_closed());
    assert!(ch.poll_closed(waker_of(&tx)));

    assert!(send(&mut ch, 1).is_err());
    assert!(ch.poll_recv(waker_of(&rx)).unwrap().is_err());

    // Again, but without sending the value this time
    let mut ch = channel::<i32>();
    let tx = mock_task();
    let rx = mock_task();

    assert!(!ch.poll_closed(waker_of(&tx)));

    wake(ch.close());

    assert!(is_woken(&tx));
    assert!(ch.is_closed());
    assert!(ch.poll_closed(waker_of(&tx)));

    assert!(ch.poll_recv(waker_of(&rx)).unwrap().is_err());
}

#[test]
fn explicit_close_try_recv() {
    // First, with message sent
    let mut ch = channel();

    assert!(send(&mut ch, 1).is_ok());

    wake(ch.close());

    let val = ch.try_recv().unwrap();
    assert_eq!(1, val.unwrap());

    // Second, without the message sent
    let mut ch = channel::<i32>();
    let tx = mock_task();

    assert!(!ch.poll_closed(waker_of(&tx)));

    wake(ch.close());

    assert!(is_woken(&tx));
    assert!(ch.is_closed());
    assert!(ch.poll_closed(waker_of(&tx)));

    assert!(ch.try_recv().is_err());
}

#[test]
fn close_try_recv_poll() {
    let mut ch = channel::<i32>();
    let rx = mock_task();

    wake(ch.close());

    assert!(ch.try_recv().is_err());
    assert_eq!(ch.poll_recv(waker_of(&rx)), Some(Err(Closed)));
}

#[test]
fn close_after_recv() {
    let mut ch = channel::<i32>();

    send(&mut ch, 17).unwrap();

    assert_eq!(17, ch.try_recv().unwrap().unwrap());
    wake(ch.close());
}

#[test]
fn try_recv_after_completion() {
    let mut ch = channel::<i32>();

    send(&mut ch, 17).unwrap();

    assert_eq!(17, ch.try_recv().unwrap().unwrap());
    assert_eq!(Err(Closed), ch.try_recv());
    wake(ch.close());
}

#[test]
fn drops_tasks() {
    let mut ch = channel::<i32>();
    let tx_task = mock_task();
    let rx_task = mock_task();

    assert!(!ch.poll_closed(waker_of(&tx_task)));
    assert!(ch.poll_recv(waker_of(&rx_task)).is_none());

    wake(ch.drop_sender());
    wake(ch.drop_receiver());

    assert_eq!(1, waker_ref_count(&tx_task));
    assert_eq!(1, waker_ref_count(&rx_task));
}

#[test]
fn receiver_changes_task() {
    let mut ch = channel();

    let task1 = mock_task();
    let task2 = mock_task();

    assert!(ch.poll_recv(waker_of(&task1)).is_none());

    assert_eq!(2, waker_ref_count(&task1));
    assert_eq!(1, waker_ref_count(&task2));

    assert!(ch.poll_recv(waker_of(&task2)).is_none());

    assert_eq!(1, waker_ref_count(&task1));
    assert_eq!(2, waker_ref_count(&task2));

    assert!(send(&mut ch, 1).is_ok());

    assert!(!is_woken(&task1));
    assert!(is_woken(&task2));

    assert!(ch.poll_recv(waker_of(&task2)).unwrap().is_ok());
}

#[test]
fn sender_changes_task() {
    let mut ch = channel::<i32>();

    let task1 = mock_task();
    let task2 = mock_task();

    assert!(!ch.poll_closed(waker_of(&task1)));

    assert_eq!(2, waker_ref_count(&task1));
    assert_eq!(1, waker_ref_count(&task2));

    assert!(!ch.poll_closed(waker_of(&task2)));

    assert_eq!(1, waker_ref_count(&task1));
    assert_eq!(2, waker_ref_count(&task2));

    wake(ch.drop_receiver());

    assert!(!is_woken(&task1));
    assert!(is_woken(&task2));

    assert!(ch.poll_closed(waker_of(&task2)));
}

#[test]
fn message_received_once_after_sender_is_gone() {
    let mut ch = channel::<&str>();
    assert_eq!(ch.try_recv(), Ok(None));
    assert_eq!(ch.send("hello"), Ok(()));
    // the sender is still alive: nothing is delivered yet
    assert_eq!(ch.try_recv(), Ok(None));
    wake(ch.drop_sender());
    assert_eq!(ch.try_recv(), Ok(Some("hello")));
    assert_eq!(ch.try_recv(), Err(Closed));
}

#[test]
fn send_after_close_returns_message() {
    let mut ch = channel::<u8>();
    wake(ch.close());
    assert_eq!(ch.send(7), Err(7));
    assert!(ch.is_closed());
}

#[test]
fn dropped_receiver_fails_send_and_wakes_sender_once() {
    let mut ch = channel::<u8>();
    let tx = mock_task();
    assert!(!ch.poll_closed(waker_of(&tx)));
    wake(ch.drop_receiver());
    assert_eq!(tx.wakes.load(std::sync::atomic::Ordering::SeqCst), 1);
    assert_eq!(ch.send(3), Err(3));
    wake(ch.drop_sender());
    assert_eq!(tx.wakes.load(std::sync::atomic::Ordering::SeqCst), 1);
}
