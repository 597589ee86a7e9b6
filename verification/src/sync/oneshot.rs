//! The shared state of a channel that carries a single message from a
//! sender to a receiver.
//!
//! Each operation of the sender and of the receiver is a transition of this
//! state. The channel is *complete* once either side is gone or the receiver
//! has closed it; after that no message can be sent, and a message sent
//! before is still delivered, once.
use vstd::prelude::*;
use std::task::Waker;

verus! {

/// Error returned by a receiver when the channel has been closed and no
/// message is left to receive (i.e. the sender was dropped without sending).
#[derive(Debug, PartialEq, Eq)]
pub struct Closed;

/// The state of a channel.
pub struct ChannelView<T> {
    /// Either side is gone, or the receiver closed the channel.
    pub complete: bool,
    /// The message sent and not yet received.
    pub message: Option<T>,
    /// The waker of the sender, waiting for the channel to close.
    pub sender: Option<Waker>,
    /// The waker of the receiver, waiting for the message.
    pub receiver: Option<Waker>,
}

/// A new channel: open, empty, nobody waiting.
pub open spec fn fresh<T>() -> ChannelView<T> {
    ChannelView { complete: false, message: None, sender: None, receiver: None }
}

/// The state after `send(message)`, and whether it was accepted.
pub open spec fn after_send<T>(v: ChannelView<T>, message: T) -> (ChannelView<T>, bool) {
    if v.complete {
        (v, false)
    } else {
        (ChannelView { message: Some(message), ..v }, true)
    }
}

/// The state after the sender is dropped: the channel is complete, and the
/// waiting receiver's waker was handed out to be woken.
pub open spec fn after_sender_drop<T>(v: ChannelView<T>) -> ChannelView<T> {
    ChannelView { complete: true, sender: None, receiver: None, ..v }
}

/// The state after the receiver closes the channel: it is complete, and the
/// waiting sender's waker was handed out to be woken.
pub open spec fn after_close<T>(v: ChannelView<T>) -> ChannelView<T> {
    ChannelView { complete: true, sender: None, ..v }
}

/// The state after the receiver is dropped.
pub open spec fn after_receiver_drop<T>(v: ChannelView<T>) -> ChannelView<T> {
    ChannelView { complete: true, sender: None, receiver: None, ..v }
}

/// What an attempt to receive yields: nothing yet while the channel is open,
/// the message once it is complete, and `Closed` when no message is left.
pub open spec fn receive_result<T>(v: ChannelView<T>) -> Result<Option<T>, Closed> {
    if v.complete {
        match v.message {
            Some(m) => Ok(Some(m)),
            None => Err(Closed),
        }
    } else {
        Ok(None)
    }
}

/// The state after an attempt to receive: a delivered message is gone.
pub open spec fn after_receive<T>(v: ChannelView<T>) -> ChannelView<T> {
    if v.complete {
        ChannelView { message: None, ..v }
    } else {
        v
    }
}

/// The state after the sender polls for the close on behalf of the task
/// that `waker` wakes: while the channel is open, `waker` is kept in place
/// of any earlier one.
pub open spec fn after_poll_closed<T>(v: ChannelView<T>, waker: Waker) -> ChannelView<T> {
    if v.complete {
        v
    } else {
        ChannelView { sender: Some(waker), ..v }
    }
}

/// The state after the receiver polls for the message on behalf of the
/// task that `waker` wakes: while the channel is open, `waker` is kept in
/// place of any earlier one; once it is complete, as after a receive.
pub open spec fn after_poll_recv<T>(v: ChannelView<T>, waker: Waker) -> ChannelView<T> {
    if v.complete {
        after_receive(v)
    } else {
        ChannelView { receiver: Some(waker), ..v }
    }
}

/// The shared state of a oneshot channel.
pub struct Shared<T> {
    complete: bool,
    message: Option<T>,
    sender: Option<Waker>,
    receiver: Option<Waker>,
}

impl<T> View for Shared<T> {
    type V = ChannelView<T>;

    closed spec fn view(&self) -> ChannelView<T> {
        ChannelView {
            complete: self.complete,
            message: self.message,
            sender: self.sender,
            receiver: self.receiver,
        }
    }
}

/// Creates the shared state of a new channel.
pub fn channel<T>() -> (shared: Shared<T>)
    ensures
        shared@ == fresh::<T>(),
{
    Shared { complete: false, message: None, sender: None, receiver: None }
}

impl<T> Shared<T> {
    /// Sends `message`. If the receiver is gone or closed the channel, the
    /// message is handed back as the error.
    pub fn send(&mut self, message: T) -> (r: Result<(), T>)
        ensures
            (final(self)@, r is Ok) == after_send(old(self)@, message),
            r matches Err(m) ==> m == message,
    {
        if self.complete {
            Err(message)
        } else {
            self.message = Some(message);
            Ok(())
        }
    }

    /// Checks whether the receiver is gone or has closed the channel; if not,
    /// `waker` is kept (in place of any earlier one), to be handed out when
    /// it is.
    pub fn poll_closed(&mut self, waker: Waker) -> (ready: bool)
        ensures
            ready == old(self)@.complete,
            final(self)@ == after_poll_closed(old(self)@, waker),
    {
        if self.complete {
            true
        } else {
            self.sender = Some(waker);
            false
        }
    }

    /// Whether the receiver is gone or has closed the channel.
    pub fn is_closed(&self) -> (r: bool)
        ensures
            r == self@.complete,
    {
        self.complete
    }

    /// What dropping the sender does: completes the channel, and hands out
    /// the waiting receiver's waker, which the caller wakes.
    pub fn drop_sender(&mut self) -> (to_wake: Option<Waker>)
        ensures
            final(self)@ == after_sender_drop(old(self)@),
            to_wake == old(self)@.receiver,
    {
        self.complete = true;
        self.sender = None;
        self.receiver.take()
    }

    /// Closes the channel from the receiving side: later sends fail, and
    /// the waiting sender's waker is handed out, which the caller wakes. A
    /// message already sent stays receivable.
    pub fn close(&mut self) -> (to_wake: Option<Waker>)
        ensures
            final(self)@ == after_close(old(self)@),
            to_wake == old(self)@.sender,
    {
        self.complete = true;
        self.sender.take()
    }

    /// Attempts to receive the message, without arranging to be woken.
    pub fn try_recv(&mut self) -> (r: Result<Option<T>, Closed>)
        ensures
            r == receive_result(old(self)@),
            final(self)@ == after_receive(old(self)@),
    {
        if self.complete {
            match self.message.take() {
                Some(message) => Ok(Some(message)),
                None => Err(Closed),
            }
        } else {
            Ok(None)
        }
    }

    /// Polls for the message on behalf of the task that `waker` wakes:
    /// `None` while the channel is open (`waker` is kept in place of any
    /// earlier one, to be handed out when the sender is gone), the message or
    /// `Closed` once it is complete.
    pub fn poll_recv(&mut self, waker: Waker) -> (r: Option<Result<T, Closed>>)
        ensures
            final(self)@ == after_poll_recv(old(self)@, waker),
            r == match receive_result(old(self)@) {
                Ok(None) => None,
                Ok(Some(m)) => Some(Ok::<T, Closed>(m)),
                Err(e) => Some(Err::<T, Closed>(e)),
            },
    {
        if self.complete {
            match self.message.take() {
                Some(message) => Some(Ok(message)),
                None => Some(Err(Closed)),
            }
        } else {
            self.receiver = Some(waker);
            None
        }
    }

    /// What dropping the receiver does: completes the channel, and hands
    /// out the waiting sender's waker, which the caller wakes.
    pub fn drop_receiver(&mut self) -> (to_wake: Option<Waker>)
        ensures
            final(self)@ == after_receiver_drop(old(self)@),
            to_wake == old(self)@.sender,
    {
        self.complete = true;
        self.receiver = None;
        self.sender.take()
    }
}

// Laws of the channel.

/// A message sent on an open channel is received, exactly once, after the
/// sender is gone: the first receive yields it, every later one `Closed`.
pub proof fn law_sent_message_received_once<T>(v: ChannelView<T>, message: T)
    requires
        !v.complete,
    ensures
        after_send(v, message).1,
        receive_result(after_sender_drop(after_send(v, message).0)) == Ok::<Option<T>, Closed>(
            Some(message),
        ),
        receive_result(after_receive(after_sender_drop(after_send(v, message).0))) == Err::<
            Option<T>,
            Closed,
        >(Closed),
{
}

/// Once the receiver has closed the channel or is gone, sends fail and
/// leave the channel as it was.
pub proof fn law_no_send_after_close<T>(v: ChannelView<T>, message: T)
    ensures
        !after_send(after_close(v), message).1,
        after_send(after_close(v), message).0 == after_close(v),
        !after_send(after_receiver_drop(v), message).1,
{
}

/// Closing does not lose a message that was already sent.
pub proof fn law_close_keeps_message<T>(v: ChannelView<T>, message: T)
    requires
        !v.complete,
    ensures
        receive_result(after_close(after_send(v, message).0)) == Ok::<Option<T>, Closed>(
            Some(message),
        ),
{
}

/// A channel whose sender is gone without sending yields `Closed`.
pub proof fn law_dropped_sender_closes<T>(v: ChannelView<T>)
    requires
        v.message is None,
    ensures
        receive_result(after_sender_drop(v)) == Err::<Option<T>, Closed>(Closed),
{
}

/// While the channel is open, receiving yields nothing and changes nothing.
pub proof fn law_open_channel_yields_nothing<T>(v: ChannelView<T>)
    requires
        !v.complete,
    ensures
        receive_result(v) == Ok::<Option<T>, Closed>(None),
        after_receive(v) == v,
{
}

/// Every operation leaves a complete channel complete.
pub proof fn law_completion_is_permanent<T>(v: ChannelView<T>, message: T)
    requires
        v.complete,
    ensures
        after_send(v, message).0.complete,
        after_receive(v).complete,
        after_close(v).complete,
        after_sender_drop(v).complete,
        after_receiver_drop(v).complete,
{
}

/// After polls by one task and then another, the waker that the channel
/// keeps for that side is the latest poller's (the waker that dropping the
/// sender, or closing or dropping the receiver, hands out is the one kept
/// for the other side). Once the sender is gone the channel is complete,
/// and the receiver's next poll has the message or `Closed`; closing or
/// dropping the receiver completes it for the sender.
pub proof fn law_latest_poller_is_woken<T>(v: ChannelView<T>, first: Waker, second: Waker)
    requires
        !v.complete,
    ensures
        after_poll_recv(after_poll_recv(v, first), second).receiver == Some(second),
        after_poll_closed(after_poll_closed(v, first), second).sender == Some(second),
        after_sender_drop(after_poll_recv(v, second)).complete,
        receive_result(after_sender_drop(after_poll_recv(v, second))) == match v.message {
            Some(m) => Ok::<Option<T>, Closed>(Some(m)),
            None => Err::<Option<T>, Closed>(Closed),
        },
        after_close(after_poll_closed(v, second)).complete,
        after_receiver_drop(after_poll_closed(v, second)).complete,
{
}

} // verus!
