//! Single-producer single-consumer channels.
//!
//! A bounded channel is a ring buffer, the local handles of its two ends, and
//! the parked sender and receiver; an unbounded channel is a chain of blocks
//! and the parked receiver. Each operation answers the waker of the task on
//! the other side that it woke.
pub mod bounded;
pub mod unbounded;

use crate::error::{RecvError, SendError, TryRecvError, TrySendError};
use crate::raw::parking::task::{lemma_registrable_closed, Task, PARKED, UNPARKED};
use crate::raw::rc::{drop_action, DropAction, Rc};
use crate::raw::util::is_valid_capacity;
use crate::task::{notified_state, notify_woken, Poll};
use bounded::Handle;
use vstd::prelude::*;

verus! {

/// Unparking a task at rest leaves it holding its token.
proof fn lemma_unpark_at_rest(s: u8)
    requires
        s == PARKED || s == UNPARKED,
    ensures
        notified_state(s) == UNPARKED,
{
    crate::raw::util::lemma_idle_flags();
}

/// The state shared by the two handles of a bounded channel.
pub struct Channel<T> {
    queue: bounded::Queue<T>,
    producer: Handle,
    consumer: Handle,
    receiver: Task,
    sender: Task,
}

impl<T> Channel<T> {
    /// The values in the channel, oldest first.
    pub closed spec fn values(&self) -> Seq<T> {
        self.queue.view()
    }

    /// The number of values the channel holds at most.
    pub closed spec fn capacity(&self) -> nat {
        self.queue.capacity()
    }

    /// The parked receiver.
    pub closed spec fn receiver(&self) -> Task {
        self.receiver
    }

    /// The parked sender.
    pub closed spec fn sender(&self) -> Task {
        self.sender
    }

    /// A channel holds at most its capacity.
    pub proof fn lemma_len(&self)
        requires
            self.wf(),
        ensures
            self.values().len() <= self.capacity(),
    {
        self.queue.lemma_len();
    }

    /// The queue and the handles of its ends agree, and both tasks are at rest.
    pub closed spec fn wf(&self) -> bool {
        &&& self.queue.wf()
        &&& self.queue.producer(self.producer)
        &&& self.queue.consumer(self.consumer)
        &&& (self.receiver.state() == PARKED || self.receiver.state() == UNPARKED)
        &&& (self.sender.state() == PARKED || self.sender.state() == UNPARKED)
    }
}

/// Creates a bounded channel that holds at most `capacity` values.
pub fn bounded<T>(capacity: usize) -> (c: Rc<Channel<T>>)
    requires
        is_valid_capacity(capacity),
        capacity < usize::MAX,
    ensures
        c.wf(),
        c.channel().wf(),
        c.channel().values() == Seq::<T>::empty(),
        c.channel().capacity() == capacity,
        c.senders() == 1,
        c.receivers() == 1,
        !c.disconnected(),
        c.channel().receiver().state() == PARKED,
        c.channel().sender().state() == PARKED,
{
    Rc::new(
        Channel {
            queue: bounded::Queue::new(capacity),
            producer: Handle::new(),
            consumer: Handle::new(),
            receiver: Task::new(),
            sender: Task::new(),
        },
    )
}

/// What a poll of a send answers: its result, or the value back while the
/// sender is parked.
pub enum SendPoll<T> {
    Done(Result<(), SendError<T>>),
    Pending(T),
}

impl<T> Rc<Channel<T>> {
    /// The channel and its counts are well formed.
    pub open spec fn spsc_wf(&self) -> bool {
        self.wf() && self.channel().wf()
    }

    /// Sends `value` unless the channel is full or disconnected. Answers the
    /// waker of the receiver to wake.
    pub fn try_send(&mut self, value: T) -> (r: (Result<(), TrySendError<T>>, Option<u64>))
        requires
            old(self).spsc_wf(),
        ensures
            final(self).spsc_wf(),
            final(self).senders() == old(self).senders(),
            final(self).receivers() == old(self).receivers(),
            final(self).disconnected() == old(self).disconnected(),
            final(self).channel().capacity() == old(self).channel().capacity(),
            final(self).channel().sender() == old(self).channel().sender(),
            old(self).disconnected() ==> r == (Err::<(), TrySendError<T>>(TrySendError::Disconnected(value)), None::<u64>)
                && final(self).channel() == old(self).channel(),
            !old(self).disconnected() && old(self).channel().values().len() < old(self).channel().capacity() ==> r.0
                == Ok::<(), TrySendError<T>>(()) && final(self).channel().values() == old(self).channel().values().push(value)
                && r.1 == notify_woken(old(self).channel().receiver().state(), old(self).channel().receiver().waker())
                && final(self).channel().receiver().state() == UNPARKED
                && final(self).channel().receiver().waker() == old(self).channel().receiver().waker(),
            !old(self).disconnected() && old(self).channel().values().len() == old(self).channel().capacity() ==> r
                == (Err::<(), TrySendError<T>>(TrySendError::Full(value)), None::<u64>) && final(self).channel().values()
                == old(self).channel().values() && final(self).channel().receiver() == old(self).channel().receiver(),
    {
        if self.is_disconnected() {
            return (Err(TrySendError::Disconnected(value)), None);
        }
        let chan = self.chan_mut();
        match chan.producer.push(value, &mut chan.queue) {
            Ok(()) => {
                proof {
                    lemma_unpark_at_rest(chan.receiver.state());
                }
                let woken = chan.receiver.unpark();
                (Ok(()), woken)
            },
            Err(value) => (Err(TrySendError::Full(value)), None),
        }
    }

    /// Polls a send of `value` for the sending task whose waker is `waker`:
    /// the value is sent, or comes back in an error once the receiver is
    /// gone, or comes back while the sender parks on the waker. Answers the
    /// waker of the receiver to wake.
    pub fn poll_send(&mut self, value: T, waker: u64) -> (r: (SendPoll<T>, Option<u64>))
        requires
            old(self).spsc_wf(),
        ensures
            final(self).spsc_wf(),
            final(self).senders() == old(self).senders(),
            final(self).receivers() == old(self).receivers(),
            final(self).disconnected() == old(self).disconnected(),
            final(self).channel().capacity() == old(self).channel().capacity(),
            old(self).disconnected() ==> r == (SendPoll::Done(Err(SendError(value))), None::<u64>)
                && final(self).channel().values() == old(self).channel().values(),
            !old(self).disconnected() && old(self).channel().values().len() < old(self).channel().capacity() ==> r.0
                == SendPoll::<T>::Done(Ok(())) && final(self).channel().values() == old(self).channel().values().push(value)
                && r.1 == notify_woken(old(self).channel().receiver().state(), old(self).channel().receiver().waker()),
            !old(self).disconnected() && old(self).channel().values().len() == old(self).channel().capacity() ==> r
                == (SendPoll::Pending(value), None::<u64>) && final(self).channel().values() == old(self).channel().values()
                && final(self).channel().receiver() == old(self).channel().receiver()
                && final(self).channel().sender().state() == PARKED
                && final(self).channel().sender().waker() == Some(waker),
    {
        let mut item = value;
        loop
            invariant
                self.spsc_wf(),
                self.senders() == old(self).senders(),
                self.receivers() == old(self).receivers(),
                self.disconnected() == old(self).disconnected(),
                self.channel().values() == old(self).channel().values(),
                self.channel().capacity() == old(self).channel().capacity(),
                self.channel().receiver() == old(self).channel().receiver(),
                item == value,
            decreases (if self.channel().sender().state() == UNPARKED {
                2nat
            } else if self.channel().sender().waker() != Some(waker) {
                1nat
            } else {
                0nat
            }),
        {
            proof {
                self.channel().lemma_len();
            }
            match self.try_send(item) {
                (Ok(()), woken) => {
                    return (SendPoll::Done(Ok(())), woken);
                },
                (Err(TrySendError::Disconnected(v)), _) => {
                    return (SendPoll::Done(Err(SendError(v))), None);
                },
                (Err(TrySendError::Full(v)), _) => {
                    item = v;
                },
            }
            let chan = self.chan_mut();
            proof {
                crate::raw::util::lemma_idle_flags();
                lemma_registrable_closed(chan.sender.state());
            }
            match chan.sender.register(waker) {
                Poll::Pending => {
                    return (SendPoll::Pending(item), None);
                },
                Poll::Ready => {
                    crate::raw::util::spin_hint();
                },
            }
        }
    }

    /// Receives the oldest value unless the channel is empty; an empty channel
    /// whose sender is gone reports `Disconnected`. Answers the waker of the
    /// sender to wake.
    pub fn try_recv(&mut self) -> (r: (Result<T, TryRecvError>, Option<u64>))
        requires
            old(self).spsc_wf(),
        ensures
            final(self).spsc_wf(),
            final(self).senders() == old(self).senders(),
            final(self).receivers() == old(self).receivers(),
            final(self).disconnected() == old(self).disconnected(),
            final(self).channel().capacity() == old(self).channel().capacity(),
            final(self).channel().receiver() == old(self).channel().receiver(),
            old(self).channel().values().len() > 0 ==> r.0 == Ok::<T, TryRecvError>(old(self).channel().values()[0])
                && final(self).channel().values() == old(self).channel().values().drop_first()
                && r.1 == notify_woken(old(self).channel().sender().state(), old(self).channel().sender().waker())
                && final(self).channel().sender().state() == UNPARKED,
            old(self).channel().values().len() == 0 ==> r.1.is_none() && final(self).channel().values()
                == old(self).channel().values() && final(self).channel().sender() == old(self).channel().sender()
                && r.0 == (if old(self).disconnected() {
                Err::<T, TryRecvError>(TryRecvError::Disconnected)
            } else {
                Err::<T, TryRecvError>(TryRecvError::Empty)
            }),
    {
        let disconnected = self.is_disconnected();
        let chan = self.chan_mut();
        proof {
            lemma_unpark_at_rest(chan.sender.state());
        }
        match chan.consumer.pop(&mut chan.queue) {
            Some(value) => {
                let woken = chan.sender.unpark();
                (Ok(value), woken)
            },
            None => {
                if disconnected {
                    // a value may have been sent before the disconnection
                    match chan.consumer.pop(&mut chan.queue) {
                        Some(value) => {
                            let woken = chan.sender.unpark();
                            (Ok(value), woken)
                        },
                        None => (Err(TryRecvError::Disconnected), None),
                    }
                } else {
                    (Err(TryRecvError::Empty), None)
                }
            },
        }
    }

    /// Polls for a value for the receiving task whose waker is `waker`: a
    /// value, or `RecvError` once the channel is empty and the sender is gone,
    /// or `None` with the receiver parked on the waker. Answers the waker of
    /// the sender to wake.
    pub fn poll_recv(&mut self, waker: u64) -> (r: (Option<Result<T, RecvError>>, Option<u64>))
        requires
            old(self).spsc_wf(),
        ensures
            final(self).spsc_wf(),
            final(self).senders() == old(self).senders(),
            final(self).receivers() == old(self).receivers(),
            final(self).disconnected() == old(self).disconnected(),
            final(self).channel().capacity() == old(self).channel().capacity(),
            old(self).channel().values().len() > 0 ==> r.0 == Some(Ok::<T, RecvError>(old(self).channel().values()[0]))
                && final(self).channel().values() == old(self).channel().values().drop_first()
                && r.1 == notify_woken(old(self).channel().sender().state(), old(self).channel().sender().waker()),
            old(self).channel().values().len() == 0 && old(self).disconnected() ==> r == (Some(Err::<T, RecvError>(RecvError)), None::<u64>)
                && final(self).channel().values() == old(self).channel().values(),
            old(self).channel().values().len() == 0 && !old(self).disconnected() ==> r == (None::<Result<T, RecvError>>, None::<u64>)
                && final(self).channel().values() == old(self).channel().values()
                && final(self).channel().sender() == old(self).channel().sender()
                && final(self).channel().receiver().state() == PARKED
                && final(self).channel().receiver().waker() == Some(waker),
    {
        loop
            invariant
                self.spsc_wf(),
                self.senders() == old(self).senders(),
                self.receivers() == old(self).receivers(),
                self.disconnected() == old(self).disconnected(),
                self.channel().values() == old(self).channel().values(),
                self.channel().capacity() == old(self).channel().capacity(),
                self.channel().sender() == old(self).channel().sender(),
            decreases (if self.channel().receiver().state() == UNPARKED {
                2nat
            } else if self.channel().receiver().waker() != Some(waker) {
                1nat
            } else {
                0nat
            }),
        {
            match self.try_recv() {
                (Ok(value), woken) => {
                    return (Some(Ok(value)), woken);
                },
                (Err(TryRecvError::Disconnected), _) => {
                    return (Some(Err(RecvError)), None);
                },
                (Err(TryRecvError::Empty), _) => {},
            }
            let chan = self.chan_mut();
            proof {
                crate::raw::util::lemma_idle_flags();
                lemma_registrable_closed(chan.receiver.state());
            }
            match chan.receiver.register(waker) {
                Poll::Pending => {
                    return (None, None);
                },
                Poll::Ready => {
                    crate::raw::util::spin_hint();
                },
            }
        }
    }

    /// Whether the channel holds no value.
    pub fn is_empty(&self) -> (r: bool)
        requires
            self.spsc_wf(),
        ensures
            r == (self.channel().values().len() == 0),
    {
        self.chan().queue.is_empty()
    }

    /// Drops the sender handle. When the receiver remains, it is unparked:
    /// answers its waker to wake.
    pub fn drop_sender(&mut self) -> (r: (DropAction, Option<u64>))
        requires
            old(self).spsc_wf(),
            old(self).senders() > 0,
        ensures
            final(self).disconnected() == (final(self).senders() == 0 || final(self).receivers() == 0),
            final(self).spsc_wf(),
            final(self).senders() == old(self).senders() - 1,
            final(self).receivers() == old(self).receivers(),
            r.0 == drop_action(old(self).senders(), old(self).receivers()),
            final(self).channel().values() == old(self).channel().values(),
            final(self).channel().sender() == old(self).channel().sender(),
            r.0 == DropAction::Disconnect ==> r.1 == notify_woken(
                old(self).channel().receiver().state(),
                old(self).channel().receiver().waker(),
            ) && final(self).channel().receiver().state() == UNPARKED,
            r.0 != DropAction::Disconnect ==> r.1.is_none() && final(self).channel() == old(self).channel(),
    {
        let action = self.remove_sender();
        match action {
            DropAction::Disconnect => {
                let chan = self.chan_mut();
                proof {
                    lemma_unpark_at_rest(chan.receiver.state());
                }
                let woken = chan.receiver.unpark();
                (action, woken)
            },
            _ => (action, None),
        }
    }

    /// Drops the receiver handle. When the sender remains, it is unparked:
    /// answers its waker to wake.
    pub fn drop_receiver(&mut self) -> (r: (DropAction, Option<u64>))
        requires
            old(self).spsc_wf(),
            old(self).receivers() > 0,
        ensures
            final(self).disconnected() == (final(self).senders() == 0 || final(self).receivers() == 0),
            final(self).spsc_wf(),
            final(self).receivers() == old(self).receivers() - 1,
            final(self).senders() == old(self).senders(),
            r.0 == drop_action(old(self).receivers(), old(self).senders()),
            final(self).channel().values() == old(self).channel().values(),
            final(self).channel().receiver() == old(self).channel().receiver(),
            r.0 == DropAction::Disconnect ==> r.1 == notify_woken(
                old(self).channel().sender().state(),
                old(self).channel().sender().waker(),
            ) && final(self).channel().sender().state() == UNPARKED,
            r.0 != DropAction::Disconnect ==> r.1.is_none() && final(self).channel() == old(self).channel(),
    {
        let action = self.remove_receiver();
        match action {
            DropAction::Disconnect => {
                let chan = self.chan_mut();
                proof {
                    lemma_unpark_at_rest(chan.sender.state());
                }
                let woken = chan.sender.unpark();
                (action, woken)
            },
            _ => (action, None),
        }
    }
}


/// The state shared by the two handles of an unbounded channel.
pub struct UnboundedChannel<T> {
    queue: unbounded::Queue<T>,
    receiver: Task,
}

impl<T> UnboundedChannel<T> {
    /// The values in the channel, oldest first.
    pub closed spec fn values(&self) -> Seq<T> {
        self.queue.view()
    }

    /// The parked receiver.
    pub closed spec fn receiver(&self) -> Task {
        self.receiver
    }

    /// The queue is well formed and the receiver is at rest.
    pub closed spec fn wf(&self) -> bool {
        &&& self.queue.wf()
        &&& (self.receiver.state() == PARKED || self.receiver.state() == UNPARKED)
    }
}

/// Creates an unbounded channel.
pub fn unbounded<T>() -> (c: Rc<UnboundedChannel<T>>)
    ensures
        c.wf(),
        c.channel().wf(),
        c.channel().values() == Seq::<T>::empty(),
        c.senders() == 1,
        c.receivers() == 1,
        !c.disconnected(),
        c.channel().receiver().state() == PARKED,
{
    Rc::new(UnboundedChannel { queue: unbounded::Queue::new(), receiver: Task::new() })
}

impl<T> Rc<UnboundedChannel<T>> {
    /// The channel and its counts are well formed.
    pub open spec fn spsc_wf(&self) -> bool {
        self.wf() && self.channel().wf()
    }

    /// Sends `value` unless the receiver is gone. Answers the waker of the
    /// receiver to wake.
    pub fn send(&mut self, value: T) -> (r: (Result<(), SendError<T>>, Option<u64>))
        requires
            old(self).spsc_wf(),
        ensures
            final(self).spsc_wf(),
            final(self).senders() == old(self).senders(),
            final(self).receivers() == old(self).receivers(),
            final(self).disconnected() == old(self).disconnected(),
            old(self).disconnected() ==> r == (Err::<(), SendError<T>>(SendError(value)), None::<u64>)
                && final(self).channel() == old(self).channel(),
            !old(self).disconnected() ==> r.0 == Ok::<(), SendError<T>>(()) && final(self).channel().values()
                == old(self).channel().values().push(value) && r.1 == notify_woken(
                old(self).channel().receiver().state(),
                old(self).channel().receiver().waker(),
            ) && final(self).channel().receiver().state() == UNPARKED,
    {
        if self.is_disconnected() {
            return (Err(SendError(value)), None);
        }
        let chan = self.chan_mut();
        chan.queue.push(value);
        proof {
            lemma_unpark_at_rest(chan.receiver.state());
        }
        let woken = chan.receiver.unpark();
        (Ok(()), woken)
    }

    /// Receives the oldest value unless the channel is empty; an empty channel
    /// whose sender is gone reports `Disconnected`.
    pub fn try_recv(&mut self) -> (r: Result<T, TryRecvError>)
        requires
            old(self).spsc_wf(),
        ensures
            final(self).spsc_wf(),
            final(self).senders() == old(self).senders(),
            final(self).receivers() == old(self).receivers(),
            final(self).disconnected() == old(self).disconnected(),
            final(self).channel().receiver() == old(self).channel().receiver(),
            old(self).channel().values().len() > 0 ==> r == Ok::<T, TryRecvError>(old(self).channel().values()[0])
                && final(self).channel().values() == old(self).channel().values().drop_first(),
            old(self).channel().values().len() == 0 ==> final(self).channel().values() == old(self).channel().values()
                && r == (if old(self).disconnected() {
                Err::<T, TryRecvError>(TryRecvError::Disconnected)
            } else {
                Err::<T, TryRecvError>(TryRecvError::Empty)
            }),
    {
        let disconnected = self.is_disconnected();
        let chan = self.chan_mut();
        match chan.queue.pop() {
            Some(value) => Ok(value),
            None => {
                if disconnected {
                    // a value may have been sent before the disconnection
                    match chan.queue.pop() {
                        Some(value) => Ok(value),
                        None => Err(TryRecvError::Disconnected),
                    }
                } else {
                    Err(TryRecvError::Empty)
                }
            },
        }
    }

    /// Polls for a value for the receiving task whose waker is `waker`: a
    /// value, or `RecvError` once the channel is empty and the sender is gone,
    /// or `None` with the receiver parked on the waker.
    pub fn poll_recv(&mut self, waker: u64) -> (r: Option<Result<T, RecvError>>)
        requires
            old(self).spsc_wf(),
        ensures
            final(self).spsc_wf(),
            final(self).senders() == old(self).senders(),
            final(self).receivers() == old(self).receivers(),
            final(self).disconnected() == old(self).disconnected(),
            old(self).channel().values().len() > 0 ==> r == Some(Ok::<T, RecvError>(old(self).channel().values()[0]))
                && final(self).channel().values() == old(self).channel().values().drop_first(),
            old(self).channel().values().len() == 0 && old(self).disconnected() ==> r == Some(Err::<T, RecvError>(RecvError))
                && final(self).channel().values() == old(self).channel().values(),
            old(self).channel().values().len() == 0 && !old(self).disconnected() ==> r == None::<Result<T, RecvError>>
                && final(self).channel().values() == old(self).channel().values()
                && final(self).channel().receiver().state() == PARKED
                && final(self).channel().receiver().waker() == Some(waker),
    {
        loop
            invariant
                self.spsc_wf(),
                self.senders() == old(self).senders(),
                self.receivers() == old(self).receivers(),
                self.disconnected() == old(self).disconnected(),
                self.channel().values() == old(self).channel().values(),
            decreases (if self.channel().receiver().state() == UNPARKED {
                2nat
            } else if self.channel().receiver().waker() != Some(waker) {
                1nat
            } else {
                0nat
            }),
        {
            match self.try_recv() {
                Ok(value) => {
                    return Some(Ok(value));
                },
                Err(TryRecvError::Disconnected) => {
                    return Some(Err(RecvError));
                },
                Err(TryRecvError::Empty) => {},
            }
            let chan = self.chan_mut();
            proof {
                crate::raw::util::lemma_idle_flags();
                lemma_registrable_closed(chan.receiver.state());
            }
            match chan.receiver.register(waker) {
                Poll::Pending => {
                    return None;
                },
                Poll::Ready => {
                    crate::raw::util::spin_hint();
                },
            }
        }
    }

    /// Drops the sender handle. When the receiver remains, it is unparked:
    /// answers its waker to wake.
    pub fn drop_sender(&mut self) -> (r: (DropAction, Option<u64>))
        requires
            old(self).spsc_wf(),
            old(self).senders() > 0,
        ensures
            final(self).disconnected() == (final(self).senders() == 0 || final(self).receivers() == 0),
            final(self).spsc_wf(),
            final(self).senders() == old(self).senders() - 1,
            final(self).receivers() == old(self).receivers(),
            r.0 == drop_action(old(self).senders(), old(self).receivers()),
            final(self).channel().values() == old(self).channel().values(),
            r.0 == DropAction::Disconnect ==> r.1 == notify_woken(
                old(self).channel().receiver().state(),
                old(self).channel().receiver().waker(),
            ) && final(self).channel().receiver().state() == UNPARKED,
            r.0 != DropAction::Disconnect ==> r.1.is_none() && final(self).channel() == old(self).channel(),
    {
        let action = self.remove_sender();
        match action {
            DropAction::Disconnect => {
                let chan = self.chan_mut();
                proof {
                    lemma_unpark_at_rest(chan.receiver.state());
                }
                let woken = chan.receiver.unpark();
                (action, woken)
            },
            _ => (action, None),
        }
    }

    /// Drops the receiver handle.
    pub fn drop_receiver(&mut self) -> (r: DropAction)
        requires
            old(self).spsc_wf(),
            old(self).receivers() > 0,
        ensures
            final(self).disconnected() == (final(self).senders() == 0 || final(self).receivers() == 0),
            final(self).spsc_wf(),
            final(self).receivers() == old(self).receivers() - 1,
            final(self).senders() == old(self).senders(),
            r == drop_action(old(self).receivers(), old(self).senders()),
            final(self).channel() == old(self).channel(),
    {
        self.remove_receiver()
    }
}

} // verus!
