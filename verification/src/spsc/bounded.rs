//! Bounded single-producer single-consumer channels.
//!
//! The channel is a ring buffer, the local handles of its two ends, and the
//! wake-up cells of the receiver and of the sender.
use crate::channels::spsc::bounded::{Handle, Queue};
use crate::error::{RecvError, SendError, TryRecvError, TrySendError};
use crate::raw::rc::{drop_action, DropAction, Rc};
use crate::raw::util::is_valid_capacity;
use crate::task::{notify_woken, Poll};
use crate::wait::mpsc::{WaitCell, WAITING, WOKE};
use vstd::prelude::*;

verus! {

/// The state shared by the two handles of a channel.
pub struct Channel<T> {
    queue: Queue<T>,
    producer: Handle,
    consumer: Handle,
    receiver: WaitCell,
    sender: WaitCell,
}

impl<T> Channel<T> {
    /// The values in the channel, oldest first.
    pub closed spec fn values(&self) -> Seq<T> {
        self.queue.view()
    }

    /// The number of values the channel holds at most.
    pub closed spec fn capacity(&self) -> nat {
        self.queue.capacity()
    }

    /// The wake-up cell of the receiver.
    pub closed spec fn receiver(&self) -> WaitCell {
        self.receiver
    }

    /// The wake-up cell of the sender.
    pub closed spec fn sender(&self) -> WaitCell {
        self.sender
    }

    /// The queue and the handles of its ends agree, and both cells are at rest.
    pub closed spec fn wf(&self) -> bool {
        &&& self.queue.wf()
        &&& self.queue.producer(self.producer)
        &&& self.queue.consumer(self.consumer)
        &&& (self.receiver.state() == WAITING || self.receiver.state() == WOKE)
        &&& (self.sender.state() == WAITING || self.sender.state() == WOKE)
    }

    /// A channel holds at most its capacity.
    pub proof fn lemma_len(&self)
        requires
            self.wf(),
        ensures
            self.values().len() <= self.capacity(),
    {
        self.queue.lemma_len();
    }
}

/// Creates a bounded channel that holds at most `capacity` values.
pub fn new<T>(capacity: usize) -> (c: Rc<Channel<T>>)
    requires
        is_valid_capacity(capacity),
        capacity < usize::MAX,
    ensures
        c.wf(),
        c.channel().wf(),
        c.channel().values() == Seq::<T>::empty(),
        c.channel().capacity() == capacity,
        c.senders() == 1,
        c.receivers() == 1,
        !c.disconnected(),
        c.channel().receiver().state() == WAITING,
        c.channel().sender().state() == WAITING,
{
    Rc::new(
        Channel {
            queue: Queue::new(capacity),
            producer: Handle::new(),
            consumer: Handle::new(),
            receiver: WaitCell::new(),
            sender: WaitCell::new(),
        },
    )
}

/// What a poll of a send answers: its result, or the value back while the
/// sender waits.
pub enum SendPoll<T> {
    Done(Result<(), SendError<T>>),
    Pending(T),
}

impl<T> Rc<Channel<T>> {
    /// The channel and its counts are well formed.
    pub open spec fn spsc_wf(&self) -> bool {
        self.wf() && self.channel().wf()
    }

    /// Sends `value` unless the receiver is gone or the channel is full.
    /// Answers the waker of the receiver to wake.
    pub fn try_send(&mut self, value: T) -> (r: (Result<(), TrySendError<T>>, Option<u64>))
        requires
            old(self).spsc_wf(),
        ensures
            final(self).spsc_wf(),
            final(self).senders() == old(self).senders(),
            final(self).receivers() == old(self).receivers(),
            final(self).disconnected() == old(self).disconnected(),
            final(self).channel().capacity() == old(self).channel().capacity(),
            final(self).channel().sender() == old(self).channel().sender(),
            old(self).disconnected() ==> r == (Err::<(), TrySendError<T>>(TrySendError::Disconnected(value)), None::<u64>)
                && final(self).channel() == old(self).channel(),
            !old(self).disconnected() && old(self).channel().values().len() < old(self).channel().capacity() ==> r.0
                == Ok::<(), TrySendError<T>>(()) && final(self).channel().values() == old(self).channel().values().push(value)
                && r.1 == notify_woken(old(self).channel().receiver().state(), old(self).channel().receiver().waker())
                && final(self).channel().receiver().state() == WOKE,
            !old(self).disconnected() && old(self).channel().values().len() == old(self).channel().capacity() ==> r
                == (Err::<(), TrySendError<T>>(TrySendError::Full(value)), None::<u64>) && final(self).channel().values()
                == old(self).channel().values() && final(self).channel().receiver() == old(self).channel().receiver(),
    {
        if self.is_disconnected() {
            return (Err(TrySendError::Disconnected(value)), None);
        }
        let chan = self.chan_mut();
        match chan.producer.push(value, &mut chan.queue) {
            Ok(()) => {
                let woken = chan.receiver.wake();
                proof {
                    crate::raw::util::lemma_idle_flags();
                }
                (Ok(()), woken)
            },
            Err(value) => (Err(TrySendError::Full(value)), None),
        }
    }

    /// Polls a send of `value` for the sending task whose waker is `waker`:
    /// the value is sent, or comes back in an error once the receiver is
    /// gone, or comes back with the waker registered.
    /// Answers the waker of the receiver to wake.
    pub fn poll_send(&mut self, value: T, waker: u64) -> (r: (SendPoll<T>, Option<u64>))
        requires
            old(self).spsc_wf(),
        ensures
            final(self).spsc_wf(),
            final(self).senders() == old(self).senders(),
            final(self).receivers() == old(self).receivers(),
            final(self).disconnected() == old(self).disconnected(),
            final(self).channel().capacity() == old(self).channel().capacity(),
            old(self).disconnected() ==> r == (SendPoll::Done(Err(SendError(value))), None::<u64>)
                && final(self).channel().values() == old(self).channel().values(),
            !old(self).disconnected() && old(self).channel().values().len() < old(self).channel().capacity() ==> r.0
                == SendPoll::<T>::Done(Ok(())) && final(self).channel().values() == old(self).channel().values().push(value)
                && r.1 == notify_woken(old(self).channel().receiver().state(), old(self).channel().receiver().waker()),
            old(self).channel().values().len() == old(self).channel().capacity() && !old(self).disconnected() ==> r
                == (SendPoll::Pending(value), None::<u64>) && final(self).channel().values() == old(self).channel().values()
                && final(self).channel().receiver() == old(self).channel().receiver()
                && final(self).channel().sender().state() == WAITING
                && final(self).channel().sender().waker() == Some(waker),
    {
        let mut item = value;
        loop
            invariant
                self.spsc_wf(),
                self.senders() == old(self).senders(),
                self.receivers() == old(self).receivers(),
                self.disconnected() == old(self).disconnected(),
                self.channel().values() == old(self).channel().values(),
                self.channel().capacity() == old(self).channel().capacity(),
                self.channel().receiver() == old(self).channel().receiver(),
                item == value,
            decreases (if self.channel().sender().state() == WOKE {
                2nat
            } else if self.channel().sender().waker() != Some(waker) {
                1nat
            } else {
                0nat
            }),
        {
            proof {
                self.channel().lemma_len();
            }
            match self.try_send(item) {
                (Ok(()), woken) => {
                    return (SendPoll::Done(Ok(())), woken);
                },
                (Err(TrySendError::Disconnected(v)), _) => {
                    return (SendPoll::Done(Err(SendError(v))), None);
                },
                (Err(TrySendError::Full(v)), _) => {
                    item = v;
                },
            }
            let chan = self.chan_mut();
            proof {
                crate::raw::util::lemma_idle_flags();
            }
            match chan.sender.poll(waker) {
                Poll::Pending => {
                    return (SendPoll::Pending(item), None);
                },
                Poll::Ready => {
                    crate::raw::util::spin_hint();
                },
            }
        }
    }

    /// Receives the oldest value unless the channel is empty; an empty channel
    /// whose sender is gone reports `Disconnected`. Answers the waker of the
    /// sender to wake.
    pub fn try_recv(&mut self) -> (r: (Result<T, TryRecvError>, Option<u64>))
        requires
            old(self).spsc_wf(),
        ensures
            final(self).spsc_wf(),
            final(self).senders() == old(self).senders(),
            final(self).receivers() == old(self).receivers(),
            final(self).disconnected() == old(self).disconnected(),
            final(self).channel().capacity() == old(self).channel().capacity(),
            final(self).channel().receiver() == old(self).channel().receiver(),
            old(self).channel().values().len() > 0 ==> r.0 == Ok::<T, TryRecvError>(old(self).channel().values()[0])
                && final(self).channel().values() == old(self).channel().values().drop_first()
                && r.1 == notify_woken(old(self).channel().sender().state(), old(self).channel().sender().waker())
                && final(self).channel().sender().state() == WOKE,
            old(self).channel().values().len() == 0 ==> r.1.is_none() && final(self).channel().values()
                == old(self).channel().values() && final(self).channel().sender() == old(self).channel().sender()
                && r.0 == (if old(self).disconnected() {
                Err::<T, TryRecvError>(TryRecvError::Disconnected)
            } else {
                Err::<T, TryRecvError>(TryRecvError::Empty)
            }),
    {
        let disconnected = self.is_disconnected();
        let chan = self.chan_mut();
        match chan.consumer.pop(&mut chan.queue) {
            Some(value) => {
                let woken = chan.sender.wake();
                proof {
                    crate::raw::util::lemma_idle_flags();
                }
                (Ok(value), woken)
            },
            None => {
                if disconnected {
                    (Err(TryRecvError::Disconnected), None)
                } else {
                    (Err(TryRecvError::Empty), None)
                }
            },
        }
    }

    /// Polls for a value for the receiving task whose waker is `waker`: a
    /// value, or `RecvError` once the channel is empty and the sender is gone,
    /// or `None` with the waker registered. Answers the waker of the sender
    /// to wake.
    pub fn poll_recv(&mut self, waker: u64) -> (r: (Option<Result<T, RecvError>>, Option<u64>))
        requires
            old(self).spsc_wf(),
        ensures
            final(self).spsc_wf(),
            final(self).senders() == old(self).senders(),
            final(self).receivers() == old(self).receivers(),
            final(self).disconnected() == old(self).disconnected(),
            final(self).channel().capacity() == old(self).channel().capacity(),
            old(self).channel().values().len() > 0 ==> r.0 == Some(Ok::<T, RecvError>(old(self).channel().values()[0]))
                && final(self).channel().values() == old(self).channel().values().drop_first()
                && r.1 == notify_woken(old(self).channel().sender().state(), old(self).channel().sender().waker()),
            old(self).channel().values().len() == 0 && old(self).disconnected() ==> r == (Some(Err::<T, RecvError>(RecvError)), None::<u64>)
                && final(self).channel().values() == old(self).channel().values(),
            old(self).channel().values().len() == 0 && !old(self).disconnected() ==> r == (None::<Result<T, RecvError>>, None::<u64>)
                && final(self).channel().values() == old(self).channel().values()
                && final(self).channel().sender() == old(self).channel().sender()
                && final(self).channel().receiver().state() == WAITING
                && final(self).channel().receiver().waker() == Some(waker),
    {
        loop
            invariant
                self.spsc_wf(),
                self.senders() == old(self).senders(),
                self.receivers() == old(self).receivers(),
                self.disconnected() == old(self).disconnected(),
                self.channel().values() == old(self).channel().values(),
                self.channel().capacity() == old(self).channel().capacity(),
                self.channel().sender() == old(self).channel().sender(),
            decreases (if self.channel().receiver().state() == WOKE {
                2nat
            } else if self.channel().receiver().waker() != Some(waker) {
                1nat
            } else {
                0nat
            }),
        {
            match self.try_recv() {
                (Ok(value), woken) => {
                    return (Some(Ok(value)), woken);
                },
                (Err(TryRecvError::Disconnected), _) => {
                    return (Some(Err(RecvError)), None);
                },
                (Err(TryRecvError::Empty), _) => {},
            }
            let chan = self.chan_mut();
            proof {
                crate::raw::util::lemma_idle_flags();
            }
            match chan.receiver.poll(waker) {
                Poll::Pending => {
                    return (None, None);
                },
                Poll::Ready => {
                    crate::raw::util::spin_hint();
                },
            }
        }
    }

    /// Whether the channel holds no value.
    pub fn is_empty(&self) -> (r: bool)
        requires
            self.spsc_wf(),
        ensures
            r == (self.channel().values().len() == 0),
    {
        self.chan().queue.is_empty()
    }

    /// Drops the sender handle, the only one: the receiver is woken, and its
    /// waker is answered.
    pub fn drop_sender(&mut self) -> (r: (DropAction, Option<u64>))
        requires
            old(self).spsc_wf(),
            old(self).senders() == 1,
        ensures
            final(self).disconnected() == (final(self).senders() == 0 || final(self).receivers() == 0),
            final(self).spsc_wf(),
            final(self).senders() == 0,
            final(self).receivers() == old(self).receivers(),
            r.0 == drop_action(old(self).senders(), old(self).receivers()),
            final(self).channel().values() == old(self).channel().values(),
            final(self).channel().sender() == old(self).channel().sender(),
            r.1 == notify_woken(old(self).channel().receiver().state(), old(self).channel().receiver().waker()),
            final(self).channel().receiver().state() == WOKE,
    {
        let action = self.remove_sender();
        let chan = self.chan_mut();
        let woken = chan.receiver.wake();
        proof {
            crate::raw::util::lemma_idle_flags();
        }
        (action, woken)
    }

    /// Drops the receiver handle, the only one: the sender is woken, and its
    /// waker is answered.
    pub fn drop_receiver(&mut self) -> (r: (DropAction, Option<u64>))
        requires
            old(self).spsc_wf(),
            old(self).receivers() == 1,
        ensures
            final(self).disconnected() == (final(self).senders() == 0 || final(self).receivers() == 0),
            final(self).spsc_wf(),
            final(self).receivers() == 0,
            final(self).senders() == old(self).senders(),
            r.0 == drop_action(old(self).receivers(), old(self).senders()),
            final(self).channel().values() == old(self).channel().values(),
            final(self).channel().receiver() == old(self).channel().receiver(),
            r.1 == notify_woken(old(self).channel().sender().state(), old(self).channel().sender().waker()),
            final(self).channel().sender().state() == WOKE,
    {
        let action = self.remove_receiver();
        let chan = self.chan_mut();
        let woken = chan.sender.wake();
        proof {
            crate::raw::util::lemma_idle_flags();
        }
        (action, woken)
    }
}

} // verus!
