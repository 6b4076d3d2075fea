//! Unbounded single-producer single-consumer channels.
//!
//! The channel is a chain of blocks of slots and the wake-up cell of the
//! receiver.
use crate::channels::spsc::unbounded::Queue;
use crate::error::{RecvError, SendError, TryRecvError};
use crate::raw::rc::{drop_action, DropAction, Rc};
use crate::task::{notify_woken, Poll};
use crate::wait::mpsc::{WaitCell, WAITING, WOKE};
use vstd::prelude::*;

verus! {

/// The state shared by the two handles of a channel.
pub struct Channel<T> {
    queue: Queue<T>,
    receiver: WaitCell,
}

impl<T> Channel<T> {
    /// The values in the channel, oldest first.
    pub closed spec fn values(&self) -> Seq<T> {
        self.queue.view()
    }

    /// The wake-up cell of the receiver.
    pub closed spec fn receiver(&self) -> WaitCell {
        self.receiver
    }

    /// The queue is well formed and the receiver's cell is at rest.
    pub closed spec fn wf(&self) -> bool {
        &&& self.queue.wf()
        &&& (self.receiver.state() == WAITING || self.receiver.state() == WOKE)
    }
}

/// Creates an unbounded channel.
pub fn new<T>() -> (c: Rc<Channel<T>>)
    ensures
        c.wf(),
        c.channel().wf(),
        c.channel().values() == Seq::<T>::empty(),
        c.senders() == 1,
        c.receivers() == 1,
        !c.disconnected(),
        c.channel().receiver().state() == WAITING,
{
    Rc::new(Channel { queue: Queue::new(), receiver: WaitCell::new() })
}

impl<T> Rc<Channel<T>> {
    /// The channel and its counts are well formed.
    pub open spec fn spsc_wf(&self) -> bool {
        self.wf() && self.channel().wf()
    }

    /// Sends `value` unless the receiver is gone. Answers the waker of the
    /// receiver to wake.
    pub fn send(&mut self, value: T) -> (r: (Result<(), SendError<T>>, Option<u64>))
        requires
            old(self).spsc_wf(),
        ensures
            final(self).spsc_wf(),
            final(self).senders() == old(self).senders(),
            final(self).receivers() == old(self).receivers(),
            final(self).disconnected() == old(self).disconnected(),
            old(self).disconnected() ==> r == (Err::<(), SendError<T>>(SendError(value)), None::<u64>)
                && final(self).channel() == old(self).channel(),
            !old(self).disconnected() ==> r.0 == Ok::<(), SendError<T>>(()) && final(self).channel().values()
                == old(self).channel().values().push(value) && r.1 == notify_woken(
                old(self).channel().receiver().state(),
                old(self).channel().receiver().waker(),
            ) && final(self).channel().receiver().state() == WOKE,
    {
        if self.is_disconnected() {
            return (Err(SendError(value)), None);
        }
        let chan = self.chan_mut();
        chan.queue.push(value);
        let woken = chan.receiver.wake();
        proof {
            crate::raw::util::lemma_idle_flags();
        }
        (Ok(()), woken)
    }

    /// Receives the oldest value unless the channel is empty; an empty channel
    /// whose sender is gone reports `Disconnected`.
    pub fn try_recv(&mut self) -> (r: Result<T, TryRecvError>)
        requires
            old(self).spsc_wf(),
        ensures
            final(self).spsc_wf(),
            final(self).senders() == old(self).senders(),
            final(self).receivers() == old(self).receivers(),
            final(self).disconnected() == old(self).disconnected(),
            final(self).channel().receiver() == old(self).channel().receiver(),
            old(self).channel().values().len() > 0 ==> r == Ok::<T, TryRecvError>(old(self).channel().values()[0])
                && final(self).channel().values() == old(self).channel().values().drop_first(),
            old(self).channel().values().len() == 0 ==> final(self).channel().values() == old(self).channel().values()
                && r == (if old(self).disconnected() {
                Err::<T, TryRecvError>(TryRecvError::Disconnected)
            } else {
                Err::<T, TryRecvError>(TryRecvError::Empty)
            }),
    {
        let disconnected = self.is_disconnected();
        let chan = self.chan_mut();
        match chan.queue.pop() {
            Some(value) => Ok(value),
            None => {
                if disconnected {
                    Err(TryRecvError::Disconnected)
                } else {
                    Err(TryRecvError::Empty)
                }
            },
        }
    }

    /// Polls for a value for the receiving task whose waker is `waker`: a
    /// value, or `RecvError` once the channel is empty and the sender is gone,
    /// or `None` with the waker registered.
    pub fn poll_recv(&mut self, waker: u64) -> (r: Option<Result<T, RecvError>>)
        requires
            old(self).spsc_wf(),
        ensures
            final(self).spsc_wf(),
            final(self).senders() == old(self).senders(),
            final(self).receivers() == old(self).receivers(),
            final(self).disconnected() == old(self).disconnected(),
            old(self).channel().values().len() > 0 ==> r == Some(Ok::<T, RecvError>(old(self).channel().values()[0]))
                && final(self).channel().values() == old(self).channel().values().drop_first(),
            old(self).channel().values().len() == 0 && old(self).disconnected() ==> r == Some(Err::<T, RecvError>(RecvError))
                && final(self).channel().values() == old(self).channel().values(),
            old(self).channel().values().len() == 0 && !old(self).disconnected() ==> r.is_none()
                && final(self).channel().values() == old(self).channel().values()
                && final(self).channel().receiver().state() == WAITING
                && final(self).channel().receiver().waker() == Some(waker),
    {
        loop
            invariant
                self.spsc_wf(),
                self.senders() == old(self).senders(),
                self.receivers() == old(self).receivers(),
                self.disconnected() == old(self).disconnected(),
                self.channel().values() == old(self).channel().values(),
            decreases (if self.channel().receiver().state() == WOKE {
                2nat
            } else if self.channel().receiver().waker() != Some(waker) {
                1nat
            } else {
                0nat
            }),
        {
            match self.try_recv() {
                Ok(value) => {
                    return Some(Ok(value));
                },
                Err(TryRecvError::Disconnected) => {
                    return Some(Err(RecvError));
                },
                Err(TryRecvError::Empty) => {},
            }
            let chan = self.chan_mut();
            proof {
                crate::raw::util::lemma_idle_flags();
            }
            match chan.receiver.poll(waker) {
                Poll::Pending => {
                    return None;
                },
                Poll::Ready => {
                    crate::raw::util::spin_hint();
                },
            }
        }
    }

    /// Drops the sender handle, the only one: the receiver is woken, and its
    /// waker is answered.
    pub fn drop_sender(&mut self) -> (r: (DropAction, Option<u64>))
        requires
            old(self).spsc_wf(),
            old(self).senders() == 1,
        ensures
            final(self).disconnected() == (final(self).senders() == 0 || final(self).receivers() == 0),
            final(self).spsc_wf(),
            final(self).senders() == 0,
            final(self).receivers() == old(self).receivers(),
            r.0 == drop_action(old(self).senders(), old(self).receivers()),
            final(self).channel().values() == old(self).channel().values(),
            r.1 == notify_woken(old(self).channel().receiver().state(), old(self).channel().receiver().waker()),
            final(self).channel().receiver().state() == WOKE,
    {
        let action = self.remove_sender();
        let chan = self.chan_mut();
        let woken = chan.receiver.wake();
        proof {
            crate::raw::util::lemma_idle_flags();
        }
        (action, woken)
    }

    /// Drops the receiver handle, the only one.
    pub fn drop_receiver(&mut self) -> (r: DropAction)
        requires
            old(self).spsc_wf(),
            old(self).receivers() == 1,
        ensures
            final(self).disconnected() == (final(self).senders() == 0 || final(self).receivers() == 0),
            final(self).spsc_wf(),
            final(self).receivers() == 0,
            final(self).senders() == old(self).senders(),
            r == drop_action(old(self).receivers(), old(self).senders()),
            final(self).channel() == old(self).channel(),
    {
        self.remove_receiver()
    }
}

} // verus!
