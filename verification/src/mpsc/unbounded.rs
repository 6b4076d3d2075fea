//! Unbounded multi-producer single-consumer channels.
//!
//! The channel is an unbounded queue and the wake-up cell of the receiver.
pub mod queue;

use crate::error::{RecvError, SendError, TryRecvError};
use crate::raw::rc::{drop_action, DropAction, Rc};
use crate::task::{notified_state, notify_woken, Poll};
use crate::wait::mpsc::{WaitCell, WAITING, WOKE};
use queue::{Queue, MAX_SENDERS};
use vstd::prelude::*;

verus! {

/// The state shared by the handles of an unbounded channel.
pub struct Channel<T> {
    queue: Queue<T>,
    receiver: WaitCell,
}

impl<T> Channel<T> {
    /// The values in the channel, oldest first.
    pub closed spec fn values(&self) -> Seq<T> {
        self.queue@
    }

    /// The wake-up cell of the receiver.
    pub closed spec fn receiver(&self) -> WaitCell {
        self.receiver
    }

    /// How many more blocks the queue's block ids have room for.
    pub closed spec fn room(&self) -> int {
        self.queue.room()
    }

    /// Block ids have room for one more block.
    pub open spec fn can_grow(&self) -> bool {
        self.room() >= 1
    }

    /// The queue is well formed and the receiver's cell is at rest: it holds
    /// a pending wake-up or none, and no lock.
    pub closed spec fn wf(&self) -> bool {
        &&& self.queue.wf()
        &&& self.queue.retired() == 0
        &&& (self.receiver.state() == WAITING || self.receiver.state() == WOKE)
    }
}

impl<T> Channel<T> {
    /// Registers `waker` in the receiver's cell, or consumes its wake-up.
    fn poll_receiver(&mut self, waker: u64) -> (r: Poll)
        requires
            old(self).wf(),
        ensures
            final(self).wf(),
            final(self).values() == old(self).values(),
            final(self).room() == old(self).room(),
            r == crate::wait::mpsc::wait_poll_outcome(old(self).receiver().state(), old(self).receiver().waker(), waker),
            final(self).receiver().state() == WAITING,
            final(self).receiver().waker() == crate::task::registered_waker(old(self).receiver().state(), old(self).receiver().waker(), waker),
    {
        proof {
            crate::raw::util::lemma_idle_flags();
        }
        self.receiver.poll(waker)
    }
}

/// Creates an unbounded channel.
pub fn new<T>() -> (c: Rc<Channel<T>>)
    ensures
        c.wf(),
        c.channel().wf(),
        c.channel().values() == Seq::<T>::empty(),
        c.channel().room() == u64::MAX - 1,
        c.senders() == 1,
        c.receivers() == 1,
        !c.disconnected(),
{
    Rc::new(Channel { queue: Queue::new(), receiver: WaitCell::new() })
}

impl<T> Rc<Channel<T>> {
    /// The channel and its counts are well formed.
    pub open spec fn unbounded_wf(&self) -> bool {
        self.wf() && self.channel().wf()
    }

    /// Sends `value` unless the receiver is gone. Answers the waker of the
    /// receiver to wake.
    pub fn send(&mut self, value: T) -> (r: (Result<(), SendError<T>>, Option<u64>))
        requires
            old(self).unbounded_wf(),
            old(self).channel().can_grow(),
        ensures
            final(self).channel().room() >= old(self).channel().room() - 1,
            final(self).unbounded_wf(),
            final(self).senders() == old(self).senders(),
            final(self).receivers() == old(self).receivers(),
            final(self).disconnected() == old(self).disconnected(),
            old(self).disconnected() ==> r == (Err::<(), SendError<T>>(SendError(value)), None::<u64>)
                && final(self).channel() == old(self).channel(),
            !old(self).disconnected() ==> r.0 == Ok::<(), SendError<T>>(()) && final(self).channel().values()
                == old(self).channel().values().push(value) && r.1 == notify_woken(
                old(self).channel().receiver().state(),
                old(self).channel().receiver().waker(),
            ) && final(self).channel().receiver().state() == notified_state(old(self).channel().receiver().state())
                && final(self).channel().receiver().waker() == old(self).channel().receiver().waker(),
    {
        if self.is_disconnected() {
            return (Err(SendError(value)), None);
        }
        let chan = self.chan_mut();
        chan.queue.push(value);
        let woken = chan.receiver.wake();
        proof {
            crate::raw::util::lemma_idle_flags();
        }
        (Ok(()), woken)
    }

    /// Receives the oldest value unless the channel is empty; an empty channel
    /// whose senders are gone reports `Disconnected`.
    pub fn try_recv(&mut self) -> (r: Result<T, TryRecvError>)
        requires
            old(self).unbounded_wf(),
        ensures
            final(self).unbounded_wf(),
            final(self).senders() == old(self).senders(),
            final(self).receivers() == old(self).receivers(),
            final(self).disconnected() == old(self).disconnected(),
            final(self).channel().receiver() == old(self).channel().receiver(),
            final(self).channel().room() == old(self).channel().room(),
            old(self).channel().values().len() > 0 ==> r == Ok::<T, TryRecvError>(old(self).channel().values()[0])
                && final(self).channel().values() == old(self).channel().values().drop_first(),
            old(self).channel().values().len() == 0 ==> final(self).channel().values() == old(self).channel().values()
                && r == (if old(self).disconnected() {
                Err::<T, TryRecvError>(TryRecvError::Disconnected)
            } else {
                Err::<T, TryRecvError>(TryRecvError::Empty)
            }),
    {
        let disconnected = self.is_disconnected();
        let chan = self.chan_mut();
        match chan.queue.pop() {
            Some(value) => Ok(value),
            None => {
                if disconnected {
                    Err(TryRecvError::Disconnected)
                } else {
                    Err(TryRecvError::Empty)
                }
            },
        }
    }

    /// Polls for a value for the receiving task whose waker is `waker`: a
    /// value, or `RecvError` once the channel is empty and the senders are
    /// gone, or `Pending` with the waker registered.
    pub fn poll_recv(&mut self, waker: u64) -> (r: Option<Result<T, RecvError>>)
        requires
            old(self).unbounded_wf(),
        ensures
            final(self).unbounded_wf(),
            final(self).senders() == old(self).senders(),
            final(self).receivers() == old(self).receivers(),
            final(self).disconnected() == old(self).disconnected(),
            final(self).channel().room() == old(self).channel().room(),
            old(self).channel().values().len() > 0 ==> r == Some(Ok::<T, RecvError>(old(self).channel().values()[0]))
                && final(self).channel().values() == old(self).channel().values().drop_first(),
            old(self).channel().values().len() == 0 && old(self).disconnected() ==> r == Some(Err::<T, RecvError>(RecvError))
                && final(self).channel().values() == old(self).channel().values(),
            old(self).channel().values().len() == 0 && !old(self).disconnected() ==> r.is_none()
                && final(self).channel().values() == old(self).channel().values()
                && final(self).channel().receiver().state() == WAITING
                && final(self).channel().receiver().waker() == Some(waker),
    {
        loop
            invariant
                self.unbounded_wf(),
                self.senders() == old(self).senders(),
                self.receivers() == old(self).receivers(),
                self.disconnected() == old(self).disconnected(),
                self.channel().values() == old(self).channel().values(),
                self.channel().room() == old(self).channel().room(),
            decreases (if self.channel().receiver().state() == WOKE {
                2nat
            } else if self.channel().receiver().waker() != Some(waker) {
                1nat
            } else {
                0nat
            }),
        {
            match self.try_recv() {
                Ok(value) => {
                    return Some(Ok(value));
                },
                Err(TryRecvError::Disconnected) => {
                    return Some(Err(RecvError));
                },
                Err(TryRecvError::Empty) => {},
            }
            let polled = self.chan_mut().poll_receiver(waker);
            match polled {
                Poll::Pending => {
                    return None;
                },
                Poll::Ready => {
                    crate::raw::util::spin_hint();
                },
            }
        }
    }

    /// Whether the channel holds no value.
    pub fn is_empty(&mut self) -> (r: bool)
        requires
            old(self).unbounded_wf(),
        ensures
            final(self).unbounded_wf(),
            final(self).channel().values() == old(self).channel().values(),
            final(self).channel().receiver() == old(self).channel().receiver(),
            final(self).channel().room() == old(self).channel().room(),
            final(self).senders() == old(self).senders(),
            final(self).receivers() == old(self).receivers(),
            final(self).disconnected() == old(self).disconnected(),
            r == (old(self).channel().values().len() == 0),
    {
        let chan = self.chan_mut();
        chan.queue.is_empty()
    }

    /// Clones a sender handle.
    pub fn clone_sender(&mut self)
        requires
            old(self).unbounded_wf(),
            old(self).senders() <= MAX_SENDERS,
            old(self).senders() > 0,
        ensures
            final(self).unbounded_wf(),
            final(self).senders() == old(self).senders() + 1,
            final(self).receivers() == old(self).receivers(),
            final(self).disconnected() == old(self).disconnected(),
            final(self).channel() == old(self).channel(),
    {
        self.add_sender(MAX_SENDERS);
    }

    /// Drops a sender handle. When it was the last one, the receiver is
    /// woken: answers its waker to wake.
    pub fn drop_sender(&mut self) -> (r: (DropAction, Option<u64>))
        requires
            old(self).unbounded_wf(),
            old(self).senders() > 0,
        ensures
            final(self).disconnected() == (final(self).senders() == 0 || final(self).receivers() == 0),
            final(self).unbounded_wf(),
            final(self).senders() == old(self).senders() - 1,
            final(self).receivers() == old(self).receivers(),
            r.0 == drop_action(old(self).senders(), old(self).receivers()),
            final(self).channel().values() == old(self).channel().values(),
            r.0 != DropAction::Keep ==> r.1 == notify_woken(
                old(self).channel().receiver().state(),
                old(self).channel().receiver().waker(),
            ) && final(self).channel().receiver().state() == WOKE,
            r.0 == DropAction::Keep ==> r.1.is_none() && final(self).channel() == old(self).channel(),
    {
        let action = self.remove_sender();
        match action {
            DropAction::Keep => (action, None),
            _ => {
                let chan = self.chan_mut();
                let woken = chan.receiver.wake();
                proof {
                    crate::raw::util::lemma_idle_flags();
                }
                (action, woken)
            },
        }
    }

    /// Drops the receiver handle.
    pub fn drop_receiver(&mut self) -> (r: DropAction)
        requires
            old(self).unbounded_wf(),
            old(self).receivers() > 0,
        ensures
            final(self).disconnected() == (final(self).senders() == 0 || final(self).receivers() == 0),
            final(self).unbounded_wf(),
            final(self).receivers() == old(self).receivers() - 1,
            final(self).senders() == old(self).senders(),
            r == drop_action(old(self).receivers(), old(self).senders()),
            final(self).channel() == old(self).channel(),
    {
        self.remove_receiver()
    }
}

} // verus!
