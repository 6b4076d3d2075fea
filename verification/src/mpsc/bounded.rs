//! Bounded multi-producer single-consumer channels.
//!
//! The channel is a bounded queue, the wake-up cell of the receiver and the
//! queue of waiting senders. A send that waits is a state machine that the
//! caller drives, one step at a time.
pub mod queue;

use crate::error::{RecvError, SendError, TryRecvError, TrySendError};
use crate::raw::rc::{drop_action, DropAction, Rc};
use crate::task::{notified_state, notify_woken, Poll};
use crate::wait::mpsc::{WaitCell, WAITING, WOKE};
use crate::wait::queue::{
    woke_all, woke_one, Queue as WaitQueue, State, Step, EMPTY as QUEUE_EMPTY, WOKE as QUEUE_WOKE,
};
use queue::Queue;
use vstd::prelude::*;

verus! {

/// The state shared by the handles of a bounded channel.
pub struct Channel<T> {
    queue: Queue<T>,
    receiver: WaitCell,
    senders: WaitQueue,
}

impl<T> Channel<T> {
    /// The values in the channel, oldest first.
    pub closed spec fn values(&self) -> Seq<T> {
        self.queue.view()
    }

    /// The number of values the channel holds at most.
    pub closed spec fn capacity(&self) -> nat {
        self.queue.capacity()
    }

    /// How many more sends the queue's counter has room for.
    pub closed spec fn room(&self) -> int {
        self.queue.room()
    }

    /// The wake-up cell of the receiver.
    pub closed spec fn receiver(&self) -> WaitCell {
        self.receiver
    }

    /// The waiting senders.
    pub closed spec fn senders(&self) -> WaitQueue {
        self.senders
    }

    /// The parts are well formed and the receiver's cell is at rest.
    pub closed spec fn wf(&self) -> bool {
        &&& self.queue.wf()
        &&& self.senders.wf()
        &&& (self.receiver.state() == WAITING || self.receiver.state() == WOKE)
    }

    /// A channel holds at most its capacity.
    pub proof fn lemma_len(&self)
        requires
            self.wf(),
        ensures
            self.values().len() <= self.capacity(),
    {
        self.queue.lemma_len();
    }

    /// Registers `waker` in the receiver's cell, or consumes its wake-up.
    fn poll_receiver(&mut self, waker: u64) -> (r: Poll)
        requires
            old(self).wf(),
        ensures
            final(self).wf(),
            final(self).values() == old(self).values(),
            final(self).capacity() == old(self).capacity(),
            final(self).room() == old(self).room(),
            final(self).senders() == old(self).senders(),
            r == crate::wait::mpsc::wait_poll_outcome(old(self).receiver().state(), old(self).receiver().waker(), waker),
            final(self).receiver().state() == WAITING,
            final(self).receiver().waker() == crate::task::registered_waker(old(self).receiver().state(), old(self).receiver().waker(), waker),
    {
        proof {
            crate::raw::util::lemma_idle_flags();
        }
        self.receiver.poll(waker)
    }
}

/// Creates a bounded channel with room for `capacity` values, rounded up to a
/// power of two.
pub fn new<T>(capacity: usize) -> (c: Rc<Channel<T>>)
    requires
        capacity <= isize::MAX / 2 + 1,
    ensures
        c.wf(),
        c.channel().wf(),
        c.channel().values() == Seq::<T>::empty(),
        c.channel().capacity() >= capacity,
        c.channel().capacity() == crate::raw::util::ceil_pow2(capacity as int),
        c.channel().room() == usize::MAX - 1,
        c.senders() == 1,
        c.receivers() == 1,
        !c.disconnected(),
        c.channel().receiver().state() == WAITING,
        c.channel().receiver().waker() == None::<u64>,
        c.channel().senders().next_key() == 0,
        c.channel().senders().state() == QUEUE_EMPTY,
        c.channel().senders().waiters().len() == 0,
        c.channel().senders().woken().len() == 0,
{
    Rc::new(Channel { queue: Queue::new(capacity), receiver: WaitCell::new(), senders: WaitQueue::new() })
}

/// What a step of a send answers.
pub enum SendStep<T> {
    /// The send is over, with its result.
    Ready(Result<(), SendError<T>>),
    /// The task waits for a wake-up; the send goes on from the state with the value.
    Pending(State, T),
    /// Another step follows from the state with the value.
    Again(State, T),
}

impl<T> Rc<Channel<T>> {
    /// The channel and its counts are well formed.
    pub open spec fn bounded_wf(&self) -> bool {
        self.wf() && self.channel().wf()
    }

    /// Sends `value` unless the receiver is gone or the channel is full.
    /// Answers the waker of the receiver to wake.
    pub fn try_send(&mut self, value: T) -> (r: (Result<(), TrySendError<T>>, Option<u64>))
        requires
            old(self).bounded_wf(),
            old(self).channel().room() >= 1,
        ensures
            final(self).bounded_wf(),
            final(self).senders() == old(self).senders(),
            final(self).receivers() == old(self).receivers(),
            final(self).disconnected() == old(self).disconnected(),
            final(self).channel().capacity() == old(self).channel().capacity(),
            final(self).channel().room() >= old(self).channel().room() - 1,
            final(self).channel().senders() == old(self).channel().senders(),
            old(self).disconnected() ==> r == (Err::<(), TrySendError<T>>(TrySendError::Disconnected(value)), None::<u64>)
                && final(self).channel() == old(self).channel(),
            !old(self).disconnected() && old(self).channel().values().len() < old(self).channel().capacity() ==> r.0
                == Ok::<(), TrySendError<T>>(()) && final(self).channel().values() == old(self).channel().values().push(value)
                && r.1 == notify_woken(old(self).channel().receiver().state(), old(self).channel().receiver().waker())
                && final(self).channel().receiver().state() == notified_state(old(self).channel().receiver().state())
                && final(self).channel().receiver().waker() == old(self).channel().receiver().waker(),
            !old(self).disconnected() && old(self).channel().values().len() == old(self).channel().capacity() ==> r
                == (Err::<(), TrySendError<T>>(TrySendError::Full(value)), None::<u64>) && final(self).channel()
                == old(self).channel(),
    {
        proof {
            self.channel().lemma_len();
        }
        if self.is_disconnected() {
            return (Err(TrySendError::Disconnected(value)), None);
        }
        let chan = self.chan_mut();
        proof {
            chan.queue.lemma_room();
            crate::raw::util::lemma_idle_flags();
        }
        match chan.queue.push(value) {
            Ok(()) => {
                let woken = chan.receiver.wake();
                (Ok(()), woken)
            },
            Err(value) => (Err(TrySendError::Full(value)), None),
        }
    }

    /// One step of a send of `value` in state `state`, for the task whose
    /// waker is `waker`: the send is tried in the states that try, and a full
    /// channel has the task wait among the senders. Answers the waker of the
    /// receiver to wake.
    pub fn send_step(&mut self, state: State, value: T, waker: u64) -> (r: (SendStep<T>, Option<u64>))
        requires
            old(self).bounded_wf(),
            old(self).channel().room() >= 1,
            old(self).channel().senders().next_key() < u64::MAX,
            state matches State::Registered(key) ==> old(self).channel().senders().is_live(key),
        ensures
            final(self).bounded_wf(),
            final(self).senders() == old(self).senders(),
            final(self).receivers() == old(self).receivers(),
            final(self).disconnected() == old(self).disconnected(),
            final(self).channel().capacity() == old(self).channel().capacity(),
            final(self).channel().room() >= old(self).channel().room() - 1,
            state matches State::Registered(key) ==> r.1.is_none() && final(self).channel().values()
                == old(self).channel().values() && final(self).channel().receiver() == old(self).channel().receiver()
                && (old(self).channel().senders().is_waiting(key) ==> r.0 == SendStep::Pending(State::Registered(key), value))
                && (!old(self).channel().senders().is_waiting(key) ==> r.0 == SendStep::Again(State::Done, value)),
            !(state is Registered) ==> {
                let o = old(self).channel();
                let f = final(self).channel();
                &&& old(self).disconnected() ==> r == (SendStep::Ready(Err(SendError(value))), None::<u64>) && f == o
                &&& !old(self).disconnected() && o.values().len() < o.capacity() ==> r.0 == SendStep::<T>::Ready(Ok(()))
                    && f.values() == o.values().push(value) && r.1 == notify_woken(o.receiver().state(), o.receiver().waker())
                &&& o.values().len() == o.capacity() && !old(self).disconnected() && o.senders().state() == QUEUE_WOKE
                    ==> r == (SendStep::Again(state, value), None::<u64>) && f.values() == o.values()
                &&& o.values().len() == o.capacity() && !old(self).disconnected() && o.senders().state() != QUEUE_WOKE
                    ==> r == (SendStep::Again(State::Registered(o.senders().next_key()), value), None::<u64>)
                    && f.values() == o.values() && f.senders().waiters() == seq![
                    (o.senders().next_key(), Some(waker))] + o.senders().waiters()
            },
    {
        match state {
            State::Registered(key) => {
                let chan = self.chan_mut();
                let (next, step) = chan.senders.poll_fn_step(state, false, waker);
                match step {
                    Step::Pending => (SendStep::Pending(next, value), None),
                    _ => (SendStep::Again(next, value), None),
                }
            },
            _ => {
                match self.try_send(value) {
                    (Ok(()), woken) => (SendStep::Ready(Ok(())), woken),
                    (Err(TrySendError::Disconnected(value)), _) => (SendStep::Ready(Err(SendError(value))), None),
                    (Err(TrySendError::Full(value)), _) => {
                        let chan = self.chan_mut();
                        let (next, _) = chan.senders.poll_fn_step(state, false, waker);
                        (SendStep::Again(next, value), None)
                    },
                }
            },
        }
    }

    /// Ends a send that is dropped: a registered waiter is taken out.
    pub fn drop_send(&mut self, state: State)
        requires
            old(self).bounded_wf(),
            state matches State::Registered(key) ==> old(self).channel().senders().is_live(key),
        ensures
            final(self).bounded_wf(),
            final(self).senders() == old(self).senders(),
            final(self).receivers() == old(self).receivers(),
            final(self).channel().values() == old(self).channel().values(),
            final(self).channel().room() == old(self).channel().room(),
            state matches State::Registered(key) ==> !final(self).channel().senders().is_waiting(key)
                && !final(self).channel().senders().woken().contains(key),
            !(state is Registered) ==> final(self).channel() == old(self).channel(),
    {
        let chan = self.chan_mut();
        chan.senders.drop_wait(state);
    }

    /// Receives the oldest value unless the channel is empty; an empty channel
    /// whose senders are gone reports `Disconnected`. Answers the waker of a
    /// waiting sender to wake.
    pub fn try_recv(&mut self) -> (r: (Result<T, TryRecvError>, Option<u64>))
        requires
            old(self).bounded_wf(),
        ensures
            final(self).bounded_wf(),
            final(self).senders() == old(self).senders(),
            final(self).receivers() == old(self).receivers(),
            final(self).disconnected() == old(self).disconnected(),
            final(self).channel().capacity() == old(self).channel().capacity(),
            final(self).channel().room() == old(self).channel().room(),
            final(self).channel().receiver() == old(self).channel().receiver(),
            old(self).channel().values().len() > 0 ==> r.0 == Ok::<T, TryRecvError>(old(self).channel().values()[0])
                && final(self).channel().values() == old(self).channel().values().drop_first()
                && woke_one(old(self).channel().senders(), final(self).channel().senders(), r.1),
            old(self).channel().values().len() == 0 ==> r.1.is_none() && final(self).channel() == old(self).channel()
                && r.0 == (if old(self).disconnected() {
                Err::<T, TryRecvError>(TryRecvError::Disconnected)
            } else {
                Err::<T, TryRecvError>(TryRecvError::Empty)
            }),
    {
        let disconnected = self.is_disconnected();
        let chan = self.chan_mut();
        match chan.queue.pop() {
            Some(value) => {
                let (_, woken) = chan.senders.wake();
                (Ok(value), woken)
            },
            None => {
                if disconnected {
                    (Err(TryRecvError::Disconnected), None)
                } else {
                    (Err(TryRecvError::Empty), None)
                }
            },
        }
    }

    /// Polls for a value for the receiving task whose waker is `waker`: a
    /// value, or `RecvError` once the channel is empty and the senders are
    /// gone, or `None` with the waker registered. Answers the waker of a
    /// waiting sender to wake.
    pub fn poll_recv(&mut self, waker: u64) -> (r: (Option<Result<T, RecvError>>, Option<u64>))
        requires
            old(self).bounded_wf(),
        ensures
            final(self).bounded_wf(),
            final(self).senders() == old(self).senders(),
            final(self).receivers() == old(self).receivers(),
            final(self).disconnected() == old(self).disconnected(),
            final(self).channel().capacity() == old(self).channel().capacity(),
            final(self).channel().room() == old(self).channel().room(),
            old(self).channel().values().len() > 0 ==> r.0 == Some(Ok::<T, RecvError>(old(self).channel().values()[0]))
                && final(self).channel().values() == old(self).channel().values().drop_first()
                && woke_one(old(self).channel().senders(), final(self).channel().senders(), r.1),
            old(self).channel().values().len() == 0 && old(self).disconnected() ==> r == (Some(Err::<T, RecvError>(RecvError)), None::<u64>)
                && final(self).channel().values() == old(self).channel().values(),
            old(self).channel().values().len() == 0 && !old(self).disconnected() ==> r == (None::<Result<T, RecvError>>, None::<u64>)
                && final(self).channel().values() == old(self).channel().values()
                && final(self).channel().senders() == old(self).channel().senders()
                && final(self).channel().receiver().state() == WAITING
                && final(self).channel().receiver().waker() == Some(waker),
    {
        loop
            invariant
                self.bounded_wf(),
                self.senders() == old(self).senders(),
                self.receivers() == old(self).receivers(),
                self.disconnected() == old(self).disconnected(),
                self.channel().values() == old(self).channel().values(),
                self.channel().senders() == old(self).channel().senders(),
                self.channel().capacity() == old(self).channel().capacity(),
                self.channel().room() == old(self).channel().room(),
            decreases (if self.channel().receiver().state() == WOKE {
                2nat
            } else if self.channel().receiver().waker() != Some(waker) {
                1nat
            } else {
                0nat
            }),
        {
            match self.try_recv() {
                (Ok(value), woken) => {
                    return (Some(Ok(value)), woken);
                },
                (Err(TryRecvError::Disconnected), _) => {
                    return (Some(Err(RecvError)), None);
                },
                (Err(TryRecvError::Empty), _) => {},
            }
            let polled = self.chan_mut().poll_receiver(waker);
            match polled {
                Poll::Pending => {
                    return (None, None);
                },
                Poll::Ready => {
                    crate::raw::util::spin_hint();
                },
            }
        }
    }

    /// Whether the channel holds no value.
    pub fn is_empty(&self) -> (r: bool)
        requires
            self.bounded_wf(),
        ensures
            r == (self.channel().values().len() == 0),
    {
        self.chan().queue.is_empty()
    }

    /// Clones a sender handle.
    pub fn clone_sender(&mut self)
        requires
            old(self).bounded_wf(),
            old(self).senders() <= isize::MAX,
            old(self).senders() > 0,
        ensures
            final(self).bounded_wf(),
            final(self).senders() == old(self).senders() + 1,
            final(self).receivers() == old(self).receivers(),
            final(self).disconnected() == old(self).disconnected(),
            final(self).channel() == old(self).channel(),
    {
        self.add_sender(isize::MAX as usize);
    }

    /// Drops a sender handle. When it was the last one, the receiver is
    /// woken: answers its waker to wake.
    pub fn drop_sender(&mut self) -> (r: (DropAction, Option<u64>))
        requires
            old(self).bounded_wf(),
            old(self).senders() > 0,
        ensures
            final(self).disconnected() == (final(self).senders() == 0 || final(self).receivers() == 0),
            final(self).bounded_wf(),
            final(self).senders() == old(self).senders() - 1,
            final(self).receivers() == old(self).receivers(),
            r.0 == drop_action(old(self).senders(), old(self).receivers()),
            final(self).channel().values() == old(self).channel().values(),
            r.0 != DropAction::Keep ==> r.1 == notify_woken(
                old(self).channel().receiver().state(),
                old(self).channel().receiver().waker(),
            ) && final(self).channel().receiver().state() == WOKE,
            r.0 == DropAction::Keep ==> r.1.is_none() && final(self).channel() == old(self).channel(),
    {
        let action = self.remove_sender();
        match action {
            DropAction::Keep => (action, None),
            _ => {
                let chan = self.chan_mut();
                let woken = chan.receiver.wake();
                proof {
                    crate::raw::util::lemma_idle_flags();
                }
                (action, woken)
            },
        }
    }

    /// Drops the receiver handle, the only one: every waiting sender is
    /// woken, and their wakers are answered.
    pub fn drop_receiver(&mut self) -> (r: (DropAction, Vec<Option<u64>>))
        requires
            old(self).bounded_wf(),
            old(self).receivers() > 0,
        ensures
            final(self).disconnected() == (final(self).senders() == 0 || final(self).receivers() == 0),
            final(self).bounded_wf(),
            final(self).receivers() == old(self).receivers() - 1,
            final(self).senders() == old(self).senders(),
            r.0 == drop_action(old(self).receivers(), old(self).senders()),
            final(self).channel().values() == old(self).channel().values(),
            final(self).channel().receiver() == old(self).channel().receiver(),
            r.0 != DropAction::Keep ==> woke_all(old(self).channel().senders(), final(self).channel().senders(), r.1@),
            r.0 == DropAction::Keep ==> r.1@.len() == 0 && final(self).channel() == old(self).channel(),
    {
        let action = self.remove_receiver();
        match action {
            DropAction::Keep => (action, Vec::new()),
            _ => {
                let chan = self.chan_mut();
                let woken = chan.senders.wake_all();
                (action, woken)
            },
        }
    }
}

} // verus!
