//! Bounded multi-producer multi-consumer channels whose tasks wait on queues
//! with a state word.
//!
//! The channel is the state that all handles share: a bounded queue and the
//! queues of waiting receivers and senders. A send or receive that waits is a
//! state machine that the caller drives: each step takes the state and the
//! waker of the polling task, and answers what to do next (finish, wait, or
//! step again), with the waker of a task on the other side to wake.
pub mod queue;

use crate::error::{RecvError, SendError, TryRecvError, TrySendError};
use crate::raw::rc::{drop_action, DropAction, Rc};
use crate::task::Poll;
use crate::wait::queue::{woke_all, woke_one, Queue as WaitQueue, Waiter, EMPTY, WOKE};
use crate::wait::Status;
use queue::{Queue, MAX_CAPACITY};
use vstd::prelude::*;

verus! {

/// The state shared by the handles of a bounded channel.
pub struct Channel<T> {
    queue: Queue<T>,
    receivers: WaitQueue,
    senders: WaitQueue,
}

impl<T> Channel<T> {
    /// The values in the channel, oldest first.
    pub closed spec fn values(&self) -> Seq<T> {
        self.queue.view()
    }

    /// The number of values the channel holds at most.
    pub closed spec fn capacity(&self) -> nat {
        self.queue.bound()
    }

    /// How many more pushes and pops the queue's counters have room for.
    pub closed spec fn room(&self) -> int {
        self.queue.room()
    }

    /// The waiting receivers.
    pub closed spec fn receivers(&self) -> WaitQueue {
        self.receivers
    }

    /// The waiting senders.
    pub closed spec fn senders(&self) -> WaitQueue {
        self.senders
    }

    pub closed spec fn wf(&self) -> bool {
        &&& self.queue.wf()
        &&& self.receivers.wf()
        &&& self.senders.wf()
    }

    /// A channel holds at most its capacity.
    pub proof fn lemma_len(&self)
        requires
            self.wf(),
        ensures
            self.values().len() <= self.capacity(),
    {
        self.queue.lemma_len();
    }
}

/// Creates a bounded channel that holds at least `capacity` values: `capacity`
/// rounded up to a power of two.
pub fn new<T>(capacity: usize) -> (c: Rc<Channel<T>>)
    requires
        0 < capacity < MAX_CAPACITY,
    ensures
        c.wf(),
        c.channel().wf(),
        c.channel().values() == Seq::<T>::empty(),
        capacity <= c.channel().capacity() < 2 * capacity,
        c.channel().capacity() == crate::raw::util::ceil_pow2(capacity as int),
        c.channel().room() >= 0x2000_0000_0000_0000,
        c.senders() == 1,
        c.receivers() == 1,
        !c.disconnected(),
        c.channel().receivers().next_key() == 0,
        c.channel().receivers().state() == EMPTY,
        c.channel().receivers().waiters().len() == 0,
        c.channel().receivers().woken().len() == 0,
        c.channel().senders().next_key() == 0,
        c.channel().senders().state() == EMPTY,
        c.channel().senders().waiters().len() == 0,
        c.channel().senders().woken().len() == 0,
{
    Rc::new(
        Channel { queue: Queue::new(capacity), receivers: WaitQueue::new(), senders: WaitQueue::new() },
    )
}

/// A send in progress, with the value it carries.
pub enum SendState<T> {
    /// About to try.
    Started(T),
    /// Waiting with a waiter under the key.
    Registered(u64, T),
    /// Woken: about to try again.
    Done(T),
}

/// What a step of a send answers.
pub enum SendStep<T> {
    /// The send is over, with its result.
    Ready(Result<(), SendError<T>>),
    /// The task waits for a wake-up; the send goes on from the state.
    Pending(SendState<T>),
    /// Another step follows from the state.
    Again(SendState<T>),
}

/// A receive in progress.
pub enum RecvState {
    /// About to try.
    Started,
    /// Waiting with a waiter under the key.
    Registered(u64),
    /// Woken: about to try again.
    Done,
}

/// What a step of a receive answers.
pub enum RecvStep<T> {
    /// The receive is over, with its result.
    Ready(Result<T, RecvError>),
    /// The task waits for a wake-up; the receive goes on from the state.
    Pending(RecvState),
    /// Another step follows from the state.
    Again(RecvState),
}

impl<T> Rc<Channel<T>> {
    /// The channel and its counts are well formed.
    pub open spec fn bounded_wf(&self) -> bool {
        self.wf() && self.channel().wf()
    }

    /// Sends `value` unless the receivers are gone or the channel is full.
    /// Answers the waker of a waiting receiver to wake.
    pub fn try_send(&mut self, value: T) -> (r: (Result<(), TrySendError<T>>, Option<u64>))
        requires
            old(self).bounded_wf(),
            old(self).channel().room() >= 1,
        ensures
            final(self).bounded_wf(),
            final(self).senders() == old(self).senders(),
            final(self).receivers() == old(self).receivers(),
            final(self).disconnected() == old(self).disconnected(),
            final(self).channel().capacity() == old(self).channel().capacity(),
            final(self).channel().room() >= old(self).channel().room() - 1,
            final(self).channel().senders() == old(self).channel().senders(),
            final(self).channel().receivers().next_key() == old(self).channel().receivers().next_key(),
            old(self).disconnected() ==> r == (Err::<(), TrySendError<T>>(TrySendError::Disconnected(value)), None::<u64>)
                && final(self).channel() == old(self).channel(),
            !old(self).disconnected() && old(self).channel().values().len() < old(self).channel().capacity() ==> r.0
                == Ok::<(), TrySendError<T>>(()) && final(self).channel().values() == old(self).channel().values().push(value)
                && woke_one(old(self).channel().receivers(), final(self).channel().receivers(), r.1),
            !old(self).disconnected() && old(self).channel().values().len() == old(self).channel().capacity() ==> r
                == (Err::<(), TrySendError<T>>(TrySendError::Full(value)), None::<u64>) && final(self).channel().values()
                == old(self).channel().values() && final(self).channel().receivers() == old(self).channel().receivers(),
    {
        proof {
            self.channel().lemma_len();
        }
        if self.is_disconnected() {
            return (Err(TrySendError::Disconnected(value)), None);
        }
        let chan = self.chan_mut();
        proof {
            chan.queue.lemma_room();
        }
        match chan.queue.push(value) {
            Ok(()) => {
                let (_, woken) = chan.receivers.wake();
                (Ok(()), woken)
            },
            Err(value) => (Err(TrySendError::Full(value)), None),
        }
    }

    /// Receives the oldest value unless the channel is empty; an empty channel
    /// whose senders are gone reports `Disconnected`. Answers the waker of a
    /// waiting sender to wake.
    pub fn try_recv(&mut self) -> (r: (Result<T, TryRecvError>, Option<u64>))
        requires
            old(self).bounded_wf(),
            old(self).channel().room() >= 1,
        ensures
            final(self).bounded_wf(),
            final(self).senders() == old(self).senders(),
            final(self).receivers() == old(self).receivers(),
            final(self).disconnected() == old(self).disconnected(),
            final(self).channel().capacity() == old(self).channel().capacity(),
            final(self).channel().room() >= old(self).channel().room() - 1,
            final(self).channel().receivers() == old(self).channel().receivers(),
            final(self).channel().senders().next_key() == old(self).channel().senders().next_key(),
            old(self).channel().values().len() > 0 ==> r.0 == Ok::<T, TryRecvError>(old(self).channel().values()[0])
                && final(self).channel().values() == old(self).channel().values().drop_first()
                && woke_one(old(self).channel().senders(), final(self).channel().senders(), r.1),
            old(self).channel().values().len() == 0 ==> r.1.is_none() && final(self).channel().values()
                == old(self).channel().values() && final(self).channel().senders() == old(self).channel().senders()
                && r.0 == (if old(self).disconnected() {
                Err::<T, TryRecvError>(TryRecvError::Disconnected)
            } else {
                Err::<T, TryRecvError>(TryRecvError::Empty)
            }),
    {
        let disconnected = self.is_disconnected();
        let chan = self.chan_mut();
        proof {
            chan.queue.lemma_room();
        }
        match chan.queue.pop() {
            Some(value) => {
                let (_, woken) = chan.senders.wake();
                (Ok(value), woken)
            },
            None => {
                if disconnected {
                    (Err(TryRecvError::Disconnected), None)
                } else {
                    (Err(TryRecvError::Empty), None)
                }
            },
        }
    }

    /// Whether the channel holds no value.
    pub fn is_empty(&self) -> (r: bool)
        requires
            self.bounded_wf(),
        ensures
            r == (self.channel().values().len() == 0),
    {
        self.chan().queue.is_empty()
    }

    /// One step of a send in state `state`, for the task whose waker is
    /// `waker`. Answers the waker of a waiting receiver to wake.
    pub fn send_step(&mut self, state: SendState<T>, waker: u64) -> (r: (SendStep<T>, Option<u64>))
        requires
            old(self).bounded_wf(),
            old(self).channel().room() >= 1,
            old(self).channel().senders().next_key() < u64::MAX,
            state matches SendState::Registered(key, _) ==> old(self).channel().senders().is_live(key),
        ensures
            final(self).bounded_wf(),
            final(self).senders() == old(self).senders(),
            final(self).receivers() == old(self).receivers(),
            final(self).disconnected() == old(self).disconnected(),
            final(self).channel().capacity() == old(self).channel().capacity(),
            final(self).channel().room() >= old(self).channel().room() - 1,
            final(self).channel().senders().next_key() <= old(self).channel().senders().next_key() + 1,
            final(self).channel().receivers().next_key() == old(self).channel().receivers().next_key(),
            state matches SendState::Registered(key, v) ==> r.1.is_none() && final(self).channel().values()
                == old(self).channel().values() && final(self).channel().receivers() == old(self).channel().receivers()
                && (old(self).channel().senders().is_waiting(key) ==> r.0 == SendStep::Pending(SendState::Registered(key, v)))
                && (!old(self).channel().senders().is_waiting(key) ==> r.0 == SendStep::Again(SendState::Done(v))),
            !(state is Registered) ==> {
                let v = match state {
                    SendState::Started(v) => v,
                    SendState::Done(v) => v,
                    SendState::Registered(_, v) => v,
                };
                let o = old(self).channel();
                let f = final(self).channel();
                &&& old(self).disconnected() ==> r == (SendStep::Ready(Err(SendError(v))), None::<u64>) && f == o
                &&& !old(self).disconnected() && o.values().len() < o.capacity() ==> r.0 == SendStep::<T>::Ready(Ok(()))
                    && f.values() == o.values().push(v) && woke_one(o.receivers(), f.receivers(), r.1)
                &&& o.values().len() == o.capacity() && !old(self).disconnected() && state is Done ==> r == (
                SendStep::Again(SendState::Started(v)), None::<u64>) && f.values() == o.values()
                    && f.receivers() == o.receivers() && f.senders() == o.senders()
                &&& o.values().len() == o.capacity() && !old(self).disconnected() && state is Started
                    && o.senders().state() == WOKE ==> r == (SendStep::Again(SendState::Started(v)), None::<u64>)
                    && f.values() == o.values() && f.receivers() == o.receivers()
                &&& o.values().len() == o.capacity() && !old(self).disconnected() && state is Started
                    && o.senders().state() != WOKE ==> r == (SendStep::Again(SendState::Registered(
                    o.senders().next_key(), v)), None::<u64>) && f.values() == o.values()
                    && f.receivers() == o.receivers() && f.senders().waiters() == seq![
                    (o.senders().next_key(), Some(waker))] + o.senders().waiters()
            },
    {
        match state {
            SendState::Registered(key, value) => {
                let chan = self.chan_mut();
                match chan.senders.poll(key, waker) {
                    Poll::Pending => (SendStep::Pending(SendState::Registered(key, value)), None),
                    Poll::Ready => (SendStep::Again(SendState::Done(value)), None),
                }
            },
            SendState::Started(value) => {
                match self.try_send(value) {
                    (Ok(()), woken) => (SendStep::Ready(Ok(())), woken),
                    (Err(TrySendError::Disconnected(value)), _) => (SendStep::Ready(Err(SendError(value))), None),
                    (Err(TrySendError::Full(value)), _) => {
                        let chan = self.chan_mut();
                        match chan.senders.register(Waiter::new(), waker) {
                            (Status::Registered, Some(key)) => (SendStep::Again(SendState::Registered(key, value)), None),
                            _ => (SendStep::Again(SendState::Started(value)), None),
                        }
                    },
                }
            },
            SendState::Done(value) => {
                match self.try_send(value) {
                    (Ok(()), woken) => (SendStep::Ready(Ok(())), woken),
                    (Err(TrySendError::Disconnected(value)), _) => (SendStep::Ready(Err(SendError(value))), None),
                    (Err(TrySendError::Full(value)), _) => (SendStep::Again(SendState::Started(value)), None),
                }
            },
        }
    }

    /// One step of a receive in state `state`, for the task whose waker is
    /// `waker`. Answers the waker of a waiting sender to wake.
    pub fn recv_step(&mut self, state: RecvState, waker: u64) -> (r: (RecvStep<T>, Option<u64>))
        requires
            old(self).bounded_wf(),
            old(self).channel().room() >= 1,
            old(self).channel().receivers().next_key() < u64::MAX,
            state matches RecvState::Registered(key) ==> old(self).channel().receivers().is_live(key),
        ensures
            final(self).bounded_wf(),
            final(self).senders() == old(self).senders(),
            final(self).receivers() == old(self).receivers(),
            final(self).disconnected() == old(self).disconnected(),
            final(self).channel().capacity() == old(self).channel().capacity(),
            final(self).channel().room() >= old(self).channel().room() - 1,
            final(self).channel().receivers().next_key() <= old(self).channel().receivers().next_key() + 1,
            final(self).channel().senders().next_key() == old(self).channel().senders().next_key(),
            state matches RecvState::Registered(key) ==> r.1.is_none() && final(self).channel().values()
                == old(self).channel().values() && final(self).channel().senders() == old(self).channel().senders()
                && (old(self).channel().receivers().is_waiting(key) ==> r.0 == RecvStep::<T>::Pending(RecvState::Registered(key)))
                && (!old(self).channel().receivers().is_waiting(key) ==> r.0 == RecvStep::<T>::Again(RecvState::Done)),
            !(state is Registered) ==> {
                let o = old(self).channel();
                let f = final(self).channel();
                &&& o.values().len() > 0 ==> r.0 == RecvStep::Ready(Ok::<T, RecvError>(o.values()[0]))
                    && f.values() == o.values().drop_first() && woke_one(o.senders(), f.senders(), r.1)
                &&& o.values().len() == 0 && old(self).disconnected() ==> r == (RecvStep::<T>::Ready(Err(RecvError)), None::<u64>)
                    && f.values() == o.values() && f.senders() == o.senders()
                &&& o.values().len() == 0 && !old(self).disconnected() && state is Done ==> r == (
                RecvStep::<T>::Again(RecvState::Started), None::<u64>) && f.values() == o.values()
                    && f.senders() == o.senders() && f.receivers() == o.receivers()
                &&& o.values().len() == 0 && !old(self).disconnected() && state is Started
                    && o.receivers().state() == WOKE ==> r == (RecvStep::<T>::Again(RecvState::Started), None::<u64>)
                    && f.values() == o.values() && f.senders() == o.senders()
                &&& o.values().len() == 0 && !old(self).disconnected() && state is Started
                    && o.receivers().state() != WOKE ==> r == (RecvStep::<T>::Again(RecvState::Registered(
                    o.receivers().next_key())), None::<u64>) && f.values() == o.values()
                    && f.senders() == o.senders() && f.receivers().waiters() == seq![
                    (o.receivers().next_key(), Some(waker))] + o.receivers().waiters()
            },
    {
        match state {
            RecvState::Registered(key) => {
                let chan = self.chan_mut();
                match chan.receivers.poll(key, waker) {
                    Poll::Pending => (RecvStep::Pending(RecvState::Registered(key)), None),
                    Poll::Ready => (RecvStep::Again(RecvState::Done), None),
                }
            },
            RecvState::Started => {
                match self.try_recv() {
                    (Ok(value), woken) => (RecvStep::Ready(Ok(value)), woken),
                    (Err(TryRecvError::Disconnected), _) => (RecvStep::Ready(Err(RecvError)), None),
                    (Err(TryRecvError::Empty), _) => {
                        let chan = self.chan_mut();
                        match chan.receivers.register(Waiter::new(), waker) {
                            (Status::Registered, Some(key)) => (RecvStep::Again(RecvState::Registered(key)), None),
                            _ => (RecvStep::Again(RecvState::Started), None),
                        }
                    },
                }
            },
            RecvState::Done => {
                match self.try_recv() {
                    (Ok(value), woken) => (RecvStep::Ready(Ok(value)), woken),
                    (Err(TryRecvError::Disconnected), _) => (RecvStep::Ready(Err(RecvError)), None),
                    (Err(TryRecvError::Empty), _) => (RecvStep::Again(RecvState::Started), None),
                }
            },
        }
    }

    /// Ends a send that is dropped: a registered waiter is taken out.
    pub fn drop_send(&mut self, state: SendState<T>)
        requires
            old(self).bounded_wf(),
            state matches SendState::Registered(key, _) ==> old(self).channel().senders().is_live(key),
        ensures
            final(self).bounded_wf(),
            final(self).senders() == old(self).senders(),
            final(self).receivers() == old(self).receivers(),
            final(self).channel().values() == old(self).channel().values(),
            final(self).channel().capacity() == old(self).channel().capacity(),
            final(self).channel().room() == old(self).channel().room(),
            final(self).channel().receivers() == old(self).channel().receivers(),
            state matches SendState::Registered(key, _) ==> !final(self).channel().senders().is_waiting(key)
                && !final(self).channel().senders().woken().contains(key),
            !(state is Registered) ==> final(self).channel() == old(self).channel(),
    {
        if let SendState::Registered(key, _) = state {
            let chan = self.chan_mut();
            chan.senders.drop_wait(crate::wait::queue::State::Registered(key));
        }
    }

    /// Ends a receive that is dropped: a registered waiter is taken out.
    pub fn drop_recv(&mut self, state: RecvState)
        requires
            old(self).bounded_wf(),
            state matches RecvState::Registered(key) ==> old(self).channel().receivers().is_live(key),
        ensures
            final(self).bounded_wf(),
            final(self).senders() == old(self).senders(),
            final(self).receivers() == old(self).receivers(),
            final(self).channel().values() == old(self).channel().values(),
            final(self).channel().capacity() == old(self).channel().capacity(),
            final(self).channel().room() == old(self).channel().room(),
            final(self).channel().senders() == old(self).channel().senders(),
            state matches RecvState::Registered(key) ==> !final(self).channel().receivers().is_waiting(key)
                && !final(self).channel().receivers().woken().contains(key),
            !(state is Registered) ==> final(self).channel() == old(self).channel(),
    {
        if let RecvState::Registered(key) = state {
            let chan = self.chan_mut();
            chan.receivers.drop_wait(crate::wait::queue::State::Registered(key));
        }
    }

    /// Clones a sender handle.
    pub fn clone_sender(&mut self)
        requires
            old(self).bounded_wf(),
            old(self).senders() < usize::MAX,
            old(self).senders() > 0,
        ensures
            final(self).bounded_wf(),
            final(self).senders() == old(self).senders() + 1,
            final(self).receivers() == old(self).receivers(),
            final(self).disconnected() == old(self).disconnected(),
            final(self).channel() == old(self).channel(),
    {
        self.add_sender(usize::MAX);
    }

    /// Clones a receiver handle.
    pub fn clone_receiver(&mut self)
        requires
            old(self).bounded_wf(),
            old(self).receivers() <= 1,
            old(self).receivers() > 0,
        ensures
            final(self).bounded_wf(),
            final(self).receivers() == old(self).receivers() + 1,
            final(self).senders() == old(self).senders(),
            final(self).disconnected() == old(self).disconnected(),
            final(self).channel() == old(self).channel(),
    {
        self.add_receiver(1);
    }

    /// Drops a sender handle. When it was the last one and receivers remain,
    /// every waiting receiver is woken, and their wakers are answered.
    pub fn drop_sender(&mut self) -> (r: (DropAction, Vec<Option<u64>>))
        requires
            old(self).bounded_wf(),
            old(self).senders() > 0,
        ensures
            final(self).disconnected() == (final(self).senders() == 0 || final(self).receivers() == 0),
            final(self).bounded_wf(),
            final(self).senders() == old(self).senders() - 1,
            final(self).receivers() == old(self).receivers(),
            r.0 == drop_action(old(self).senders(), old(self).receivers()),
            final(self).channel().values() == old(self).channel().values(),
            final(self).channel().capacity() == old(self).channel().capacity(),
            final(self).channel().room() == old(self).channel().room(),
            final(self).channel().senders() == old(self).channel().senders(),
            r.0 == DropAction::Disconnect ==> woke_all(old(self).channel().receivers(), final(self).channel().receivers(), r.1@),
            r.0 != DropAction::Disconnect ==> r.1@.len() == 0 && final(self).channel().receivers() == old(self).channel().receivers(),
    {
        let action = self.remove_sender();
        match action {
            DropAction::Disconnect => {
                let chan = self.chan_mut();
                let woken = chan.receivers.wake_all();
                (action, woken)
            },
            _ => (action, Vec::new()),
        }
    }

    /// Drops a receiver handle. When it was the last one and senders remain,
    /// every waiting sender is woken, and their wakers are answered.
    pub fn drop_receiver(&mut self) -> (r: (DropAction, Vec<Option<u64>>))
        requires
            old(self).bounded_wf(),
            old(self).receivers() > 0,
        ensures
            final(self).disconnected() == (final(self).senders() == 0 || final(self).receivers() == 0),
            final(self).bounded_wf(),
            final(self).receivers() == old(self).receivers() - 1,
            final(self).senders() == old(self).senders(),
            r.0 == drop_action(old(self).receivers(), old(self).senders()),
            final(self).channel().values() == old(self).channel().values(),
            final(self).channel().capacity() == old(self).channel().capacity(),
            final(self).channel().room() == old(self).channel().room(),
            final(self).channel().receivers() == old(self).channel().receivers(),
            r.0 == DropAction::Disconnect ==> woke_all(old(self).channel().senders(), final(self).channel().senders(), r.1@),
            r.0 != DropAction::Disconnect ==> r.1@.len() == 0 && final(self).channel().senders() == old(self).channel().senders(),
    {
        let action = self.remove_receiver();
        match action {
            DropAction::Disconnect => {
                let chan = self.chan_mut();
                let woken = chan.senders.wake_all();
                (action, woken)
            },
            _ => (action, Vec::new()),
        }
    }
}

} // verus!
