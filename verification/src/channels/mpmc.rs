//! Multi-producer multi-consumer channels.
//!
//! The channel is the state that all handles share: a bounded queue, the
//! parked receivers and the parked senders, with the handle counts around it.
//! A send or receive that has to wait is a small state machine: each poll
//! takes its state and the waker of the polling task, and answers the next
//! state, or the result, with the waker of a task on the other side to wake.
pub mod bounded;

use crate::error::{RecvError, SendError, TryRecvError, TrySendError};
use crate::mpmc::unbounded::queue::{Queue as UnboundedQueue, MAX_RECEIVERS, MAX_SENDERS};
use crate::raw::parking::queue::{unparked_all, unparked_one, TaskQueue, WAITING};
use crate::raw::rc::{drop_action, DropAction, Rc};
use crate::raw::util::is_valid_capacity;
use crate::task::Poll;
use bounded::{Queue, MAX_CAPACITY};
use vstd::prelude::*;

verus! {

/// The state shared by the handles of a bounded channel.
pub struct Channel<T> {
    queue: Queue<T>,
    receivers: TaskQueue,
    senders: TaskQueue,
}

impl<T> Channel<T> {
    /// The values in the channel, oldest first.
    pub closed spec fn values(&self) -> Seq<T> {
        self.queue.view()
    }

    /// The number of values the channel holds at most.
    pub closed spec fn capacity(&self) -> nat {
        self.queue.capacity()
    }

    /// How many more pushes and pops the queue's counters have room for.
    pub closed spec fn room(&self) -> int {
        self.queue.room()
    }

    /// The parked receivers.
    pub closed spec fn receivers(&self) -> TaskQueue {
        self.receivers
    }

    /// The parked senders.
    pub closed spec fn senders(&self) -> TaskQueue {
        self.senders
    }

    pub closed spec fn wf(&self) -> bool {
        &&& self.queue.wf()
        &&& self.receivers.wf()
        &&& self.senders.wf()
    }

    /// A channel holds at most its capacity.
    pub proof fn lemma_len(&self)
        requires
            self.wf(),
        ensures
            self.values().len() <= self.capacity(),
    {
        self.queue.lemma_len();
    }

    /// The parking queues have room for one more task each.
    pub open spec fn can_park(&self) -> bool {
        &&& self.receivers().next_key() < u64::MAX
        &&& self.receivers().pending() < usize::MAX
        &&& self.senders().next_key() < u64::MAX
        &&& self.senders().pending() < usize::MAX
    }
}

/// Creates a bounded channel that holds at most `capacity` values.
pub fn bounded<T>(capacity: usize) -> (c: Rc<Channel<T>>)
    requires
        is_valid_capacity(capacity),
        capacity < MAX_CAPACITY,
        capacity * 2 <= usize::MAX,
    ensures
        c.wf(),
        c.channel().wf(),
        c.channel().values() == Seq::<T>::empty(),
        c.channel().capacity() == capacity,
        c.channel().room() >= 0x2000_0000_0000_0000,
        c.senders() == 1,
        c.receivers() == 1,
        !c.disconnected(),
        c.channel().receivers().pending() == 0,
        c.channel().senders().pending() == 0,
        c.channel().receivers().next_key() == 0,
        c.channel().senders().next_key() == 0,
{
    Rc::new(
        Channel { queue: Queue::new(capacity), receivers: TaskQueue::new(), senders: TaskQueue::new() },
    )
}

/// A send in progress: about to try, or parked under a key with its value.
pub enum SendState<T> {
    Start(T),
    Parked(u64, T),
}

/// What a poll of a send answers: its result, or the state to poll next.
pub enum SendPoll<T> {
    Done(Result<(), SendError<T>>),
    Waiting(SendState<T>),
}

/// A receive in progress: about to try, or parked under a key.
pub enum RecvState {
    Start,
    Parked(u64),
}

/// What a poll of a receive answers: its result, or the state to poll next.
pub enum RecvPoll<T> {
    Done(Result<T, RecvError>),
    Waiting(RecvState),
}

/// The value that a send in state `s` carries.
pub open spec fn send_value<T>(s: SendState<T>) -> T {
    match s {
        SendState::Start(v) => v,
        SendState::Parked(_, v) => v,
    }
}

impl<T> Rc<Channel<T>> {
    /// The channel and its counts are well formed.
    pub open spec fn chan_wf(&self) -> bool {
        self.wf() && self.channel().wf()
    }

    /// Sends `value` unless the channel is full or disconnected. Answers the
    /// waker of a parked receiver to wake.
    pub fn try_send(&mut self, value: T) -> (r: (Result<(), TrySendError<T>>, Option<u64>))
        requires
            old(self).chan_wf(),
            old(self).channel().room() >= 1,
        ensures
            final(self).chan_wf(),
            final(self).senders() == old(self).senders(),
            final(self).receivers() == old(self).receivers(),
            final(self).disconnected() == old(self).disconnected(),
            final(self).channel().capacity() == old(self).channel().capacity(),
            final(self).channel().room() >= old(self).channel().room() - 1,
            final(self).channel().senders() == old(self).channel().senders(),
            final(self).channel().receivers().next_key() == old(self).channel().receivers().next_key(),
            old(self).disconnected() ==> r == (Err::<(), TrySendError<T>>(
                TrySendError::Disconnected(value),
            ), None::<u64>) && final(self).channel() == old(self).channel(),
            !old(self).disconnected() && old(self).channel().values().len() < old(self).channel().capacity() ==> r.0 == Ok::<(), TrySendError<T>>(()) && final(self).channel().values() == old(self).channel().values().push(value) && unparked_one(
                old(self).channel().receivers(),
                final(self).channel().receivers(),
                r.1,
            ),
            !old(self).disconnected() && old(self).channel().values().len() == old(self).channel().capacity() ==> r == (Err::<(), TrySendError<T>>(TrySendError::Full(value)),
            None::<u64>) && final(self).channel().values() == old(self).channel().values()
                && final(self).channel().receivers() == old(self).channel().receivers(),
    {
        if self.is_disconnected() {
            return (Err(TrySendError::Disconnected(value)), None);
        }
        let chan = self.chan_mut();
        proof {
            chan.queue.lemma_room();
        }
        match chan.queue.push(value) {
            Ok(()) => {
                let woken = chan.receivers.unpark_one();
                (Ok(()), woken)
            },
            Err(value) => (Err(TrySendError::Full(value)), None),
        }
    }

    /// Receives the oldest value unless the channel is empty; an empty channel
    /// whose senders are gone reports `Disconnected`. Answers the waker of a
    /// parked sender to wake.
    pub fn try_recv(&mut self) -> (r: (Result<T, TryRecvError>, Option<u64>))
        requires
            old(self).chan_wf(),
            old(self).channel().room() >= 2,
        ensures
            final(self).chan_wf(),
            final(self).senders() == old(self).senders(),
            final(self).receivers() == old(self).receivers(),
            final(self).disconnected() == old(self).disconnected(),
            final(self).channel().capacity() == old(self).channel().capacity(),
            final(self).channel().room() >= old(self).channel().room() - 2,
            final(self).channel().receivers() == old(self).channel().receivers(),
            final(self).channel().senders().next_key() == old(self).channel().senders().next_key(),
            old(self).channel().values().len() > 0 ==> r.0 == Ok::<T, TryRecvError>(
                old(self).channel().values()[0],
            ) && final(self).channel().values() == old(self).channel().values().drop_first()
                && unparked_one(
                old(self).channel().senders(),
                final(self).channel().senders(),
                r.1,
            ),
            old(self).channel().values().len() == 0 ==> r.1.is_none() && final(self).channel().values() == old(self).channel().values() && final(self).channel().senders()
                == old(self).channel().senders() && r.0 == (if old(self).disconnected() {
                Err::<T, TryRecvError>(TryRecvError::Disconnected)
            } else {
                Err::<T, TryRecvError>(TryRecvError::Empty)
            }),
    {
        let disconnected = self.is_disconnected();
        let chan = self.chan_mut();
        proof {
            chan.queue.lemma_room();
        }
        match chan.queue.pop() {
            Some(value) => {
                let woken = chan.senders.unpark_one();
                (Ok(value), woken)
            },
            None => {
                if disconnected {
                    proof {
                        chan.queue.lemma_room();
                    }
                    match chan.queue.pop() {
                        Some(value) => {
                            let woken = chan.senders.unpark_one();
                            (Ok(value), woken)
                        },
                        None => (Err(TryRecvError::Disconnected), None),
                    }
                } else {
                    (Err(TryRecvError::Empty), None)
                }
            },
        }
    }

    /// Whether a value can be sent now.
    pub fn can_push(&self) -> (r: bool)
        requires
            self.chan_wf(),
        ensures
            r == (self.channel().values().len() < self.channel().capacity()),
    {
        self.chan().queue.can_push()
    }

    /// Whether a value can be received now.
    pub fn can_pop(&self) -> (r: bool)
        requires
            self.chan_wf(),
        ensures
            r == (self.channel().values().len() > 0),
    {
        self.chan().queue.can_pop()
    }

    /// Polls a send in state `state` for the task whose waker is `waker`.
    ///
    /// A parked send that was not notified keeps waiting. Otherwise the value
    /// is tried: it is sent, or comes back when the receivers are gone, or the
    /// send parks among the senders under a new key and waits. Answers the
    /// waker of a parked receiver to wake.
    pub fn poll_send(&mut self, state: SendState<T>, waker: u64) -> (r: (SendPoll<T>, Option<u64>))
        requires
            old(self).chan_wf(),
            old(self).channel().room() >= 1,
            old(self).channel().can_park(),
            state matches SendState::Parked(key, _) ==> old(self).channel().senders().is_live(key),
        ensures
            final(self).chan_wf(),
            final(self).senders() == old(self).senders(),
            final(self).receivers() == old(self).receivers(),
            final(self).disconnected() == old(self).disconnected(),
            final(self).channel().capacity() == old(self).channel().capacity(),
            final(self).channel().room() >= old(self).channel().room() - 1,
            final(self).channel().senders().next_key() <= old(self).channel().senders().next_key() + 1,
            final(self).channel().receivers().next_key() == old(self).channel().receivers().next_key(),
            state matches SendState::Parked(key, v) ==> (old(self).channel().senders().is_parked(key)
                ==> r == (SendPoll::Waiting(SendState::Parked(key, v)), None::<u64>) && final(self).channel().values()
                == old(self).channel().values() && final(self).channel().receivers() == old(self).channel().receivers()),
            !(state matches SendState::Parked(key, _) && old(self).channel().senders().is_parked(key)) ==> {
                let v = send_value(state);
                let o = old(self).channel();
                let f = final(self).channel();
                &&& old(self).disconnected() ==> r == (SendPoll::Done(Err(SendError(v))), None::<u64>)
                    && f.values() == o.values() && f.receivers() == o.receivers()
                &&& !old(self).disconnected() && o.values().len() < o.capacity() ==> r.0 == SendPoll::<T>::Done(Ok(()))
                    && f.values() == o.values().push(v) && unparked_one(o.receivers(), f.receivers(), r.1)
                &&& !old(self).disconnected() && o.values().len() == o.capacity() ==> r == (SendPoll::Waiting(
                    SendState::Parked(o.senders().next_key(), v)), None::<u64>) && f.values() == o.values()
                    && f.receivers() == o.receivers() && f.senders().parked() == seq![
                    (o.senders().next_key(), WAITING, Some(waker))] + o.senders().parked()
            },
    {
        let mut value = match state {
            SendState::Start(v) => v,
            SendState::Parked(key, v) => {
                let chan = self.chan_mut();
                match chan.senders.poll(key, waker) {
                    Poll::Pending => {
                        return (SendPoll::Waiting(SendState::Parked(key, v)), None);
                    },
                    Poll::Ready => v,
                }
            },
        };
        let ghost mid = *self;
        proof {
            self.channel().lemma_len();
        }
        loop
            invariant
                *self == mid,
                value == send_value(state),
                mid.chan_wf(),
                mid.channel().values().len() <= mid.channel().capacity(),
                mid.senders() == old(self).senders(),
                mid.receivers() == old(self).receivers(),
                mid.disconnected() == old(self).disconnected(),
                mid.channel().values() == old(self).channel().values(),
                mid.channel().capacity() == old(self).channel().capacity(),
                mid.channel().room() == old(self).channel().room(),
                mid.channel().room() >= 1,
                mid.channel().receivers() == old(self).channel().receivers(),
                mid.channel().senders().parked() == old(self).channel().senders().parked(),
                mid.channel().senders().pending() == old(self).channel().senders().pending(),
                mid.channel().senders().next_key() == old(self).channel().senders().next_key(),
                mid.channel().can_park(),
                !(state matches SendState::Parked(key, _) && old(self).channel().senders().is_parked(key)),
            decreases 1nat,
        {
            match self.try_send(value) {
                (Ok(()), woken) => {
                    return (SendPoll::Done(Ok(())), woken);
                },
                (Err(TrySendError::Disconnected(v)), woken) => {
                    return (SendPoll::Done(Err(SendError(v))), woken);
                },
                (Err(TrySendError::Full(v)), _) => {
                    let should_park = !(self.can_push() || self.is_disconnected());
                    let chan = self.chan_mut();
                    match chan.senders.park(should_park) {
                        Some(key) => {
                            assert(chan.senders.parked()[0].0 == key);
                            let ghost parked = chan.senders.parked();
                            proof {
                                chan.senders.tasks_distinct();
                            }
                            let _ = chan.senders.poll(key, waker);
                            proof {
                                assert forall|i: int| 0 <= i < parked.len() implies #[trigger] chan.senders.parked()[i]
                                    == (seq![(key, WAITING, Some(waker))] + parked.subrange(1, parked.len() as int))[i] by {
                                    if i > 0 {
                                        assert(parked[0].0 > parked[i].0);
                                    }
                                }
                                assert(chan.senders.parked() =~= seq![(key, WAITING, Some(waker))]
                                    + parked.subrange(1, parked.len() as int));
                            }
                            return (SendPoll::Waiting(SendState::Parked(key, v)), None);
                        },
                        None => {
                            value = v;
                        },
                    }
                },
            }
        }
    }

    /// Polls a receive in state `state` for the task whose waker is `waker`.
    ///
    /// A parked receive that was not notified keeps waiting. Otherwise a value
    /// is tried: it is received, or the receive fails when the channel is empty
    /// and the senders are gone, or the receive parks among the receivers
    /// under a new key and waits. Answers the waker of a parked sender to wake.
    pub fn poll_recv(&mut self, state: RecvState, waker: u64) -> (r: (RecvPoll<T>, Option<u64>))
        requires
            old(self).chan_wf(),
            old(self).channel().room() >= 2,
            old(self).channel().can_park(),
            state matches RecvState::Parked(key) ==> old(self).channel().receivers().is_live(key),
        ensures
            final(self).chan_wf(),
            final(self).senders() == old(self).senders(),
            final(self).receivers() == old(self).receivers(),
            final(self).disconnected() == old(self).disconnected(),
            final(self).channel().capacity() == old(self).channel().capacity(),
            final(self).channel().room() >= old(self).channel().room() - 2,
            final(self).channel().receivers().next_key() <= old(self).channel().receivers().next_key() + 1,
            final(self).channel().senders().next_key() == old(self).channel().senders().next_key(),
            state matches RecvState::Parked(key) ==> (old(self).channel().receivers().is_parked(key)
                ==> r == (RecvPoll::<T>::Waiting(RecvState::Parked(key)), None::<u64>) && final(self).channel().values()
                == old(self).channel().values() && final(self).channel().senders() == old(self).channel().senders()),
            !(state matches RecvState::Parked(key) && old(self).channel().receivers().is_parked(key)) ==> {
                let o = old(self).channel();
                let f = final(self).channel();
                &&& o.values().len() > 0 ==> r.0 == RecvPoll::Done(Ok::<T, RecvError>(o.values()[0]))
                    && f.values() == o.values().drop_first() && unparked_one(o.senders(), f.senders(), r.1)
                &&& o.values().len() == 0 && old(self).disconnected() ==> r == (RecvPoll::<T>::Done(Err(RecvError)), None::<u64>)
                    && f.values() == o.values() && f.senders() == o.senders()
                &&& o.values().len() == 0 && !old(self).disconnected() ==> r == (RecvPoll::<T>::Waiting(
                    RecvState::Parked(o.receivers().next_key())), None::<u64>) && f.values() == o.values()
                    && f.senders() == o.senders() && f.receivers().parked() == seq![
                    (o.receivers().next_key(), WAITING, Some(waker))] + o.receivers().parked()
            },
    {
        match state {
            RecvState::Start => {},
            RecvState::Parked(key) => {
                let chan = self.chan_mut();
                match chan.receivers.poll(key, waker) {
                    Poll::Pending => {
                        return (RecvPoll::Waiting(RecvState::Parked(key)), None);
                    },
                    Poll::Ready => {},
                }
            },
        }
        let ghost mid = *self;
        proof {
            self.channel().lemma_len();
        }
        loop
            invariant
                *self == mid,
                mid.chan_wf(),
                mid.channel().values().len() <= mid.channel().capacity(),
                mid.senders() == old(self).senders(),
                mid.receivers() == old(self).receivers(),
                mid.disconnected() == old(self).disconnected(),
                mid.channel().values() == old(self).channel().values(),
                mid.channel().capacity() == old(self).channel().capacity(),
                mid.channel().room() == old(self).channel().room(),
                mid.channel().room() >= 2,
                mid.channel().senders() == old(self).channel().senders(),
                mid.channel().receivers().parked() == old(self).channel().receivers().parked(),
                mid.channel().receivers().pending() == old(self).channel().receivers().pending(),
                mid.channel().receivers().next_key() == old(self).channel().receivers().next_key(),
                mid.channel().can_park(),
                !(state matches RecvState::Parked(key) && old(self).channel().receivers().is_parked(key)),
            decreases 1nat,
        {
            match self.try_recv() {
                (Ok(v), woken) => {
                    return (RecvPoll::Done(Ok(v)), woken);
                },
                (Err(TryRecvError::Disconnected), woken) => {
                    return (RecvPoll::Done(Err(RecvError)), woken);
                },
                (Err(TryRecvError::Empty), _) => {
                    let should_park = !(self.can_pop() || self.is_disconnected());
                    let chan = self.chan_mut();
                    match chan.receivers.park(should_park) {
                        Some(key) => {
                            assert(chan.receivers.parked()[0].0 == key);
                            let ghost parked = chan.receivers.parked();
                            proof {
                                chan.receivers.tasks_distinct();
                            }
                            let _ = chan.receivers.poll(key, waker);
                            proof {
                                assert forall|i: int| 0 <= i < parked.len() implies #[trigger] chan.receivers.parked()[i]
                                    == (seq![(key, WAITING, Some(waker))] + parked.subrange(1, parked.len() as int))[i] by {
                                    if i > 0 {
                                        assert(parked[0].0 > parked[i].0);
                                    }
                                }
                                assert(chan.receivers.parked() =~= seq![(key, WAITING, Some(waker))]
                                    + parked.subrange(1, parked.len() as int));
                            }
                            return (RecvPoll::Waiting(RecvState::Parked(key)), None);
                        },
                        None => {},
                    }
                },
            }
        }
    }

    /// Ends a send that is dropped in state `state`: a parked task leaves
    /// the queue, and an unparked one consumes its notification. Answers the
    /// value that the send carried.
    pub fn drop_send(&mut self, state: SendState<T>) -> (v: T)
        requires
            old(self).chan_wf(),
            state matches SendState::Parked(key, _) ==> old(self).channel().senders().is_live(key),
        ensures
            v == send_value(state),
            final(self).chan_wf(),
            final(self).senders() == old(self).senders(),
            final(self).receivers() == old(self).receivers(),
            final(self).disconnected() == old(self).disconnected(),
            final(self).channel().values() == old(self).channel().values(),
            final(self).channel().capacity() == old(self).channel().capacity(),
            final(self).channel().room() == old(self).channel().room(),
            final(self).channel().receivers() == old(self).channel().receivers(),
            final(self).channel().senders().next_key() == old(self).channel().senders().next_key(),
            state matches SendState::Parked(key, _) ==> (!final(self).channel().senders().is_parked(key)
                && !final(self).channel().senders().released().contains(key)),
            !(state matches SendState::Parked(key, _)) ==> final(self).channel() == old(self).channel(),
    {
        match state {
            SendState::Start(value) => value,
            SendState::Parked(key, value) => {
                let chan = self.chan_mut();
                chan.senders.cancel(key);
                value
            },
        }
    }

    /// Ends a receive that is dropped in state `state`: a parked task leaves
    /// the queue, and an unparked one consumes its notification.
    pub fn drop_recv(&mut self, state: RecvState)
        requires
            old(self).chan_wf(),
            state matches RecvState::Parked(key) ==> old(self).channel().receivers().is_live(key),
        ensures
            final(self).chan_wf(),
            final(self).senders() == old(self).senders(),
            final(self).receivers() == old(self).receivers(),
            final(self).disconnected() == old(self).disconnected(),
            final(self).channel().values() == old(self).channel().values(),
            final(self).channel().capacity() == old(self).channel().capacity(),
            final(self).channel().room() == old(self).channel().room(),
            final(self).channel().senders() == old(self).channel().senders(),
            final(self).channel().receivers().next_key() == old(self).channel().receivers().next_key(),
            state matches RecvState::Parked(key) ==> (!final(self).channel().receivers().is_parked(key)
                && !final(self).channel().receivers().released().contains(key)),
            !(state matches RecvState::Parked(key)) ==> final(self).channel() == old(self).channel(),
    {
        if let RecvState::Parked(key) = state {
            let chan = self.chan_mut();
            chan.receivers.cancel(key);
        }
    }

    /// Clones a sender handle.
    pub fn clone_sender(&mut self)
        requires
            old(self).chan_wf(),
            old(self).senders() <= isize::MAX,
            old(self).senders() > 0,
        ensures
            final(self).chan_wf(),
            final(self).senders() == old(self).senders() + 1,
            final(self).receivers() == old(self).receivers(),
            final(self).disconnected() == old(self).disconnected(),
            final(self).channel() == old(self).channel(),
    {
        self.add_sender(isize::MAX as usize);
    }

    /// Clones a receiver handle.
    pub fn clone_receiver(&mut self)
        requires
            old(self).chan_wf(),
            old(self).receivers() <= isize::MAX,
            old(self).receivers() > 0,
        ensures
            final(self).chan_wf(),
            final(self).receivers() == old(self).receivers() + 1,
            final(self).senders() == old(self).senders(),
            final(self).disconnected() == old(self).disconnected(),
            final(self).channel() == old(self).channel(),
    {
        self.add_receiver(isize::MAX as usize);
    }

    /// Drops a sender handle. When it was the last one and receivers remain,
    /// every parked receiver is unparked, and their wakers are answered.
    pub fn drop_sender(&mut self) -> (r: (DropAction, Vec<Option<u64>>))
        requires
            old(self).chan_wf(),
            old(self).senders() > 0,
        ensures
            final(self).disconnected() == (final(self).senders() == 0 || final(self).receivers() == 0),
            final(self).chan_wf(),
            final(self).senders() == old(self).senders() - 1,
            final(self).receivers() == old(self).receivers(),
            r.0 == drop_action(old(self).senders(), old(self).receivers()),
            final(self).channel().values() == old(self).channel().values(),
            final(self).channel().capacity() == old(self).channel().capacity(),
            final(self).channel().room() == old(self).channel().room(),
            final(self).channel().senders() == old(self).channel().senders(),
            r.0 == DropAction::Disconnect ==> unparked_all(old(self).channel().receivers(), final(self).channel().receivers(), r.1@),
            r.0 != DropAction::Disconnect ==> r.1@.len() == 0 && final(self).channel().receivers() == old(self).channel().receivers(),
    {
        let action = self.remove_sender();
        match action {
            DropAction::Disconnect => {
                let chan = self.chan_mut();
                let woken = chan.receivers.unpark_all();
                (action, woken)
            },
            _ => (action, Vec::new()),
        }
    }

    /// Drops a receiver handle. When it was the last one and senders remain,
    /// every parked sender is unparked, and their wakers are answered.
    pub fn drop_receiver(&mut self) -> (r: (DropAction, Vec<Option<u64>>))
        requires
            old(self).chan_wf(),
            old(self).receivers() > 0,
        ensures
            final(self).disconnected() == (final(self).senders() == 0 || final(self).receivers() == 0),
            final(self).chan_wf(),
            final(self).receivers() == old(self).receivers() - 1,
            final(self).senders() == old(self).senders(),
            r.0 == drop_action(old(self).receivers(), old(self).senders()),
            final(self).channel().values() == old(self).channel().values(),
            final(self).channel().capacity() == old(self).channel().capacity(),
            final(self).channel().room() == old(self).channel().room(),
            final(self).channel().receivers() == old(self).channel().receivers(),
            r.0 == DropAction::Disconnect ==> unparked_all(old(self).channel().senders(), final(self).channel().senders(), r.1@),
            r.0 != DropAction::Disconnect ==> r.1@.len() == 0 && final(self).channel().senders() == old(self).channel().senders(),
    {
        let action = self.remove_receiver();
        match action {
            DropAction::Disconnect => {
                let chan = self.chan_mut();
                let woken = chan.senders.unpark_all();
                (action, woken)
            },
            _ => (action, Vec::new()),
        }
    }
}

/// The state shared by the handles of an unbounded channel.
pub struct UnboundedChannel<T> {
    queue: UnboundedQueue<T>,
    receivers: TaskQueue,
}

impl<T> UnboundedChannel<T> {
    /// The values in the channel, oldest first.
    pub closed spec fn values(&self) -> Seq<T> {
        self.queue.view()
    }

    /// The parked receivers.
    pub closed spec fn receivers(&self) -> TaskQueue {
        self.receivers
    }

    /// How many more blocks the queue's block ids have room for.
    pub closed spec fn room(&self) -> int {
        self.queue.room()
    }

    /// Block ids have room for one more block.
    pub open spec fn can_grow(&self) -> bool {
        self.room() >= 1
    }

    /// The queues are well formed and the value queue holds every block it
    /// allocated.
    pub closed spec fn wf(&self) -> bool {
        &&& self.queue.wf()
        &&& self.queue.retired() == 0
        &&& self.receivers.wf()
    }

    /// The receivers' queue has room for one more task.
    pub open spec fn can_park(&self) -> bool {
        &&& self.receivers().next_key() < u64::MAX
        &&& self.receivers().pending() < usize::MAX
    }
}

/// Creates an unbounded channel.
pub fn unbounded<T>() -> (c: Rc<UnboundedChannel<T>>)
    ensures
        c.wf(),
        c.channel().wf(),
        c.channel().values() == Seq::<T>::empty(),
        c.channel().room() == u64::MAX - 1,
        c.channel().receivers().pending() == 0,
        c.channel().receivers().next_key() == 0,
        c.senders() == 1,
        c.receivers() == 1,
        !c.disconnected(),
{
    Rc::new(UnboundedChannel { queue: UnboundedQueue::new(), receivers: TaskQueue::new() })
}

impl<T> Rc<UnboundedChannel<T>> {
    /// The channel and its counts are well formed.
    pub open spec fn unbounded_wf(&self) -> bool {
        self.wf() && self.channel().wf()
    }

    /// Sends `value` unless the receivers are gone. Answers the waker of the
    /// parked receiver that it unparked.
    pub fn send(&mut self, value: T) -> (r: (Result<(), SendError<T>>, Option<u64>))
        requires
            old(self).unbounded_wf(),
            old(self).channel().can_grow(),
        ensures
            final(self).channel().room() >= old(self).channel().room() - 1,
            final(self).unbounded_wf(),
            final(self).senders() == old(self).senders(),
            final(self).receivers() == old(self).receivers(),
            final(self).disconnected() == old(self).disconnected(),
            old(self).disconnected() ==> r == (Err::<(), SendError<T>>(SendError(value)), None::<u64>)
                && final(self).channel() == old(self).channel(),
            !old(self).disconnected() ==> r.0 == Ok::<(), SendError<T>>(()) && final(self).channel().values()
                == old(self).channel().values().push(value) && unparked_one(
                old(self).channel().receivers(),
                final(self).channel().receivers(),
                r.1,
            ),
    {
        if self.is_disconnected() {
            return (Err(SendError(value)), None);
        }
        let chan = self.chan_mut();
        chan.queue.push(value);
        let woken = chan.receivers.unpark_one();
        (Ok(()), woken)
    }

    /// Whether the channel holds no value.
    pub fn is_empty(&mut self) -> (r: bool)
        requires
            old(self).unbounded_wf(),
        ensures
            final(self).unbounded_wf(),
            final(self).senders() == old(self).senders(),
            final(self).receivers() == old(self).receivers(),
            final(self).disconnected() == old(self).disconnected(),
            final(self).channel().values() == old(self).channel().values(),
            final(self).channel().receivers() == old(self).channel().receivers(),
            final(self).channel().room() == old(self).channel().room(),
            r == (old(self).channel().values().len() == 0),
    {
        let chan = self.chan_mut();
        chan.queue.is_empty()
    }

    /// Receives the oldest value unless the channel is empty; an empty channel
    /// whose senders are gone reports `Disconnected`.
    pub fn try_recv(&mut self) -> (r: Result<T, TryRecvError>)
        requires
            old(self).unbounded_wf(),
        ensures
            final(self).unbounded_wf(),
            final(self).senders() == old(self).senders(),
            final(self).receivers() == old(self).receivers(),
            final(self).disconnected() == old(self).disconnected(),
            final(self).channel().receivers() == old(self).channel().receivers(),
            final(self).channel().room() == old(self).channel().room(),
            old(self).channel().values().len() > 0 ==> r == Ok::<T, TryRecvError>(old(self).channel().values()[0])
                && final(self).channel().values() == old(self).channel().values().drop_first(),
            old(self).channel().values().len() == 0 ==> final(self).channel().values() == old(self).channel().values()
                && r == (if old(self).disconnected() {
                Err::<T, TryRecvError>(TryRecvError::Disconnected)
            } else {
                Err::<T, TryRecvError>(TryRecvError::Empty)
            }),
    {
        let disconnected = self.is_disconnected();
        let chan = self.chan_mut();
        match chan.queue.pop() {
            Some(value) => Ok(value),
            None => {
                if disconnected {
                    // a value may have been sent before the disconnection
                    match chan.queue.pop() {
                        Some(value) => Ok(value),
                        None => Err(TryRecvError::Disconnected),
                    }
                } else {
                    Err(TryRecvError::Empty)
                }
            },
        }
    }

    /// Polls a receive in state `state` for the task whose waker is `waker`.
    ///
    /// A parked receive that was not unparked keeps waiting. Otherwise a value
    /// is tried: it is received, or the receive fails when the channel is
    /// empty and the senders are gone, or the receive queues among the
    /// receivers under a new key and waits.
    pub fn poll_recv(&mut self, state: RecvState, waker: u64) -> (r: RecvPoll<T>)
        requires
            old(self).unbounded_wf(),
            old(self).channel().can_park(),
            state matches RecvState::Parked(key) ==> old(self).channel().receivers().is_live(key),
        ensures
            final(self).unbounded_wf(),
            final(self).senders() == old(self).senders(),
            final(self).receivers() == old(self).receivers(),
            final(self).disconnected() == old(self).disconnected(),
            final(self).channel().room() == old(self).channel().room(),
            final(self).channel().receivers().next_key() <= old(self).channel().receivers().next_key() + 1,
            state matches RecvState::Parked(key) ==> (old(self).channel().receivers().is_parked(key)
                ==> r == RecvPoll::<T>::Waiting(RecvState::Parked(key)) && final(self).channel().values()
                == old(self).channel().values()),
            !(state matches RecvState::Parked(key) && old(self).channel().receivers().is_parked(key)) ==> {
                let o = old(self).channel();
                let f = final(self).channel();
                &&& o.values().len() > 0 ==> r == RecvPoll::Done(Ok::<T, RecvError>(o.values()[0]))
                    && f.values() == o.values().drop_first()
                &&& o.values().len() == 0 && old(self).disconnected() ==> r == RecvPoll::<T>::Done(Err(RecvError))
                    && f.values() == o.values()
                &&& o.values().len() == 0 && !old(self).disconnected() ==> r == RecvPoll::<T>::Waiting(
                    RecvState::Parked(o.receivers().next_key())) && f.values() == o.values()
                    && f.receivers().parked() == seq![(o.receivers().next_key(), WAITING, Some(waker))]
                    + o.receivers().parked()
            },
    {
        match state {
            RecvState::Start => {},
            RecvState::Parked(key) => {
                let chan = self.chan_mut();
                match chan.receivers.poll(key, waker) {
                    Poll::Pending => {
                        return RecvPoll::Waiting(RecvState::Parked(key));
                    },
                    Poll::Ready => {},
                }
            },
        }
        let ghost mid = *self;
        loop
            invariant
                *self == mid,
                mid.unbounded_wf(),
                mid.senders() == old(self).senders(),
                mid.receivers() == old(self).receivers(),
                mid.disconnected() == old(self).disconnected(),
                mid.channel().values() == old(self).channel().values(),
                mid.channel().room() == old(self).channel().room(),
                mid.channel().receivers().parked() == old(self).channel().receivers().parked(),
                mid.channel().receivers().pending() == old(self).channel().receivers().pending(),
                mid.channel().receivers().next_key() == old(self).channel().receivers().next_key(),
                mid.channel().can_park(),
                !(state matches RecvState::Parked(key) && old(self).channel().receivers().is_parked(key)),
            decreases 1nat,
        {
            match self.try_recv() {
                Ok(v) => {
                    return RecvPoll::Done(Ok(v));
                },
                Err(TryRecvError::Disconnected) => {
                    return RecvPoll::Done(Err(RecvError));
                },
                Err(TryRecvError::Empty) => {
                    let should_park = !(!self.is_empty() || self.is_disconnected());
                    let chan = self.chan_mut();
                    match chan.receivers.park(should_park) {
                        Some(key) => {
                            assert(chan.receivers.parked()[0].0 == key);
                            let ghost parked = chan.receivers.parked();
                            proof {
                                chan.receivers.tasks_distinct();
                            }
                            let _ = chan.receivers.poll(key, waker);
                            proof {
                                assert forall|i: int| 0 <= i < parked.len() implies #[trigger] chan.receivers.parked()[i]
                                    == (seq![(key, WAITING, Some(waker))] + parked.subrange(1, parked.len() as int))[i] by {
                                    if i > 0 {
                                        assert(parked[0].0 > parked[i].0);
                                    }
                                }
                                assert(chan.receivers.parked() =~= seq![(key, WAITING, Some(waker))]
                                    + parked.subrange(1, parked.len() as int));
                            }
                            return RecvPoll::Waiting(RecvState::Parked(key));
                        },
                        None => {},
                    }
                },
            }
        }
    }

    /// Ends a receive that is dropped in state `state`: a parked task leaves
    /// the queue, and an unparked one consumes its notification.
    pub fn drop_recv(&mut self, state: RecvState)
        requires
            old(self).unbounded_wf(),
            state matches RecvState::Parked(key) ==> old(self).channel().receivers().is_live(key),
        ensures
            final(self).unbounded_wf(),
            final(self).senders() == old(self).senders(),
            final(self).receivers() == old(self).receivers(),
            final(self).disconnected() == old(self).disconnected(),
            final(self).channel().values() == old(self).channel().values(),
            final(self).channel().room() == old(self).channel().room(),
            final(self).channel().receivers().next_key() == old(self).channel().receivers().next_key(),
            state matches RecvState::Parked(key) ==> (!final(self).channel().receivers().is_parked(key)
                && !final(self).channel().receivers().released().contains(key)),
            !(state matches RecvState::Parked(key)) ==> final(self).channel() == old(self).channel(),
    {
        if let RecvState::Parked(key) = state {
            let chan = self.chan_mut();
            chan.receivers.cancel(key);
        }
    }

    /// Clones a sender handle, up to the most senders the queue allows.
    pub fn clone_sender(&mut self)
        requires
            old(self).unbounded_wf(),
            old(self).senders() <= MAX_SENDERS,
            old(self).senders() > 0,
        ensures
            final(self).unbounded_wf(),
            final(self).senders() == old(self).senders() + 1,
            final(self).receivers() == old(self).receivers(),
            final(self).disconnected() == old(self).disconnected(),
            final(self).channel() == old(self).channel(),
    {
        self.add_sender(MAX_SENDERS);
    }

    /// Clones a receiver handle, up to the most receivers the queue allows.
    pub fn clone_receiver(&mut self)
        requires
            old(self).unbounded_wf(),
            old(self).receivers() <= MAX_RECEIVERS,
            old(self).receivers() > 0,
        ensures
            final(self).unbounded_wf(),
            final(self).receivers() == old(self).receivers() + 1,
            final(self).senders() == old(self).senders(),
            final(self).disconnected() == old(self).disconnected(),
            final(self).channel() == old(self).channel(),
    {
        self.add_receiver(MAX_RECEIVERS);
    }

    /// Drops a sender handle. When it was the last one and receivers remain,
    /// every parked receiver is unparked, and their wakers are answered.
    pub fn drop_sender(&mut self) -> (r: (DropAction, Vec<Option<u64>>))
        requires
            old(self).unbounded_wf(),
            old(self).senders() > 0,
        ensures
            final(self).disconnected() == (final(self).senders() == 0 || final(self).receivers() == 0),
            final(self).unbounded_wf(),
            final(self).senders() == old(self).senders() - 1,
            final(self).receivers() == old(self).receivers(),
            r.0 == drop_action(old(self).senders(), old(self).receivers()),
            final(self).channel().values() == old(self).channel().values(),
            r.0 == DropAction::Disconnect ==> unparked_all(old(self).channel().receivers(), final(self).channel().receivers(), r.1@),
            r.0 != DropAction::Disconnect ==> r.1@.len() == 0 && final(self).channel() == old(self).channel(),
    {
        let action = self.remove_sender();
        match action {
            DropAction::Disconnect => {
                let chan = self.chan_mut();
                let woken = chan.receivers.unpark_all();
                (action, woken)
            },
            _ => (action, Vec::new()),
        }
    }

    /// Drops a receiver handle.
    pub fn drop_receiver(&mut self) -> (r: DropAction)
        requires
            old(self).unbounded_wf(),
            old(self).receivers() > 0,
        ensures
            final(self).disconnected() == (final(self).senders() == 0 || final(self).receivers() == 0),
            final(self).unbounded_wf(),
            final(self).receivers() == old(self).receivers() - 1,
            final(self).senders() == old(self).senders(),
            r == drop_action(old(self).receivers(), old(self).senders()),
            final(self).channel() == old(self).channel(),
    {
        self.remove_receiver()
    }
}

} // verus!
