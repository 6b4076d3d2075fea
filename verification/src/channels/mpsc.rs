//! Multi-producer single-consumer channels.
//!
//! A bounded channel is a bounded queue, the parked receiver and the parked
//! senders; an unbounded channel is an unbounded queue and the parked
//! receiver. Each operation answers the wakers of the tasks on the other
//! side that it woke. A send that waits goes through the same states as a
//! send on a multi-producer multi-consumer channel.
pub mod unbounded;

use crate::channels::mpmc::{send_value, SendPoll, SendState};
use crate::error::{RecvError, SendError, TryRecvError, TrySendError};
use crate::mpsc::bounded::queue::Queue;
use crate::raw::parking::queue::{unparked_all, unparked_one, TaskQueue, WAITING};
use crate::raw::parking::task::{lemma_registrable_closed, Task, PARKED, UNPARKED};
use crate::raw::rc::{drop_action, DropAction, Rc};
use crate::task::{notified_state, notify_woken, Poll};
use vstd::prelude::*;

verus! {

/// The state shared by the handles of a bounded channel.
pub struct Channel<T> {
    queue: Queue<T>,
    receiver: Task,
    senders: TaskQueue,
}

impl<T> Channel<T> {
    /// The values in the channel, oldest first.
    pub closed spec fn values(&self) -> Seq<T> {
        self.queue.view()
    }

    /// The number of values the channel holds at most.
    pub closed spec fn capacity(&self) -> nat {
        self.queue.capacity()
    }

    /// How many more sends the queue's counter has room for.
    pub closed spec fn room(&self) -> int {
        self.queue.room()
    }

    /// The parked receiver.
    pub closed spec fn receiver(&self) -> Task {
        self.receiver
    }

    /// The parked senders.
    pub closed spec fn senders(&self) -> TaskQueue {
        self.senders
    }

    /// The queues are well formed and the receiver is at rest: parked, or
    /// holding its unpark token.
    pub closed spec fn wf(&self) -> bool {
        &&& self.queue.wf()
        &&& self.senders.wf()
        &&& (self.receiver.state() == PARKED || self.receiver.state() == UNPARKED)
    }

    /// A channel holds at most its capacity.
    pub proof fn lemma_len(&self)
        requires
            self.wf(),
        ensures
            self.values().len() <= self.capacity(),
    {
        self.queue.lemma_len();
    }

    /// The senders' queue has room for one more task.
    pub open spec fn can_park(&self) -> bool {
        &&& self.senders().next_key() < u64::MAX
        &&& self.senders().pending() < usize::MAX
    }
}

/// Creates a bounded channel with room for `capacity` values, rounded up to a
/// power of two.
pub fn bounded<T>(capacity: usize) -> (c: Rc<Channel<T>>)
    requires
        capacity <= isize::MAX / 2 + 1,
    ensures
        c.wf(),
        c.channel().wf(),
        c.channel().values() == Seq::<T>::empty(),
        c.channel().capacity() >= capacity,
        c.channel().capacity() == crate::raw::util::ceil_pow2(capacity as int),
        c.channel().room() == usize::MAX - 1,
        c.senders() == 1,
        c.receivers() == 1,
        !c.disconnected(),
        c.channel().receiver().state() == PARKED,
        c.channel().receiver().waker() == None::<u64>,
        c.channel().senders().pending() == 0,
        c.channel().senders().next_key() == 0,
{
    Rc::new(Channel { queue: Queue::new(capacity), receiver: Task::new(), senders: TaskQueue::new() })
}

/// Unparks the receiver: the state it is left in and the waker to wake.
proof fn lemma_unpark_at_rest(s: u8)
    requires
        s == PARKED || s == UNPARKED,
    ensures
        notified_state(s) == UNPARKED,
{
    crate::raw::util::lemma_idle_flags();
}

impl<T> Rc<Channel<T>> {
    /// The channel and its counts are well formed.
    pub open spec fn mpsc_wf(&self) -> bool {
        self.wf() && self.channel().wf()
    }

    /// Sends `value` unless the channel is full or disconnected. Answers the
    /// waker of the receiver to wake.
    pub fn try_send(&mut self, value: T) -> (r: (Result<(), TrySendError<T>>, Option<u64>))
        requires
            old(self).mpsc_wf(),
            old(self).channel().room() >= 1,
        ensures
            final(self).mpsc_wf(),
            final(self).senders() == old(self).senders(),
            final(self).receivers() == old(self).receivers(),
            final(self).disconnected() == old(self).disconnected(),
            final(self).channel().capacity() == old(self).channel().capacity(),
            final(self).channel().room() >= old(self).channel().room() - 1,
            final(self).channel().senders() == old(self).channel().senders(),
            old(self).disconnected() ==> r == (Err::<(), TrySendError<T>>(TrySendError::Disconnected(value)), None::<u64>)
                && final(self).channel() == old(self).channel(),
            !old(self).disconnected() && old(self).channel().values().len() < old(self).channel().capacity() ==> r.0
                == Ok::<(), TrySendError<T>>(()) && final(self).channel().values() == old(self).channel().values().push(value)
                && r.1 == notify_woken(old(self).channel().receiver().state(), old(self).channel().receiver().waker())
                && final(self).channel().receiver().state() == UNPARKED
                && final(self).channel().receiver().waker() == old(self).channel().receiver().waker(),
            !old(self).disconnected() && old(self).channel().values().len() == old(self).channel().capacity() ==> r
                == (Err::<(), TrySendError<T>>(TrySendError::Full(value)), None::<u64>) && final(self).channel()
                == old(self).channel(),
    {
        proof {
            self.channel().lemma_len();
        }
        if self.is_disconnected() {
            return (Err(TrySendError::Disconnected(value)), None);
        }
        let chan = self.chan_mut();
        proof {
            chan.queue.lemma_room();
            lemma_unpark_at_rest(chan.receiver.state());
        }
        match chan.queue.push(value) {
            Ok(()) => {
                let woken = chan.receiver.unpark();
                (Ok(()), woken)
            },
            Err(value) => (Err(TrySendError::Full(value)), None),
        }
    }

    /// Whether a value can be sent now.
    pub fn can_push(&self) -> (r: bool)
        requires
            self.mpsc_wf(),
        ensures
            r == (self.channel().values().len() < self.channel().capacity()),
    {
        self.chan().queue.can_push()
    }

    /// Polls a send in state `state` for the task whose waker is `waker`.
    ///
    /// A parked send that was not notified keeps waiting. Otherwise the value
    /// is tried: it is sent, or comes back when the receiver is gone, or the
    /// send parks among the senders under a new key and waits. Answers the
    /// waker of the receiver to wake.
    pub fn poll_send(&mut self, state: SendState<T>, waker: u64) -> (r: (SendPoll<T>, Option<u64>))
        requires
            old(self).mpsc_wf(),
            old(self).channel().room() >= 1,
            old(self).channel().can_park(),
            state matches SendState::Parked(key, _) ==> old(self).channel().senders().is_live(key),
        ensures
            final(self).mpsc_wf(),
            final(self).senders() == old(self).senders(),
            final(self).receivers() == old(self).receivers(),
            final(self).disconnected() == old(self).disconnected(),
            final(self).channel().capacity() == old(self).channel().capacity(),
            final(self).channel().room() >= old(self).channel().room() - 1,
            final(self).channel().senders().next_key() <= old(self).channel().senders().next_key() + 1,
            state matches SendState::Parked(key, v) ==> (old(self).channel().senders().is_parked(key)
                ==> r == (SendPoll::Waiting(SendState::Parked(key, v)), None::<u64>) && final(self).channel().values()
                == old(self).channel().values() && final(self).channel().receiver() == old(self).channel().receiver()),
            !(state matches SendState::Parked(key, _) && old(self).channel().senders().is_parked(key)) ==> {
                let v = send_value(state);
                let o = old(self).channel();
                let f = final(self).channel();
                &&& old(self).disconnected() ==> r == (SendPoll::Done(Err(SendError(v))), None::<u64>)
                    && f.values() == o.values() && f.receiver() == o.receiver()
                &&& !old(self).disconnected() && o.values().len() < o.capacity() ==> r.0 == SendPoll::<T>::Done(Ok(()))
                    && f.values() == o.values().push(v) && r.1 == notify_woken(o.receiver().state(), o.receiver().waker())
                    && f.receiver().state() == UNPARKED
                &&& !old(self).disconnected() && o.values().len() == o.capacity() ==> r == (SendPoll::Waiting(
                    SendState::Parked(o.senders().next_key(), v)), None::<u64>) && f.values() == o.values()
                    && f.receiver() == o.receiver() && f.senders().parked() == seq![
                    (o.senders().next_key(), WAITING, Some(waker))] + o.senders().parked()
            },
    {
        let mut value = match state {
            SendState::Start(v) => v,
            SendState::Parked(key, v) => {
                let chan = self.chan_mut();
                match chan.senders.poll(key, waker) {
                    Poll::Pending => {
                        return (SendPoll::Waiting(SendState::Parked(key, v)), None);
                    },
                    Poll::Ready => v,
                }
            },
        };
        let ghost mid = *self;
        proof {
            self.channel().lemma_len();
        }
        loop
            invariant
                *self == mid,
                value == send_value(state),
                mid.mpsc_wf(),
                mid.channel().values().len() <= mid.channel().capacity(),
                mid.senders() == old(self).senders(),
                mid.receivers() == old(self).receivers(),
                mid.disconnected() == old(self).disconnected(),
                mid.channel().values() == old(self).channel().values(),
                mid.channel().capacity() == old(self).channel().capacity(),
                mid.channel().room() == old(self).channel().room(),
                mid.channel().room() >= 1,
                mid.channel().receiver() == old(self).channel().receiver(),
                mid.channel().senders().parked() == old(self).channel().senders().parked(),
                mid.channel().senders().pending() == old(self).channel().senders().pending(),
                mid.channel().senders().next_key() == old(self).channel().senders().next_key(),
                mid.channel().can_park(),
                !(state matches SendState::Parked(key, _) && old(self).channel().senders().is_parked(key)),
            decreases 1nat,
        {
            match self.try_send(value) {
                (Ok(()), woken) => {
                    return (SendPoll::Done(Ok(())), woken);
                },
                (Err(TrySendError::Disconnected(v)), woken) => {
                    return (SendPoll::Done(Err(SendError(v))), woken);
                },
                (Err(TrySendError::Full(v)), _) => {
                    let should_park = !(self.can_push() || self.is_disconnected());
                    let chan = self.chan_mut();
                    match chan.senders.park(should_park) {
                        Some(key) => {
                            assert(chan.senders.parked()[0].0 == key);
                            let ghost parked = chan.senders.parked();
                            proof {
                                chan.senders.tasks_distinct();
                            }
                            let _ = chan.senders.poll(key, waker);
                            proof {
                                assert forall|i: int| 0 <= i < parked.len() implies #[trigger] chan.senders.parked()[i]
                                    == (seq![(key, WAITING, Some(waker))] + parked.subrange(1, parked.len() as int))[i] by {
                                    if i > 0 {
                                        assert(parked[0].0 > parked[i].0);
                                    }
                                }
                                assert(chan.senders.parked() =~= seq![(key, WAITING, Some(waker))]
                                    + parked.subrange(1, parked.len() as int));
                            }
                            return (SendPoll::Waiting(SendState::Parked(key, v)), None);
                        },
                        None => {
                            value = v;
                        },
                    }
                },
            }
        }
    }

    /// Receives the oldest value unless the channel is empty; an empty channel
    /// whose senders are gone reports `Disconnected`. Answers the waker of a
    /// parked sender to wake.
    pub fn try_recv(&mut self) -> (r: (Result<T, TryRecvError>, Option<u64>))
        requires
            old(self).mpsc_wf(),
        ensures
            final(self).mpsc_wf(),
            final(self).senders() == old(self).senders(),
            final(self).receivers() == old(self).receivers(),
            final(self).disconnected() == old(self).disconnected(),
            final(self).channel().capacity() == old(self).channel().capacity(),
            final(self).channel().room() == old(self).channel().room(),
            final(self).channel().receiver() == old(self).channel().receiver(),
            old(self).channel().values().len() > 0 ==> r.0 == Ok::<T, TryRecvError>(old(self).channel().values()[0])
                && final(self).channel().values() == old(self).channel().values().drop_first()
                && unparked_one(old(self).channel().senders(), final(self).channel().senders(), r.1),
            old(self).channel().values().len() == 0 ==> r.1.is_none() && final(self).channel() == old(self).channel()
                && r.0 == (if old(self).disconnected() {
                Err::<T, TryRecvError>(TryRecvError::Disconnected)
            } else {
                Err::<T, TryRecvError>(TryRecvError::Empty)
            }),
    {
        let disconnected = self.is_disconnected();
        let chan = self.chan_mut();
        match chan.queue.pop() {
            Some(value) => {
                let woken = chan.senders.unpark_one();
                (Ok(value), woken)
            },
            None => {
                if disconnected {
                    // a value may have been sent before the disconnection
                    match chan.queue.pop() {
                        Some(value) => {
                            let woken = chan.senders.unpark_one();
                            (Ok(value), woken)
                        },
                        None => (Err(TryRecvError::Disconnected), None),
                    }
                } else {
                    (Err(TryRecvError::Empty), None)
                }
            },
        }
    }

    /// Polls for a value for the receiving task whose waker is `waker`: a
    /// value, or `RecvError` once the channel is empty and the senders are
    /// gone, or `None` with the receiver parked on the waker. Answers the
    /// waker of a parked sender to wake.
    pub fn poll_recv(&mut self, waker: u64) -> (r: (Option<Result<T, RecvError>>, Option<u64>))
        requires
            old(self).mpsc_wf(),
        ensures
            final(self).mpsc_wf(),
            final(self).senders() == old(self).senders(),
            final(self).receivers() == old(self).receivers(),
            final(self).disconnected() == old(self).disconnected(),
            final(self).channel().capacity() == old(self).channel().capacity(),
            final(self).channel().room() == old(self).channel().room(),
            old(self).channel().values().len() > 0 ==> r.0 == Some(Ok::<T, RecvError>(old(self).channel().values()[0]))
                && final(self).channel().values() == old(self).channel().values().drop_first()
                && unparked_one(old(self).channel().senders(), final(self).channel().senders(), r.1),
            old(self).channel().values().len() == 0 && old(self).disconnected() ==> r == (Some(Err::<T, RecvError>(RecvError)), None::<u64>)
                && final(self).channel().values() == old(self).channel().values()
                && final(self).channel().senders() == old(self).channel().senders(),
            old(self).channel().values().len() == 0 && !old(self).disconnected() ==> r == (None::<Result<T, RecvError>>, None::<u64>)
                && final(self).channel().values() == old(self).channel().values()
                && final(self).channel().senders() == old(self).channel().senders()
                && final(self).channel().receiver().state() == PARKED
                && final(self).channel().receiver().waker() == Some(waker),
    {
        loop
            invariant
                self.mpsc_wf(),
                self.senders() == old(self).senders(),
                self.receivers() == old(self).receivers(),
                self.disconnected() == old(self).disconnected(),
                self.channel().values() == old(self).channel().values(),
                self.channel().senders() == old(self).channel().senders(),
                self.channel().capacity() == old(self).channel().capacity(),
                self.channel().room() == old(self).channel().room(),
            decreases (if self.channel().receiver().state() == UNPARKED {
                2nat
            } else if self.channel().receiver().waker() != Some(waker) {
                1nat
            } else {
                0nat
            }),
        {
            match self.try_recv() {
                (Ok(value), woken) => {
                    return (Some(Ok(value)), woken);
                },
                (Err(TryRecvError::Disconnected), _) => {
                    return (Some(Err(RecvError)), None);
                },
                (Err(TryRecvError::Empty), _) => {},
            }
            let chan = self.chan_mut();
            proof {
                crate::raw::util::lemma_idle_flags();
                lemma_registrable_closed(chan.receiver.state());
            }
            match chan.receiver.register(waker) {
                Poll::Pending => {
                    return (None, None);
                },
                Poll::Ready => {
                    crate::raw::util::spin_hint();
                },
            }
        }
    }

    /// Whether the channel holds no value.
    pub fn is_empty(&self) -> (r: bool)
        requires
            self.mpsc_wf(),
        ensures
            r == (self.channel().values().len() == 0),
    {
        self.chan().queue.is_empty()
    }

    /// Ends a send that is dropped in state `state`: a parked task leaves
    /// the queue, and an unparked one consumes its notification. Answers the
    /// value that the send carried.
    pub fn drop_send(&mut self, state: SendState<T>) -> (v: T)
        requires
            old(self).mpsc_wf(),
            state matches SendState::Parked(key, _) ==> old(self).channel().senders().is_live(key),
        ensures
            v == send_value(state),
            final(self).mpsc_wf(),
            final(self).senders() == old(self).senders(),
            final(self).receivers() == old(self).receivers(),
            final(self).disconnected() == old(self).disconnected(),
            final(self).channel().values() == old(self).channel().values(),
            final(self).channel().capacity() == old(self).channel().capacity(),
            final(self).channel().room() == old(self).channel().room(),
            final(self).channel().receiver() == old(self).channel().receiver(),
            final(self).channel().senders().next_key() == old(self).channel().senders().next_key(),
            state matches SendState::Parked(key, _) ==> (!final(self).channel().senders().is_parked(key)
                && !final(self).channel().senders().released().contains(key)),
            !(state matches SendState::Parked(key, _)) ==> final(self).channel() == old(self).channel(),
    {
        match state {
            SendState::Start(value) => value,
            SendState::Parked(key, value) => {
                let chan = self.chan_mut();
                chan.senders.cancel(key);
                value
            },
        }
    }

    /// Clones a sender handle.
    pub fn clone_sender(&mut self)
        requires
            old(self).mpsc_wf(),
            old(self).senders() <= isize::MAX,
            old(self).senders() > 0,
        ensures
            final(self).mpsc_wf(),
            final(self).senders() == old(self).senders() + 1,
            final(self).receivers() == old(self).receivers(),
            final(self).disconnected() == old(self).disconnected(),
            final(self).channel() == old(self).channel(),
    {
        self.add_sender(isize::MAX as usize);
    }

    /// Drops a sender handle. When it was the last one and the receiver
    /// remains, the receiver is unparked: answers its waker to wake.
    pub fn drop_sender(&mut self) -> (r: (DropAction, Option<u64>))
        requires
            old(self).mpsc_wf(),
            old(self).senders() > 0,
        ensures
            final(self).disconnected() == (final(self).senders() == 0 || final(self).receivers() == 0),
            final(self).mpsc_wf(),
            final(self).senders() == old(self).senders() - 1,
            final(self).receivers() == old(self).receivers(),
            r.0 == drop_action(old(self).senders(), old(self).receivers()),
            final(self).channel().values() == old(self).channel().values(),
            final(self).channel().senders() == old(self).channel().senders(),
            r.0 == DropAction::Disconnect ==> r.1 == notify_woken(
                old(self).channel().receiver().state(),
                old(self).channel().receiver().waker(),
            ) && final(self).channel().receiver().state() == UNPARKED,
            r.0 != DropAction::Disconnect ==> r.1.is_none() && final(self).channel() == old(self).channel(),
    {
        let action = self.remove_sender();
        match action {
            DropAction::Disconnect => {
                let chan = self.chan_mut();
                proof {
                    lemma_unpark_at_rest(chan.receiver.state());
                }
                let woken = chan.receiver.unpark();
                (action, woken)
            },
            _ => (action, None),
        }
    }

    /// Drops the receiver handle. When senders remain, every parked sender is
    /// unparked, and their wakers are answered.
    pub fn drop_receiver(&mut self) -> (r: (DropAction, Vec<Option<u64>>))
        requires
            old(self).mpsc_wf(),
            old(self).receivers() > 0,
        ensures
            final(self).disconnected() == (final(self).senders() == 0 || final(self).receivers() == 0),
            final(self).mpsc_wf(),
            final(self).receivers() == old(self).receivers() - 1,
            final(self).senders() == old(self).senders(),
            r.0 == drop_action(old(self).receivers(), old(self).senders()),
            final(self).channel().values() == old(self).channel().values(),
            final(self).channel().receiver() == old(self).channel().receiver(),
            r.0 == DropAction::Disconnect ==> unparked_all(old(self).channel().senders(), final(self).channel().senders(), r.1@),
            r.0 != DropAction::Disconnect ==> r.1@.len() == 0 && final(self).channel() == old(self).channel(),
    {
        let action = self.remove_receiver();
        match action {
            DropAction::Disconnect => {
                let chan = self.chan_mut();
                let woken = chan.senders.unpark_all();
                (action, woken)
            },
            _ => (action, Vec::new()),
        }
    }
}


/// The state shared by the handles of an unbounded channel.
pub struct UnboundedChannel<T> {
    queue: unbounded::Queue<T>,
    receiver: Task,
}

impl<T> UnboundedChannel<T> {
    /// The values in the channel, oldest first.
    pub closed spec fn values(&self) -> Seq<T> {
        self.queue.view()
    }

    /// The parked receiver.
    pub closed spec fn receiver(&self) -> Task {
        self.receiver
    }

    /// How many more blocks the queue's block ids have room for.
    pub closed spec fn room(&self) -> int {
        self.queue.room()
    }

    /// Block ids have room for one more block.
    pub open spec fn can_grow(&self) -> bool {
        self.room() >= 1
    }

    /// The queue is well formed and holds every block it allocated, and the
    /// receiver is at rest.
    pub closed spec fn wf(&self) -> bool {
        &&& self.queue.wf()
        &&& self.queue.retired() == 0
        &&& (self.receiver.state() == PARKED || self.receiver.state() == UNPARKED)
    }
}

/// Creates an unbounded channel.
pub fn unbounded<T>() -> (c: Rc<UnboundedChannel<T>>)
    ensures
        c.wf(),
        c.channel().wf(),
        c.channel().values() == Seq::<T>::empty(),
        c.channel().room() == u64::MAX - 1,
        c.senders() == 1,
        c.receivers() == 1,
        !c.disconnected(),
        c.channel().receiver().state() == PARKED,
        c.channel().receiver().waker() == None::<u64>,
{
    Rc::new(UnboundedChannel { queue: unbounded::Queue::new(), receiver: Task::new() })
}

impl<T> Rc<UnboundedChannel<T>> {
    /// The channel and its counts are well formed.
    pub open spec fn unbounded_wf(&self) -> bool {
        self.wf() && self.channel().wf()
    }

    /// Sends `value` unless the receiver is gone. Answers the waker of the
    /// receiver to wake.
    pub fn send(&mut self, value: T) -> (r: (Result<(), SendError<T>>, Option<u64>))
        requires
            old(self).unbounded_wf(),
            old(self).channel().can_grow(),
        ensures
            final(self).channel().room() >= old(self).channel().room() - 1,
            final(self).unbounded_wf(),
            final(self).senders() == old(self).senders(),
            final(self).receivers() == old(self).receivers(),
            final(self).disconnected() == old(self).disconnected(),
            old(self).disconnected() ==> r == (Err::<(), SendError<T>>(SendError(value)), None::<u64>)
                && final(self).channel() == old(self).channel(),
            !old(self).disconnected() ==> r.0 == Ok::<(), SendError<T>>(()) && final(self).channel().values()
                == old(self).channel().values().push(value) && r.1 == notify_woken(
                old(self).channel().receiver().state(),
                old(self).channel().receiver().waker(),
            ) && final(self).channel().receiver().state() == UNPARKED
                && final(self).channel().receiver().waker() == old(self).channel().receiver().waker(),
    {
        if self.is_disconnected() {
            return (Err(SendError(value)), None);
        }
        let chan = self.chan_mut();
        chan.queue.push(value);
        proof {
            lemma_unpark_at_rest(chan.receiver.state());
        }
        let woken = chan.receiver.unpark();
        (Ok(()), woken)
    }

    /// Receives the oldest value unless the channel is empty; an empty channel
    /// whose senders are gone reports `Disconnected`.
    pub fn try_recv(&mut self) -> (r: Result<T, TryRecvError>)
        requires
            old(self).unbounded_wf(),
        ensures
            final(self).unbounded_wf(),
            final(self).senders() == old(self).senders(),
            final(self).receivers() == old(self).receivers(),
            final(self).disconnected() == old(self).disconnected(),
            final(self).channel().receiver() == old(self).channel().receiver(),
            final(self).channel().room() == old(self).channel().room(),
            old(self).channel().values().len() > 0 ==> r == Ok::<T, TryRecvError>(old(self).channel().values()[0])
                && final(self).channel().values() == old(self).channel().values().drop_first(),
            old(self).channel().values().len() == 0 ==> final(self).channel().values() == old(self).channel().values()
                && r == (if old(self).disconnected() {
                Err::<T, TryRecvError>(TryRecvError::Disconnected)
            } else {
                Err::<T, TryRecvError>(TryRecvError::Empty)
            }),
    {
        let disconnected = self.is_disconnected();
        let chan = self.chan_mut();
        match chan.queue.pop() {
            Some(value) => Ok(value),
            None => {
                if disconnected {
                    // a value may have been sent before the disconnection
                    match chan.queue.pop() {
                        Some(value) => Ok(value),
                        None => Err(TryRecvError::Disconnected),
                    }
                } else {
                    Err(TryRecvError::Empty)
                }
            },
        }
    }

    /// Polls for a value for the receiving task whose waker is `waker`: a
    /// value, or `RecvError` once the channel is empty and the senders are
    /// gone, or `None` with the receiver parked on the waker.
    pub fn poll_recv(&mut self, waker: u64) -> (r: Option<Result<T, RecvError>>)
        requires
            old(self).unbounded_wf(),
        ensures
            final(self).unbounded_wf(),
            final(self).senders() == old(self).senders(),
            final(self).receivers() == old(self).receivers(),
            final(self).disconnected() == old(self).disconnected(),
            final(self).channel().room() == old(self).channel().room(),
            old(self).channel().values().len() > 0 ==> r == Some(Ok::<T, RecvError>(old(self).channel().values()[0]))
                && final(self).channel().values() == old(self).channel().values().drop_first(),
            old(self).channel().values().len() == 0 && old(self).disconnected() ==> r == Some(Err::<T, RecvError>(RecvError))
                && final(self).channel().values() == old(self).channel().values(),
            old(self).channel().values().len() == 0 && !old(self).disconnected() ==> r == None::<Result<T, RecvError>>
                && final(self).channel().values() == old(self).channel().values()
                && final(self).channel().receiver().state() == PARKED
                && final(self).channel().receiver().waker() == Some(waker),
    {
        loop
            invariant
                self.unbounded_wf(),
                self.senders() == old(self).senders(),
                self.receivers() == old(self).receivers(),
                self.disconnected() == old(self).disconnected(),
                self.channel().values() == old(self).channel().values(),
                self.channel().room() == old(self).channel().room(),
            decreases (if self.channel().receiver().state() == UNPARKED {
                2nat
            } else if self.channel().receiver().waker() != Some(waker) {
                1nat
            } else {
                0nat
            }),
        {
            match self.try_recv() {
                Ok(value) => {
                    return Some(Ok(value));
                },
                Err(TryRecvError::Disconnected) => {
                    return Some(Err(RecvError));
                },
                Err(TryRecvError::Empty) => {},
            }
            let chan = self.chan_mut();
            proof {
                crate::raw::util::lemma_idle_flags();
                lemma_registrable_closed(chan.receiver.state());
            }
            match chan.receiver.register(waker) {
                Poll::Pending => {
                    return None;
                },
                Poll::Ready => {
                    crate::raw::util::spin_hint();
                },
            }
        }
    }

    /// Clones a sender handle, up to the most senders the queue allows.
    pub fn clone_sender(&mut self)
        requires
            old(self).unbounded_wf(),
            old(self).senders() <= unbounded::MAX_SENDERS,
            old(self).senders() > 0,
        ensures
            final(self).unbounded_wf(),
            final(self).senders() == old(self).senders() + 1,
            final(self).receivers() == old(self).receivers(),
            final(self).disconnected() == old(self).disconnected(),
            final(self).channel() == old(self).channel(),
    {
        self.add_sender(unbounded::MAX_SENDERS);
    }

    /// Drops a sender handle. When it was the last one and the receiver
    /// remains, the receiver is unparked: answers its waker to wake.
    pub fn drop_sender(&mut self) -> (r: (DropAction, Option<u64>))
        requires
            old(self).unbounded_wf(),
            old(self).senders() > 0,
        ensures
            final(self).disconnected() == (final(self).senders() == 0 || final(self).receivers() == 0),
            final(self).unbounded_wf(),
            final(self).senders() == old(self).senders() - 1,
            final(self).receivers() == old(self).receivers(),
            r.0 == drop_action(old(self).senders(), old(self).receivers()),
            final(self).channel().values() == old(self).channel().values(),
            r.0 == DropAction::Disconnect ==> r.1 == notify_woken(
                old(self).channel().receiver().state(),
                old(self).channel().receiver().waker(),
            ) && final(self).channel().receiver().state() == UNPARKED,
            r.0 != DropAction::Disconnect ==> r.1.is_none() && final(self).channel() == old(self).channel(),
    {
        let action = self.remove_sender();
        match action {
            DropAction::Disconnect => {
                let chan = self.chan_mut();
                proof {
                    lemma_unpark_at_rest(chan.receiver.state());
                }
                let woken = chan.receiver.unpark();
                (action, woken)
            },
            _ => (action, None),
        }
    }

    /// Drops the receiver handle.
    pub fn drop_receiver(&mut self) -> (r: DropAction)
        requires
            old(self).unbounded_wf(),
            old(self).receivers() > 0,
        ensures
            final(self).disconnected() == (final(self).senders() == 0 || final(self).receivers() == 0),
            final(self).unbounded_wf(),
            final(self).receivers() == old(self).receivers() - 1,
            final(self).senders() == old(self).senders(),
            r == drop_action(old(self).receivers(), old(self).senders()),
            final(self).channel() == old(self).channel(),
    {
        self.remove_receiver()
    }
}

} // verus!
