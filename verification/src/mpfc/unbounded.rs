//! Unbounded multi-producer channels whose receivers wait in a FIFO queue.
//!
//! The channel is an unbounded queue of values and the queue of waiting
//! receivers. A send wakes the oldest waiting receiver. A receive that has to
//! wait is a state machine that the caller drives: each poll takes its state
//! and the waker of the polling task, and answers the result or the next
//! state.
use crate::channels::mpmc::{RecvPoll, RecvState};
use crate::error::{RecvError, SendError, TryRecvError};
use crate::mpmc::unbounded::queue::{Queue, MAX_RECEIVERS, MAX_SENDERS};
use crate::raw::rc::{drop_action, DropAction, Rc};
use crate::task::Poll;
use crate::wait::mpmc::{woke_all, woke_one, WaitQueue, WAITING};
use vstd::prelude::*;

verus! {

/// The state shared by the handles of a channel.
pub struct Channel<T> {
    queue: Queue<T>,
    receivers: WaitQueue,
}

impl<T> Channel<T> {
    /// The values in the channel, oldest first.
    pub closed spec fn values(&self) -> Seq<T> {
        self.queue.view()
    }

    /// The waiting receivers.
    pub closed spec fn receivers(&self) -> WaitQueue {
        self.receivers
    }

    /// How many more blocks the queue's block ids have room for.
    pub closed spec fn room(&self) -> int {
        self.queue.room()
    }

    /// Block ids have room for one more block.
    pub open spec fn can_grow(&self) -> bool {
        self.room() >= 1
    }

    /// The queues are well formed and the value queue holds every block it
    /// allocated.
    pub closed spec fn wf(&self) -> bool {
        &&& self.queue.wf()
        &&& self.queue.retired() == 0
        &&& self.receivers.wf()
    }

    /// The receivers' queue has room for one more task.
    pub open spec fn can_park(&self) -> bool {
        &&& self.receivers().next_key() < u64::MAX
        &&& self.receivers().pending() < usize::MAX
    }
}

/// Creates an unbounded channel.
pub fn new<T>() -> (c: Rc<Channel<T>>)
    ensures
        c.wf(),
        c.channel().wf(),
        c.channel().values() == Seq::<T>::empty(),
        c.channel().room() == u64::MAX - 1,
        c.channel().receivers().pending() == 0,
        c.channel().receivers().next_key() == 0,
        c.senders() == 1,
        c.receivers() == 1,
        !c.disconnected(),
{
    Rc::new(Channel { queue: Queue::new(), receivers: WaitQueue::new() })
}

impl<T> Rc<Channel<T>> {
    /// The channel and its counts are well formed.
    pub open spec fn mpfc_wf(&self) -> bool {
        self.wf() && self.channel().wf()
    }

    /// Sends `value` unless the receivers are gone. Answers the waker of the
    /// receiver that it woke.
    pub fn send(&mut self, value: T) -> (r: (Result<(), SendError<T>>, Option<u64>))
        requires
            old(self).mpfc_wf(),
            old(self).channel().can_grow(),
        ensures
            final(self).channel().room() >= old(self).channel().room() - 1,
            final(self).mpfc_wf(),
            final(self).senders() == old(self).senders(),
            final(self).receivers() == old(self).receivers(),
            final(self).disconnected() == old(self).disconnected(),
            old(self).disconnected() ==> r == (Err::<(), SendError<T>>(SendError(value)), None::<u64>)
                && final(self).channel() == old(self).channel(),
            !old(self).disconnected() ==> r.0 == Ok::<(), SendError<T>>(()) && final(self).channel().values()
                == old(self).channel().values().push(value) && woke_one(
                old(self).channel().receivers(),
                final(self).channel().receivers(),
                r.1,
            ),
    {
        if self.is_disconnected() {
            return (Err(SendError(value)), None);
        }
        let chan = self.chan_mut();
        chan.queue.push(value);
        let woken = chan.receivers.wake();
        (Ok(()), woken)
    }

    /// Whether the channel holds no value.
    pub fn is_empty(&mut self) -> (r: bool)
        requires
            old(self).mpfc_wf(),
        ensures
            final(self).mpfc_wf(),
            final(self).senders() == old(self).senders(),
            final(self).receivers() == old(self).receivers(),
            final(self).disconnected() == old(self).disconnected(),
            final(self).channel().values() == old(self).channel().values(),
            final(self).channel().receivers() == old(self).channel().receivers(),
            final(self).channel().room() == old(self).channel().room(),
            r == (old(self).channel().values().len() == 0),
    {
        let chan = self.chan_mut();
        chan.queue.is_empty()
    }

    /// Receives the oldest value unless the channel is empty; an empty channel
    /// whose senders are gone reports `Disconnected`.
    pub fn try_recv(&mut self) -> (r: Result<T, TryRecvError>)
        requires
            old(self).mpfc_wf(),
        ensures
            final(self).mpfc_wf(),
            final(self).senders() == old(self).senders(),
            final(self).receivers() == old(self).receivers(),
            final(self).disconnected() == old(self).disconnected(),
            final(self).channel().receivers() == old(self).channel().receivers(),
            final(self).channel().room() == old(self).channel().room(),
            old(self).channel().values().len() > 0 ==> r == Ok::<T, TryRecvError>(old(self).channel().values()[0])
                && final(self).channel().values() == old(self).channel().values().drop_first(),
            old(self).channel().values().len() == 0 ==> final(self).channel().values() == old(self).channel().values()
                && r == (if old(self).disconnected() {
                Err::<T, TryRecvError>(TryRecvError::Disconnected)
            } else {
                Err::<T, TryRecvError>(TryRecvError::Empty)
            }),
    {
        let disconnected = self.is_disconnected();
        let chan = self.chan_mut();
        match chan.queue.pop() {
            Some(value) => Ok(value),
            None => {
                if disconnected {
                    Err(TryRecvError::Disconnected)
                } else {
                    Err(TryRecvError::Empty)
                }
            },
        }
    }

    /// Polls a receive in state `state` for the task whose waker is `waker`.
    ///
    /// A waiting receive that was not woken keeps waiting. Otherwise a value
    /// is tried: it is received, or the receive fails when the channel is
    /// empty and the senders are gone, or the receive queues among the
    /// receivers under a new key and waits.
    pub fn poll_recv(&mut self, state: RecvState, waker: u64) -> (r: RecvPoll<T>)
        requires
            old(self).mpfc_wf(),
            old(self).channel().can_park(),
            state matches RecvState::Parked(key) ==> old(self).channel().receivers().is_live(key),
        ensures
            final(self).mpfc_wf(),
            final(self).senders() == old(self).senders(),
            final(self).receivers() == old(self).receivers(),
            final(self).disconnected() == old(self).disconnected(),
            final(self).channel().room() == old(self).channel().room(),
            final(self).channel().receivers().next_key() <= old(self).channel().receivers().next_key() + 1,
            state matches RecvState::Parked(key) ==> (old(self).channel().receivers().is_parked(key)
                ==> r == RecvPoll::<T>::Waiting(RecvState::Parked(key)) && final(self).channel().values()
                == old(self).channel().values()),
            !(state matches RecvState::Parked(key) && old(self).channel().receivers().is_parked(key)) ==> {
                let o = old(self).channel();
                let f = final(self).channel();
                &&& o.values().len() > 0 ==> r == RecvPoll::Done(Ok::<T, RecvError>(o.values()[0]))
                    && f.values() == o.values().drop_first()
                &&& o.values().len() == 0 && old(self).disconnected() ==> r == RecvPoll::<T>::Done(Err(RecvError))
                    && f.values() == o.values()
                &&& o.values().len() == 0 && !old(self).disconnected() ==> r == RecvPoll::<T>::Waiting(
                    RecvState::Parked(o.receivers().next_key())) && f.values() == o.values()
                    && f.receivers().parked() == seq![(o.receivers().next_key(), WAITING, Some(waker))]
                    + o.receivers().parked()
            },
    {
        match state {
            RecvState::Start => {},
            RecvState::Parked(key) => {
                let chan = self.chan_mut();
                match chan.receivers.poll(key, waker) {
                    Poll::Pending => {
                        return RecvPoll::Waiting(RecvState::Parked(key));
                    },
                    Poll::Ready => {},
                }
            },
        }
        let ghost mid = *self;
        loop
            invariant
                *self == mid,
                mid.mpfc_wf(),
                mid.senders() == old(self).senders(),
                mid.receivers() == old(self).receivers(),
                mid.disconnected() == old(self).disconnected(),
                mid.channel().values() == old(self).channel().values(),
                mid.channel().room() == old(self).channel().room(),
                mid.channel().receivers().parked() == old(self).channel().receivers().parked(),
                mid.channel().receivers().pending() == old(self).channel().receivers().pending(),
                mid.channel().receivers().next_key() == old(self).channel().receivers().next_key(),
                mid.channel().can_park(),
                !(state matches RecvState::Parked(key) && old(self).channel().receivers().is_parked(key)),
            decreases 1nat,
        {
            match self.try_recv() {
                Ok(v) => {
                    return RecvPoll::Done(Ok(v));
                },
                Err(TryRecvError::Disconnected) => {
                    return RecvPoll::Done(Err(RecvError));
                },
                Err(TryRecvError::Empty) => {
                    crate::raw::util::spin_hint();
                    let should_park = self.is_empty();
                    let chan = self.chan_mut();
                    match chan.receivers.park(should_park) {
                        Some(key) => {
                            assert(chan.receivers.parked()[0].0 == key);
                            let ghost parked = chan.receivers.parked();
                            proof {
                                chan.receivers.tasks_distinct();
                            }
                            let _ = chan.receivers.poll(key, waker);
                            proof {
                                assert forall|i: int| 0 <= i < parked.len() implies #[trigger] chan.receivers.parked()[i]
                                    == (seq![(key, WAITING, Some(waker))] + parked.subrange(1, parked.len() as int))[i] by {
                                    if i > 0 {
                                        assert(parked[0].0 > parked[i].0);
                                    }
                                }
                                assert(chan.receivers.parked() =~= seq![(key, WAITING, Some(waker))]
                                    + parked.subrange(1, parked.len() as int));
                            }
                            return RecvPoll::Waiting(RecvState::Parked(key));
                        },
                        None => {},
                    }
                },
            }
        }
    }

    /// Ends a receive that is dropped in state `state`: a waiting receiver
    /// leaves the queue, and a woken one consumes its wake-up.
    pub fn drop_recv(&mut self, state: RecvState)
        requires
            old(self).mpfc_wf(),
            state matches RecvState::Parked(key) ==> old(self).channel().receivers().is_live(key),
        ensures
            final(self).mpfc_wf(),
            final(self).senders() == old(self).senders(),
            final(self).receivers() == old(self).receivers(),
            final(self).disconnected() == old(self).disconnected(),
            final(self).channel().values() == old(self).channel().values(),
            final(self).channel().room() == old(self).channel().room(),
            state matches RecvState::Parked(key) ==> (!final(self).channel().receivers().is_parked(key)
                && !final(self).channel().receivers().released().contains(key)),
            state is Start ==> final(self).channel() == old(self).channel(),
    {
        match state {
            RecvState::Start => {},
            RecvState::Parked(key) => {
                let chan = self.chan_mut();
                let ghost before = chan.receivers;
                proof {
                    chan.receivers.tasks_distinct();
                    if before.is_parked(key) {
                        before.lemma_queued_not_released(key);
                    }
                }
                chan.receivers.cancel(key);
                proof {
                    if before.is_parked(key) {
                        let i = choose|i: int| 0 <= i < before.parked().len() && (#[trigger] before.parked()[i]).0 == key;
                        assert(chan.receivers.parked() == before.parked().remove(i));
                        assert forall|j: int| 0 <= j < chan.receivers.parked().len() implies (#[trigger] chan.receivers.parked()[j]).0 != key by {
                            if j < i {
                                assert(before.parked()[j].0 > before.parked()[i].0);
                            } else {
                                assert(chan.receivers.parked()[j] == before.parked()[j + 1]);
                                assert(before.parked()[i].0 > before.parked()[j + 1].0);
                            }
                        }
                    }
                }
            },
        }
    }

    /// Clones a sender handle, up to the most senders the queue allows.
    pub fn clone_sender(&mut self)
        requires
            old(self).mpfc_wf(),
            old(self).senders() <= MAX_SENDERS,
            old(self).senders() > 0,
        ensures
            final(self).mpfc_wf(),
            final(self).senders() == old(self).senders() + 1,
            final(self).receivers() == old(self).receivers(),
            final(self).disconnected() == old(self).disconnected(),
            final(self).channel() == old(self).channel(),
    {
        self.add_sender(MAX_SENDERS);
    }

    /// Clones a receiver handle, up to the most receivers the queue allows.
    pub fn clone_receiver(&mut self)
        requires
            old(self).mpfc_wf(),
            old(self).receivers() <= MAX_RECEIVERS,
            old(self).receivers() > 0,
        ensures
            final(self).mpfc_wf(),
            final(self).receivers() == old(self).receivers() + 1,
            final(self).senders() == old(self).senders(),
            final(self).disconnected() == old(self).disconnected(),
            final(self).channel() == old(self).channel(),
    {
        self.add_receiver(MAX_RECEIVERS);
    }

    /// Drops a sender handle. When it was the last one, every waiting
    /// receiver is woken, and their wakers are answered.
    pub fn drop_sender(&mut self) -> (r: (DropAction, Vec<Option<u64>>))
        requires
            old(self).mpfc_wf(),
            old(self).senders() > 0,
        ensures
            final(self).disconnected() == (final(self).senders() == 0 || final(self).receivers() == 0),
            final(self).mpfc_wf(),
            final(self).senders() == old(self).senders() - 1,
            final(self).receivers() == old(self).receivers(),
            r.0 == drop_action(old(self).senders(), old(self).receivers()),
            final(self).channel().values() == old(self).channel().values(),
            r.0 != DropAction::Keep ==> woke_all(old(self).channel().receivers(), final(self).channel().receivers(), r.1@),
            r.0 == DropAction::Keep ==> r.1@.len() == 0 && final(self).channel() == old(self).channel(),
    {
        let action = self.remove_sender();
        match action {
            DropAction::Keep => (action, Vec::new()),
            _ => {
                let chan = self.chan_mut();
                let woken = chan.receivers.wake_all();
                (action, woken)
            },
        }
    }

    /// Drops a receiver handle.
    pub fn drop_receiver(&mut self) -> (r: DropAction)
        requires
            old(self).mpfc_wf(),
            old(self).receivers() > 0,
        ensures
            final(self).disconnected() == (final(self).senders() == 0 || final(self).receivers() == 0),
            final(self).mpfc_wf(),
            final(self).receivers() == old(self).receivers() - 1,
            final(self).senders() == old(self).senders(),
            r == drop_action(old(self).receivers(), old(self).senders()),
            final(self).channel() == old(self).channel(),
    {
        self.remove_receiver()
    }
}

} // verus!
