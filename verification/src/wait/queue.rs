//! A queue of waiting tasks with a state word of its own.
//!
//! The state word is `EMPTY` when no task waits, `WAITING` while some do, and
//! `WOKE` when a wake-up found nobody waiting and is kept for the next task.
//! A task registers a waiter, which the queue keeps under a key; a wake-up
//! takes the oldest waiter out and marks it woken.
use super::{will_wake, Status};
use crate::raw::util::{compare_exchange_u8, swap_u8};
use crate::task::Poll;
use crate::util::intrusive_list::{LinkedList, Node};
use vstd::prelude::*;

verus! {

pub const EMPTY: u8 = 0;

pub const WAITING: u8 = 1;

pub const WOKE: u8 = 2;

/// A waiting task: its state and its waker.
pub struct Waiter {
    state: u8,
    waker: Option<u64>,
}

impl Waiter {
    /// The waiter's state.
    pub closed spec fn state(&self) -> u8 {
        self.state
    }

    /// The waiter's waker, if any.
    pub closed spec fn waker(&self) -> Option<u64> {
        self.waker
    }

    /// A waiter that never registered: empty, with no waker.
    pub fn new() -> (n: Node<Waiter>)
        ensures
            n.data.state() == EMPTY,
            n.data.waker() == None::<u64>,
    {
        Node::new(Waiter { state: EMPTY, waker: None })
    }
}

spec fn waiter_view(key: u64, w: Waiter) -> (u64, Option<u64>) {
    (key, w.waker)
}

/// Where a wait on a queue stands.
#[derive(Clone, Copy, Debug, PartialEq, Eq, Structural)]
pub enum State {
    /// The task has not registered yet.
    Started,
    /// The task's waiter is registered under a key.
    Registered(u64),
    /// The task was woken and checks again.
    Done,
}

/// What a wait does after one pass of its loop.
#[derive(Clone, Copy, Debug, PartialEq, Eq, Structural)]
pub enum Step {
    /// The task's check succeeded: the wait is over.
    Ready,
    /// The task waits for a wake-up.
    Pending,
    /// Another pass follows.
    Again,
}

/// `new` is `old` after `wake` answered the waker `woken`: the oldest waiter,
/// if any, was taken out and woken; otherwise the wake-up is kept.
pub open spec fn woke_one(old: Queue, new: Queue, woken: Option<u64>) -> bool {
    &&& new.wf()
    &&& new.next_key() == old.next_key()
    &&& old.state() != WAITING ==> woken.is_none() && new.state() == WOKE && new.waiters()
        == old.waiters() && new.woken() == old.woken()
    &&& old.state() == WAITING ==> old.waiters().len() > 0 && woken == old.waiters().last().1
        && woken.is_some() && new.waiters() == old.waiters().drop_last() && new.woken()
        == old.woken().push(old.waiters().last().0) && new.state() == (if old.waiters().len()
        == 1 {
        EMPTY
    } else {
        WAITING
    })
}

/// `new` is `old` after `wake_all` answered `woken`: every waiter left the
/// queue woken, oldest first, `woken` holds their wakers in that order, and
/// the queue keeps a wake-up for the next task.
pub open spec fn woke_all(old: Queue, new: Queue, woken: Seq<Option<u64>>) -> bool {
    &&& new.wf()
    &&& new.next_key() == old.next_key()
    &&& new.state() == WOKE
    &&& new.waiters().len() == 0
    &&& woken.len() == old.waiters().len()
    &&& forall|i: int| 0 <= i < woken.len() ==> #[trigger] woken[i] == old.waiters()[old.waiters().len() - 1 - i].1
    &&& new.woken().len() == old.woken().len() + old.waiters().len()
    &&& forall|i: int| 0 <= i < old.woken().len() ==> new.woken()[i] == old.woken()[i]
    &&& forall|i: int|
        #![trigger old.waiters()[old.waiters().len() - 1 - i]]
        0 <= i < old.waiters().len() ==> new.woken()[old.woken().len() + i] == old.waiters()[old.waiters().len()
            - 1 - i].0
}

/// A queue of waiters, newest first.
pub struct Queue {
    state: u8,
    list: LinkedList<Waiter>,
    woken: Vec<(u64, Waiter)>,
}

impl Queue {
    /// The state word.
    pub closed spec fn state(&self) -> u8 {
        self.state
    }

    /// The registered waiters, newest first, with their wakers.
    pub closed spec fn waiters(&self) -> Seq<(u64, Option<u64>)> {
        self.list@.map_values(|e: (u64, Waiter)| waiter_view(e.0, e.1))
    }

    /// The waiters taken out of the queue and woken, whose tasks did not see
    /// it yet.
    pub closed spec fn woken(&self) -> Seq<u64> {
        self.woken@.map_values(|e: (u64, Waiter)| e.0)
    }

    /// The key that the next registered waiter gets.
    pub closed spec fn next_key(&self) -> u64 {
        self.list.next_key()
    }

    /// Whether the waiter `key` is in the queue.
    pub open spec fn is_waiting(&self, key: u64) -> bool {
        exists|i: int| 0 <= i < self.waiters().len() && (#[trigger] self.waiters()[i]).0 == key
    }

    /// Whether `key` names a waiter whose task did not finish with it.
    pub open spec fn is_live(&self, key: u64) -> bool {
        self.is_waiting(key) || self.woken().contains(key)
    }

    /// The state word says whether waiters are queued, and every waiter is
    /// where its state says.
    pub closed spec fn wf(&self) -> bool {
        &&& self.list.wf()
        &&& self.state == EMPTY || self.state == WAITING || self.state == WOKE
        &&& (self.state == WAITING) == (self.list@.len() > 0)
        &&& forall|i: int|
            0 <= i < self.list@.len() ==> (#[trigger] self.list@[i]).1.state == WAITING
                && self.list@[i].1.waker.is_some()
        &&& forall|i: int|
            0 <= i < self.woken@.len() ==> (#[trigger] self.woken@[i]).1.state == WOKE
                && self.woken@[i].0 < self.list.next_key()
        &&& forall|i: int, j: int|
            0 <= i < self.woken@.len() && 0 <= j < self.list@.len() ==> (
            #[trigger] self.woken@[i]).0 != (#[trigger] self.list@[j]).0
        &&& forall|i: int, j: int|
            0 <= i < j < self.woken@.len() ==> (#[trigger] self.woken@[i]).0 != (
            #[trigger] self.woken@[j]).0
    }

    /// Queued waiters have distinct keys, newest first.
    pub proof fn waiters_distinct(&self)
        requires
            self.wf(),
        ensures
            forall|i: int, j: int|
                0 <= i < j < self.waiters().len() ==> #[trigger] self.waiters()[i].0
                    > #[trigger] self.waiters()[j].0,
            forall|i: int| 0 <= i < self.waiters().len() ==> #[trigger] self.waiters()[i].0 < self.next_key(),
    {
        self.list.lemma_keys();
        assert forall|i: int, j: int|
            0 <= i < j < self.waiters().len() implies #[trigger] self.waiters()[i].0
                > #[trigger] self.waiters()[j].0 by {
            assert(self.list@[i].0 > self.list@[j].0);
        }
        assert forall|i: int| 0 <= i < self.waiters().len() implies #[trigger] self.waiters()[i].0 < self.next_key() by {
            assert(self.list@[i].0 < self.list.next_key());
        }
    }

    /// An empty queue.
    pub fn new() -> (q: Queue)
        ensures
            q.wf(),
            q.state() == EMPTY,
            q.waiters() == Seq::<(u64, Option<u64>)>::empty(),
            q.woken() == Seq::<u64>::empty(),
            q.next_key() == 0,
    {
        let q = Queue { state: EMPTY, list: LinkedList::new(), woken: Vec::new() };
        assert(q.waiters() =~= Seq::<(u64, Option<u64>)>::empty());
        assert(q.woken() =~= Seq::<u64>::empty());
        q
    }

    /// Registers the waiter `node` with `waker`: `Registered` with the key it
    /// is queued under, or `Awoke` when a kept wake-up was consumed instead.
    pub fn register(&mut self, node: Node<Waiter>, waker: u64) -> (r: (Status, Option<u64>))
        requires
            old(self).wf(),
            old(self).next_key() < u64::MAX,
        ensures
            final(self).wf(),
            final(self).woken() == old(self).woken(),
            old(self).state() == WOKE ==> r == (Status::Awoke, None::<u64>) && final(self).state()
                == EMPTY && final(self).waiters() == old(self).waiters() && final(self).next_key()
                == old(self).next_key(),
            old(self).state() != WOKE ==> r == (Status::Registered, Some(old(self).next_key()))
                && final(self).state() == WAITING && final(self).waiters() == seq![
                (old(self).next_key(), Some(waker)),
            ] + old(self).waiters() && final(self).next_key() == old(self).next_key() + 1,
    {
        if self.state == WOKE {
            // consume the kept wake-up
            if compare_exchange_u8(&mut self.state, WOKE, EMPTY).is_ok() {
                return (Status::Awoke, None);
            }
        }
        let mut state = self.state;
        loop
            invariant_except_break
                state == self.state,
                self.state == old(self).state,
            invariant
                self.list == old(self).list,
                self.woken == old(self).woken,
                old(self).wf(),
                old(self).state != WOKE,
            ensures
                self.state == WAITING,
            decreases 1nat,
        {
            if state == EMPTY {
                match compare_exchange_u8(&mut self.state, EMPTY, WAITING) {
                    Ok(_) => {
                        break ;
                    },
                    Err(found) => {
                        state = found;
                    },
                }
            } else if state == WOKE {
                match compare_exchange_u8(&mut self.state, WOKE, EMPTY) {
                    Ok(_) => {
                        return (Status::Awoke, None);
                    },
                    Err(found) => {
                        state = found;
                    },
                }
            } else {
                break ;
            }
        }
        let mut node = node;
        node.data.waker = Some(waker);
        node.data.state = WAITING;
        let ghost before = self.list@;
        proof {
            self.list.lemma_keys();
        }
        let key = self.list.add_front(node);
        proof {
            assert(self.waiters() =~= seq![(key, Some(waker))] + old(self).waiters());
            assert forall|i: int, j: int|
                0 <= i < self.woken@.len() && 0 <= j < self.list@.len() implies (
            #[trigger] self.woken@[i]).0 != (#[trigger] self.list@[j]).0 by {
                if j > 0 {
                    assert(self.list@[j] == before[j - 1]);
                }
            }
        }
        (Status::Registered, Some(key))
    }

    /// Polls the waiter `key`: `Ready` once it was woken, which ends the
    /// waiter; otherwise its waker becomes `waker`.
    pub fn poll(&mut self, key: u64, waker: u64) -> (r: Poll)
        requires
            old(self).wf(),
            old(self).is_live(key),
        ensures
            final(self).wf(),
            final(self).state() == old(self).state(),
            final(self).next_key() == old(self).next_key(),
            old(self).is_waiting(key) ==> r == Poll::Pending && final(self).woken() == old(self).woken() && final(self).waiters().len() == old(self).waiters().len() && forall|i: int|
                0 <= i < old(self).waiters().len() ==> #[trigger] final(self).waiters()[i] == (
                if old(self).waiters()[i].0 == key {
                    (key, Some(waker))
                } else {
                    old(self).waiters()[i]
                }),
            !old(self).is_waiting(key) ==> r == Poll::Ready && final(self).waiters() == old(self).waiters() && !final(self).woken().contains(key) && final(self).woken().len() == old(self).woken().len() - 1,
    {
        match self.list.position(key) {
            Some(i) => {
                let ghost before = self.list@;
                proof {
                    self.list.lemma_keys();
                }
                let w = self.list.data_mut(i);
                if w.state == WOKE {
                    return Poll::Ready;
                }
                if !will_wake(&w.waker, waker) {
                    w.waker = Some(waker);
                }
                proof {
                    assert forall|j: int|
                        0 <= j < old(self).waiters().len() implies #[trigger] self.waiters()[j] == (
                        if old(self).waiters()[j].0 == key {
                            (key, Some(waker))
                        } else {
                            old(self).waiters()[j]
                        }) by {
                        if j != i {
                            assert(before[j].0 != before[i as int].0);
                        }
                    }
                }
                Poll::Pending
            },
            None => {
                assert(!old(self).is_waiting(key)) by {
                    if old(self).is_waiting(key) {
                        let i = choose|i: int|
                            0 <= i < old(self).waiters().len() && (#[trigger] old(self).waiters()[i]).0 == key;
                        assert(self.list@[i].0 == key);
                    }
                }
                let k = self.woken_position(key);
                let _ = self.woken.remove(k);
                proof {
                    assert(self.woken() =~= old(self).woken().remove(k as int));
                    assert forall|j: int| 0 <= j < self.woken().len() implies self.woken()[j]
                        != key by {
                        if j < k {
                            assert(old(self).woken@[j].0 != old(self).woken@[k as int].0);
                        } else {
                            assert(old(self).woken@[j + 1].0 != old(self).woken@[k as int].0);
                        }
                    }
                }
                Poll::Ready
            },
        }
    }

    /// Wakes the oldest waiter, or keeps the wake-up for the next task when
    /// none waits. Answers `false`, with the waker to wake.
    pub fn wake(&mut self) -> (r: (bool, Option<u64>))
        requires
            old(self).wf(),
        ensures
            !r.0,
            woke_one(*old(self), *final(self), r.1),
    {
        let mut state = self.state;
        while state == WOKE || state == EMPTY
            invariant
                state == self.state,
                *self == *old(self),
                old(self).wf(),
            decreases 1nat,
        {
            match compare_exchange_u8(&mut self.state, state, WOKE) {
                Ok(_) => {
                    return (false, None);
                },
                Err(found) => {
                    state = found;
                },
            }
        }
        // the list lock is taken here

        let state = self.state;
        if state == WAITING {
            let ghost before = self.list@;
            proof {
                self.list.lemma_keys();
            }
            let (key, node) = self.list.pop().unwrap();
            let mut waiter = node.data;
            let _ = swap_u8(&mut waiter.state, WOKE);
            let waker = waiter.waker.take();
            if self.list.is_empty() {
                self.state = EMPTY;
            }
            self.woken.push((key, waiter));
            proof {
                assert(before[before.len() - 1].0 < self.list.next_key());
                assert forall|i: int| 0 <= i < self.list@.len() implies #[trigger] self.list@[i] == before[i] by {}
                assert(self.waiters() =~= old(self).waiters().drop_last());
                assert(self.woken() =~= old(self).woken().push(key));
                assert forall|i: int, j: int|
                    0 <= i < self.woken@.len() && 0 <= j < self.list@.len() implies (
                #[trigger] self.woken@[i]).0 != (#[trigger] self.list@[j]).0 by {
                    if i == self.woken@.len() - 1 {
                        assert(before[j].0 > before[before.len() - 1].0);
                    } else {
                        assert(self.list@[j] == before[j]);
                    }
                }
                assert forall|i: int, j: int|
                    0 <= i < j < self.woken@.len() implies (#[trigger] self.woken@[i]).0 != (
                    #[trigger] self.woken@[j]).0 by {
                    if j == self.woken@.len() - 1 {
                        assert(self.woken@[i] == old(self).woken@[i]);
                    }
                }
            }
            return (false, waker);
        }
        (false, None)
    }

    /// Wakes every waiter, oldest first, and keeps a wake-up for the next
    /// task. Answers the wakers to wake, in order.
    pub fn wake_all(&mut self) -> (woken: Vec<Option<u64>>)
        requires
            old(self).wf(),
        ensures
            woke_all(*old(self), *final(self), woken@),
    {
        let _ = swap_u8(&mut self.state, WOKE);
        let ghost before = self.list@;
        proof {
            self.list.lemma_keys();
        }
        let drained = self.list.drain();
        let mut woken: Vec<Option<u64>> = Vec::new();
        let mut n: usize = 0;
        let ghost base = self.woken@.len();
        while n < drained.len()
            invariant
                self.list.wf(),
                self.list@.len() == 0,
                self.list.next_key() == old(self).list.next_key(),
                self.state == WOKE,
                drained@.len() == before.len(),
                before == old(self).list@,
                old(self).wf(),
                forall|i: int, j: int|
                    0 <= i < j < before.len() ==> #[trigger] before[i].0 > #[trigger] before[j].0,
                forall|i: int| 0 <= i < before.len() ==> #[trigger] before[i].0 < self.list.next_key(),
                n <= drained@.len(),
                woken@.len() == n,
                base == old(self).woken@.len(),
                self.woken@.len() == base + n,
                forall|i: int| 0 <= i < base ==> self.woken@[i] == old(self).woken@[i],
                forall|i: int|
                    0 <= i < drained@.len() ==> (#[trigger] drained@[i].0, drained@[i].1.data)
                        == before[before.len() - 1 - i],
                forall|i: int|
                    0 <= i < n ==> #[trigger] woken@[i] == before[before.len() - 1 - i].1.waker,
                forall|i: int|
                    0 <= i < n ==> (#[trigger] self.woken@[base + i]).0 == before[before.len() - 1
                        - i].0,
                forall|i: int|
                    0 <= i < self.woken@.len() ==> (#[trigger] self.woken@[i]).1.state == WOKE
                        && self.woken@[i].0 < self.list.next_key(),
            decreases drained@.len() - n,
        {
            let (key, node) = &drained[n];
            proof {
                assert((drained@[n as int].0, drained@[n as int].1.data) == before[before.len() - 1 - n]);
                assert(before[before.len() - 1 - n].0 < self.list.next_key());
            }
            let mut waiter = Waiter { state: node.data.state, waker: node.data.waker };
            let _ = swap_u8(&mut waiter.state, WOKE);
            let waker = waiter.waker.take();
            woken.push(waker);
            self.woken.push((*key, waiter));
            n = n + 1;
        }
        proof {
            assert(self.waiters() =~= Seq::<(u64, Option<u64>)>::empty());
            assert forall|i: int, j: int|
                0 <= i < j < self.woken@.len() implies (#[trigger] self.woken@[i]).0 != (
                #[trigger] self.woken@[j]).0 by {
                if j >= base && i >= base {
                    let a = before.len() - 1 - (i - base);
                    let b = before.len() - 1 - (j - base);
                    assert(self.woken@[base + (i - base)].0 == before[a].0);
                    assert(self.woken@[base + (j - base)].0 == before[b].0);
                    assert(before[b].0 > before[a].0);
                } else if j >= base {
                    let b = before.len() - 1 - (j - base);
                    assert(self.woken@[base + (j - base)].0 == before[b].0);
                    assert(self.woken@[i] == old(self).woken@[i]);
                    assert(old(self).woken@[i].0 != old(self).list@[b].0);
                } else {
                    assert(self.woken@[i] == old(self).woken@[i]);
                    assert(self.woken@[j] == old(self).woken@[j]);
                }
            }
            assert forall|i: int| 0 <= i < woken@.len() implies #[trigger] woken@[i] == old(self).waiters()[old(self).waiters().len() - 1 - i].1 by {
                assert(woken@[i] == before[before.len() - 1 - i].1.waker);
            }
        }
        woken
    }

    /// Takes the waiter `key` out when its task stops waiting: a queued
    /// waiter leaves the queue, and a woken one is let go.
    pub fn remove(&mut self, key: u64)
        requires
            old(self).wf(),
            old(self).is_live(key),
        ensures
            final(self).wf(),
            final(self).next_key() == old(self).next_key(),
            old(self).is_waiting(key) ==> final(self).woken() == old(self).woken() && forall|i: int|
                0 <= i < old(self).waiters().len() && (#[trigger] old(self).waiters()[i]).0 == key
                    ==> final(self).waiters() == old(self).waiters().remove(i),
            old(self).is_waiting(key) ==> final(self).state() == (if old(self).waiters().len()
                == 1 {
                EMPTY
            } else {
                old(self).state()
            }),
            !old(self).is_waiting(key) ==> final(self).state() == old(self).state()
                && final(self).waiters() == old(self).waiters() && !final(self).woken().contains(
                key,
            ) && final(self).woken().len() == old(self).woken().len() - 1,
    {
        proof {
            self.list.lemma_keys();
        }
        let ghost before = self.list@;
        match self.list.position(key) {
            Some(_) => {
                let removed = self.list.remove(key);
                proof {
                    let i = choose|i: int|
                        0 <= i < old(self).waiters().len() && (#[trigger] old(self).waiters()[i]).0
                            == key;
                    assert(before[i].0 == key);
                    assert forall|j: int|
                        0 <= j < old(self).waiters().len() && (#[trigger] old(self).waiters()[j]).0
                            == key implies self.waiters() == old(self).waiters().remove(j) by {
                        assert(before[j].0 == key);
                        if j < i {
                            assert(before[j].0 > before[i].0);
                        } else if j > i {
                            assert(before[i].0 > before[j].0);
                        }
                        assert(self.waiters() =~= old(self).waiters().remove(j));
                    }
                    assert forall|a: int, b: int|
                        0 <= a < self.woken@.len() && 0 <= b < self.list@.len() implies (
                    #[trigger] self.woken@[a]).0 != (#[trigger] self.list@[b]).0 by {
                        if b < i {
                            assert(self.list@[b] == before[b]);
                        } else {
                            assert(self.list@[b] == before[b + 1]);
                        }
                    }
                }
                if self.list.is_empty() {
                    let _ = compare_exchange_u8(&mut self.state, WAITING, EMPTY);
                }
            },
            None => {
                assert(!old(self).is_waiting(key)) by {
                    if old(self).is_waiting(key) {
                        let i = choose|i: int|
                            0 <= i < old(self).waiters().len() && (#[trigger] old(self).waiters()[i]).0 == key;
                        assert(self.list@[i].0 == key);
                    }
                }
                let k = self.woken_position(key);
                let _ = self.woken.remove(k);
                proof {
                    assert(self.woken() =~= old(self).woken().remove(k as int));
                    assert forall|j: int| 0 <= j < self.woken().len() implies self.woken()[j]
                        != key by {
                        if j < k {
                            assert(old(self).woken@[j].0 != old(self).woken@[k as int].0);
                        } else {
                            assert(old(self).woken@[j + 1].0 != old(self).woken@[k as int].0);
                        }
                    }
                }
            },
        }
    }

    /// One pass of the loop of a task that waits on this queue. `ready` is
    /// what the task's own check answered, in the states that make one
    /// (`Started` and `Done`).
    pub fn poll_fn_step(&mut self, state: State, ready: bool, waker: u64) -> (r: (State, Step))
        requires
            old(self).wf(),
            old(self).next_key() < u64::MAX,
            state matches State::Registered(key) ==> old(self).is_live(key),
        ensures
            final(self).wf(),
            state matches State::Registered(key) ==> (old(self).is_waiting(key) ==> r == (
            State::Registered(key), Step::Pending) && final(self).waiters().len() == old(self).waiters().len() && final(self).state() == old(self).state()),
            state matches State::Registered(key) ==> (!old(self).is_waiting(key) ==> r == (
            State::Done, Step::Again) && final(self).waiters() == old(self).waiters()
                && final(self).state() == old(self).state()),
            !(state is Registered) && ready ==> r == (state, Step::Ready) && *final(self) == *old(self),
            !(state is Registered) && !ready && old(self).state() == WOKE ==> r == (
            state, Step::Again) && final(self).state() == EMPTY && final(self).waiters() == old(self).waiters(),
            !(state is Registered) && !ready && old(self).state() != WOKE ==> r == (
            State::Registered(old(self).next_key()), Step::Again) && final(self).state() == WAITING
                && final(self).waiters() == seq![(old(self).next_key(), Some(waker))] + old(self).waiters(),
    {
        match state {
            State::Registered(key) => {
                match self.poll(key, waker) {
                    Poll::Pending => (State::Registered(key), Step::Pending),
                    Poll::Ready => (State::Done, Step::Again),
                }
            },
            _ => {
                if ready {
                    return (state, Step::Ready);
                }
                match self.register(Waiter::new(), waker) {
                    (Status::Registered, Some(key)) => (State::Registered(key), Step::Again),
                    _ => (state, Step::Again),
                }
            },
        }
    }

    /// Ends a wait that is dropped: a registered waiter is taken out.
    pub fn drop_wait(&mut self, state: State)
        requires
            old(self).wf(),
            state matches State::Registered(key) ==> old(self).is_live(key),
        ensures
            final(self).wf(),
            !(state is Registered) ==> *final(self) == *old(self),
            state matches State::Registered(key) ==> !final(self).is_waiting(key) && !final(self).woken().contains(key),
    {
        match state {
            State::Registered(key) => {
                proof {
                    self.waiters_distinct();
                }
                self.remove(key);
                proof {
                    assert(!self.is_waiting(key)) by {
                        if self.is_waiting(key) {
                            let j = choose|j: int|
                                0 <= j < self.waiters().len() && (#[trigger] self.waiters()[j]).0
                                    == key;
                            if old(self).is_waiting(key) {
                                let i = choose|i: int|
                                    0 <= i < old(self).waiters().len() && (#[trigger] old(self).waiters()[i]).0 == key;
                                assert(self.waiters() == old(self).waiters().remove(i));
                                if j < i {
                                    assert(old(self).waiters()[j].0 > old(self).waiters()[i].0);
                                } else {
                                    assert(old(self).waiters()[i].0 > old(self).waiters()[j + 1].0);
                                }
                            }
                        }
                    }
                }
            },
            _ => {},
        }
    }

    fn woken_position(&self, key: u64) -> (k: usize)
        requires
            self.wf(),
            self.woken().contains(key),
        ensures
            k < self.woken@.len(),
            self.woken@[k as int].0 == key,
    {
        let mut k: usize = 0;
        while k < self.woken.len()
            invariant
                k <= self.woken@.len(),
                self.woken().contains(key),
                forall|j: int| 0 <= j < k ==> self.woken@[j].0 != key,
            decreases self.woken.len() - k,
        {
            if self.woken[k].0 == key {
                return k;
            }
            k = k + 1;
        }
        proof {
            let j = choose|j: int| 0 <= j < self.woken().len() && self.woken()[j] == key;
            assert(self.woken@[j].0 == key);
        }
        0
    }
}

} // verus!
