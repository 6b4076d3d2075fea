//! A FIFO queue of parked tasks.
//!
//! A task parks with `park`, which answers the key of its node when it was
//! queued. `unpark_one` and `unpark_all` take tasks out of the queue, mark
//! them notified and answer the wakers to wake; `poll` tells a task whether it
//! was notified, and `cancel` takes a task out when it stops waiting.
use crate::raw::intrusive::{List, Node};
use crate::raw::util::{compare_exchange_u8, swap_u8};
use crate::task::Poll;
use vstd::prelude::*;

verus! {

pub const EMPTY: u8 = 0;

pub const WAITING: u8 = 1;

pub const UPDATING: u8 = 2;

pub const NOTIFIED: u8 = 3;

/// A parked task: whether it is in the queue, its state and its waker.
struct Task {
    parked: bool,
    state: u8,
    waker: Option<u64>,
}

impl Task {
    /// Registers `waker` unless the task was notified; `Ready` when it was.
    fn poll(&mut self, waker: u64) -> (r: Poll)
        requires
            old(self).state == EMPTY || old(self).state == WAITING || old(self).state == NOTIFIED,
        ensures
            old(self).state == NOTIFIED ==> r == Poll::Ready && *final(self) == *old(self),
            old(self).state != NOTIFIED ==> r == Poll::Pending && final(self).state == WAITING
                && final(self).waker == Some(waker) && final(self).parked == old(self).parked,
    {
        let state = self.state;
        if state == NOTIFIED {
            return Poll::Ready;
        }
        // take the update lock; a notification in between wins
        if compare_exchange_u8(&mut self.state, state, UPDATING).is_err() {
            return Poll::Ready;
        }
        let same = match self.waker {
            Some(w) => w == waker,
            None => false,
        };
        if !same {
            self.waker = Some(waker);
        }
        // release the lock, unless a notification came meanwhile
        match compare_exchange_u8(&mut self.state, UPDATING, WAITING) {
            Ok(_) => Poll::Pending,
            Err(_) => Poll::Ready,
        }
    }

    /// Notifies the task, returning its waker when it waits for one.
    fn unpark(&mut self) -> (woken: Option<u64>)
        ensures
            final(self).state == NOTIFIED,
            final(self).parked == old(self).parked,
            woken == (if old(self).state == WAITING {
                old(self).waker
            } else {
                None
            }),
            old(self).state == WAITING ==> final(self).waker == None::<u64>,
    {
        let state = swap_u8(&mut self.state, NOTIFIED);
        if state != WAITING {
            return None;
        }
        self.waker.take()
    }
}

/// The view of a task: its key, state and registered waker.
spec fn task_view(key: u64, t: Task) -> (u64, u8, Option<u64>) {
    (key, t.state, t.waker)
}

/// The waker that notifying the task `t` wakes.
pub open spec fn woken_by_unpark(t: (u64, u8, Option<u64>)) -> Option<u64> {
    if t.1 == WAITING {
        t.2
    } else {
        None
    }
}

/// `new` is `old` after `unpark_one` answered `woken`: the oldest queued
/// task, if any, left the queue notified, and its waker is to be woken.
pub open spec fn unparked_one(old: TaskQueue, new: TaskQueue, woken: Option<u64>) -> bool {
    &&& new.wf()
    &&& new.next_key() == old.next_key()
    &&& old.pending() == 0 ==> woken.is_none() && new.pending() == 0 && new.parked()
        == old.parked() && new.released() == old.released()
    &&& old.pending() > 0 ==> new.pending() == old.pending() - 1 && new.parked()
        == old.parked().drop_last() && new.released() == old.released().push(
        old.parked().last().0,
    ) && woken == woken_by_unpark(old.parked().last())
}

/// `new` is `old` after `unpark_all` answered `woken`: every queued task left
/// the queue notified, oldest first, and `woken` holds their wakers in order.
pub open spec fn unparked_all(old: TaskQueue, new: TaskQueue, woken: Seq<Option<u64>>) -> bool {
    &&& new.wf()
    &&& new.next_key() == old.next_key()
    &&& new.pending() == 0
    &&& new.parked().len() == 0
    &&& woken.len() == old.parked().len()
    &&& forall|i: int|
        0 <= i < woken.len() ==> #[trigger] woken[i] == woken_by_unpark(
            old.parked()[old.parked().len() - 1 - i],
        )
    &&& new.released().len() == old.released().len() + old.parked().len()
    &&& forall|i: int| 0 <= i < old.released().len() ==> new.released()[i] == old.released()[i]
    &&& forall|i: int|
        #![trigger old.parked()[old.parked().len() - 1 - i]]
        0 <= i < old.parked().len() ==> new.released()[old.released().len() + i]
            == old.parked()[old.parked().len() - 1 - i].0
}

/// A FIFO queue of parked tasks.
pub struct TaskQueue {
    pending: usize,
    tasks: List<Task>,
    released: Vec<(u64, Task)>,
}

impl TaskQueue {
    /// The number of tasks in the queue.
    pub closed spec fn pending(&self) -> usize {
        self.pending
    }

    /// The queued tasks, newest first.
    pub closed spec fn parked(&self) -> Seq<(u64, u8, Option<u64>)> {
        self.tasks@.map_values(|e: (u64, Task)| task_view(e.0, e.1))
    }

    /// The tasks taken out of the queue and notified, whose waits are not over.
    pub closed spec fn released(&self) -> Seq<u64> {
        self.released@.map_values(|e: (u64, Task)| e.0)
    }

    /// The key that the next parked task gets.
    pub closed spec fn next_key(&self) -> u64 {
        self.tasks.next_key()
    }

    /// Whether the queue holds a task with key `key`.
    pub open spec fn is_parked(&self, key: u64) -> bool {
        exists|i: int| 0 <= i < self.parked().len() && (#[trigger] self.parked()[i]).0 == key
    }

    /// Whether `key` names a task whose wait is not over.
    pub open spec fn is_live(&self, key: u64) -> bool {
        self.is_parked(key) || self.released().contains(key)
    }

    /// The counts agree and each task is where its flags say.
    pub closed spec fn wf(&self) -> bool {
        &&& self.tasks.wf()
        &&& self.pending == self.tasks@.len()
        &&& forall|i: int|
            0 <= i < self.tasks@.len() ==> (#[trigger] self.tasks@[i]).1.parked && (
            self.tasks@[i].1.state == EMPTY || self.tasks@[i].1.state == WAITING)
        &&& forall|i: int|
            0 <= i < self.released@.len() ==> !(#[trigger] self.released@[i]).1.parked
                && self.released@[i].1.state == NOTIFIED && self.released@[i].0
                < self.tasks.next_key()
        &&& forall|i: int, j: int|
            0 <= i < self.released@.len() && 0 <= j < self.tasks@.len() ==> (#[trigger] self.released@[i]).0
                != (#[trigger] self.tasks@[j]).0
        &&& forall|i: int, j: int|
            0 <= i < j < self.released@.len() ==> (#[trigger] self.released@[i]).0
                != (#[trigger] self.released@[j]).0
    }

    /// Queued tasks have distinct keys, newest first.
    pub proof fn tasks_distinct(&self)
        requires
            self.wf(),
        ensures
            forall|i: int, j: int|
                0 <= i < j < self.parked().len() ==> #[trigger] self.parked()[i].0
                    > #[trigger] self.parked()[j].0,
    {
        self.tasks.lemma_keys();
        assert forall|i: int, j: int|
            0 <= i < j < self.parked().len() implies #[trigger] self.parked()[i].0
                > #[trigger] self.parked()[j].0 by {
            assert(self.tasks@[i].0 > self.tasks@[j].0);
        }
    }

    /// Create an empty queue.
    pub fn new() -> (q: Self)
        ensures
            q.wf(),
            q.pending() == 0,
            q.parked() == Seq::<(u64, u8, Option<u64>)>::empty(),
            q.released() == Seq::<u64>::empty(),
            q.next_key() == 0,
    {
        let q = TaskQueue { pending: 0, tasks: List::new(), released: Vec::new() };
        assert(q.parked() =~= Seq::<(u64, u8, Option<u64>)>::empty());
        assert(q.released() =~= Seq::<u64>::empty());
        q
    }

    /// Parks the current task when `should_park` holds, which the caller
    /// evaluated while no task could be unparked. Answers the key of the
    /// queued task, or `None` when the task need not wait.
    pub fn park(&mut self, should_park: bool) -> (r: Option<u64>)
        requires
            old(self).wf(),
            old(self).next_key() < u64::MAX,
            old(self).pending() < usize::MAX,
        ensures
            final(self).wf(),
            !should_park ==> r.is_none() && final(self).pending() == old(self).pending()
                && final(self).parked() == old(self).parked() && final(self).released() == old(
                self,
            ).released() && final(self).next_key() == old(self).next_key(),
            should_park ==> r == Some(old(self).next_key()) && final(self).pending()
                == old(self).pending() + 1 && final(self).parked() == seq![
                (old(self).next_key(), EMPTY, None::<u64>),
            ] + old(self).parked() && final(self).released() == old(self).released()
                && final(self).next_key() == old(self).next_key() + 1,
    {
        self.pending = self.pending + 1;
        if !should_park {
            self.pending = self.pending - 1;
            return None;
        }
        let ghost before = self.tasks@;
        let key = self.tasks.push(Node::new(Task { parked: true, state: EMPTY, waker: None }));
        proof {
            assert(self.parked() =~= seq![(key, EMPTY, None::<u64>)] + old(self).parked());
            assert forall|i: int, j: int|
                0 <= i < self.released@.len() && 0 <= j < self.tasks@.len() implies (
            #[trigger] self.released@[i]).0 != (#[trigger] self.tasks@[j]).0 by {
                if j > 0 {
                    assert(self.tasks@[j] == before[j - 1]);
                }
            }
        }
        Some(key)
    }

    /// Takes the oldest task out of the queue and notifies it, answering the
    /// waker to wake. Does nothing when no task is queued.
    pub fn unpark_one(&mut self) -> (woken: Option<u64>)
        requires
            old(self).wf(),
        ensures
            unparked_one(*old(self), *final(self), woken),
    {
        if self.pending == 0 {
            return None;
        }
        let ghost before = self.tasks@;
        proof {
            self.tasks.lemma_keys();
        }
        match self.tasks.pop() {
            Some((key, node)) => {
                let mut task = node.data;
                assert(task.parked);
                task.parked = false;
                self.pending = self.pending - 1;
                let woken = task.unpark();
                self.released.push((key, task));
                proof {
                    assert(self.parked() =~= old(self).parked().drop_last());
                    assert(self.released() =~= old(self).released().push(key));
                    assert forall|i: int, j: int|
                        0 <= i < self.released@.len() && 0 <= j < self.tasks@.len() implies (
                    #[trigger] self.released@[i]).0 != (#[trigger] self.tasks@[j]).0 by {
                        if i == self.released@.len() - 1 {
                            assert(before[j].0 > before[before.len() - 1].0);
                        } else {
                            assert(self.tasks@[j] == before[j]);
                        }
                    }
                    assert forall|i: int, j: int|
                        0 <= i < j < self.released@.len() implies (#[trigger] self.released@[i]).0
                            != (#[trigger] self.released@[j]).0 by {
                        if j == self.released@.len() - 1 {
                            assert(self.released@[i] == old(self).released@[i]);
                            assert(before[before.len() - 1].0 == key);
                        }
                    }
                }
                woken
            },
            None => None,
        }
    }

    /// Takes every task out of the queue and notifies it, oldest first,
    /// answering for each the waker to wake.
    pub fn unpark_all(&mut self) -> (woken: Vec<Option<u64>>)
        requires
            old(self).wf(),
        ensures
            unparked_all(*old(self), *final(self), woken@),
    {
        let mut woken: Vec<Option<u64>> = Vec::new();
        if self.pending == 0 {
            return woken;
        }
        let ghost before = self.tasks@;
        proof {
            self.tasks.lemma_keys();
        }
        let drained = self.tasks.drain();
        let mut woke: usize = 0;
        let ghost base = self.released@.len();
        while woke < drained.len()
            invariant
                self.tasks.wf(),
                self.tasks@.len() == 0,
                self.tasks.next_key() == old(self).tasks.next_key(),
                drained@.len() == before.len(),
                before == old(self).tasks@,
                old(self).wf(),
                forall|i: int, j: int|
                    0 <= i < j < before.len() ==> #[trigger] before[i].0 > #[trigger] before[j].0,
                forall|i: int| 0 <= i < before.len() ==> #[trigger] before[i].0 < self.tasks.next_key(),
                woke <= drained@.len(),
                woken@.len() == woke,
                self.pending == old(self).pending,
                base == old(self).released@.len(),
                self.released@.len() == base + woke,
                forall|i: int| 0 <= i < base ==> self.released@[i] == old(self).released@[i],
                forall|i: int|
                    0 <= i < drained@.len() ==> (#[trigger] drained@[i].0, drained@[i].1.data)
                        == before[before.len() - 1 - i],
                forall|i: int|
                    0 <= i < woke ==> #[trigger] woken@[i] == woken_by_unpark(
                        task_view(before[before.len() - 1 - i].0, before[before.len() - 1 - i].1),
                    ),
                forall|i: int|
                    0 <= i < woke ==> (#[trigger] self.released@[base + i]).0 == before[before.len()
                        - 1 - i].0,
                forall|i: int|
                    0 <= i < self.released@.len() ==> !(#[trigger] self.released@[i]).1.parked
                        && self.released@[i].1.state == NOTIFIED && self.released@[i].0
                        < self.tasks.next_key(),
            decreases drained@.len() - woke,
        {
            let (key, node) = &drained[woke];
            proof {
                assert((drained@[woke as int].0, drained@[woke as int].1.data) == before[before.len()
                    - 1 - woke]);
                assert(before[before.len() - 1 - woke].0 < self.tasks.next_key());
            }
            let mut task = Task { parked: node.data.parked, state: node.data.state, waker: node.data.waker };
            assert(task.parked);
            task.parked = false;
            let w = task.unpark();
            woken.push(w);
            self.released.push((*key, task));
            woke = woke + 1;
        }
        self.pending = self.pending - woke;
        proof {
            assert(self.parked() =~= Seq::<(u64, u8, Option<u64>)>::empty());
            assert forall|i: int, j: int|
                0 <= i < j < self.released@.len() implies (#[trigger] self.released@[i]).0
                    != (#[trigger] self.released@[j]).0 by {
                if j >= base && i >= base {
                    let a = before.len() - 1 - (i - base);
                    let b = before.len() - 1 - (j - base);
                    assert(self.released@[base + (i - base)].0 == before[a].0);
                    assert(self.released@[base + (j - base)].0 == before[b].0);
                    assert(before[b].0 > before[a].0);
                } else if j >= base {
                    let b = before.len() - 1 - (j - base);
                    assert(self.released@[base + (j - base)].0 == before[b].0);
                    assert(self.released@[i] == old(self).released@[i]);
                    assert(old(self).released@[i].0 != old(self).tasks@[b].0);
                } else {
                    assert(self.released@[i] == old(self).released@[i]);
                    assert(self.released@[j] == old(self).released@[j]);
                }
            }
        }
        woken
    }

    /// Polls the parked task `key`: `Ready` once it was notified, which ends
    /// its wait; otherwise `waker` is registered and the task waits.
    pub fn poll(&mut self, key: u64, waker: u64) -> (r: Poll)
        requires
            old(self).wf(),
            old(self).is_live(key),
        ensures
            final(self).wf(),
            final(self).next_key() == old(self).next_key(),
            final(self).pending() == old(self).pending(),
            old(self).is_parked(key) ==> r == Poll::Pending && final(self).released() == old(
                self,
            ).released() && forall|i: int|
                0 <= i < old(self).parked().len() ==> #[trigger] final(self).parked()[i] == (if old(
                    self,
                ).parked()[i].0 == key {
                    (key, WAITING, Some(waker))
                } else {
                    old(self).parked()[i]
                }),
            old(self).is_parked(key) ==> final(self).parked().len() == old(self).parked().len(),
            !old(self).is_parked(key) ==> r == Poll::Ready && final(self).parked() == old(
                self,
            ).parked() && !final(self).released().contains(key) && final(self).released().len()
                == old(self).released().len() - 1,
    {
        match self.tasks.position(key) {
            Some(i) => {
                let ghost before = self.tasks@;
                proof {
                    self.tasks.lemma_keys();
                }
                let task = self.tasks.data_mut(i);
                let r = task.poll(waker);
                proof {
                    assert forall|j: int|
                        0 <= j < old(self).parked().len() implies #[trigger] self.parked()[j] == (
                        if old(self).parked()[j].0 == key {
                            (key, WAITING, Some(waker))
                        } else {
                            old(self).parked()[j]
                        }) by {
                        if j != i {
                            assert(before[j].0 != before[i as int].0 || j == i);
                        }
                    }
                }
                r
            },
            None => {
                let k = self.released_position(key);
                let (_, mut task) = self.released.remove(k);
                let r = task.poll(waker);
                proof {
                    assert(self.released() =~= old(self).released().remove(k as int));
                    assert forall|j: int| 0 <= j < self.released().len() implies self.released()[j]
                        != key by {
                        if j < k {
                            assert(old(self).released@[j].0 != old(self).released@[k as int].0);
                        } else {
                            assert(old(self).released@[j + 1].0 != old(self).released@[k as int].0);
                        }
                    }
                }
                r
            },
        }
    }

    /// Ends the wait of task `key` early: a queued task leaves the queue, and a
    /// notified task consumes its notification.
    pub fn cancel(&mut self, key: u64)
        requires
            old(self).wf(),
            old(self).is_live(key),
        ensures
            final(self).wf(),
            final(self).next_key() == old(self).next_key(),
            old(self).is_parked(key) ==> final(self).pending() == old(self).pending() - 1
                && final(self).released() == old(self).released() && forall|i: int|
                0 <= i < old(self).parked().len() && (#[trigger] old(self).parked()[i]).0 == key
                    ==> final(self).parked() == old(self).parked().remove(i),
            !old(self).is_parked(key) ==> final(self).pending() == old(self).pending()
                && final(self).parked() == old(self).parked() && !final(self).released().contains(
                key,
            ) && final(self).released().len() == old(self).released().len() - 1,
            !final(self).is_parked(key),
            !final(self).released().contains(key),
    {
        proof {
            self.tasks.lemma_keys();
        }
        let ghost before = self.tasks@;
        match self.tasks.remove(key) {
            Some(node) => {
                assert(node.data.parked) by {
                    let i = choose|i: int|
                        0 <= i < old(self).parked().len() && (#[trigger] old(self).parked()[i]).0
                            == key;
                    if !old(self).is_parked(key) {
                        assert(forall|j: int| 0 <= j < before.len() ==> before[j].0 != key) by {
                            assert forall|j: int| 0 <= j < before.len() implies before[j].0 != key by {
                                assert(old(self).parked()[j].0 == before[j].0);
                            }
                        }
                    }
                    assert(before[i].0 == key);
                    assert(before[i].1.parked);
                }
                self.pending = self.pending - 1;
                proof {
                    let i = choose|i: int| 0 <= i < old(self).parked().len() && (#[trigger] old(self).parked()[i]).0 == key;
                    assert(before[i].0 == key);
                    assert(self.tasks@ == before.remove(i));
                    assert forall|j: int|
                        0 <= j < old(self).parked().len() && (#[trigger] old(self).parked()[j]).0 == key
                            implies self.parked() == old(self).parked().remove(j) by {
                        assert(before[j].0 == key);
                        if j < i {
                            assert(before[j].0 > before[i].0);
                        } else if j > i {
                            assert(before[i].0 > before[j].0);
                        }
                        assert(self.parked() =~= old(self).parked().remove(j));
                    }
                    assert forall|a: int, b: int|
                        0 <= a < self.released@.len() && 0 <= b < self.tasks@.len() implies (
                    #[trigger] self.released@[a]).0 != (#[trigger] self.tasks@[b]).0 by {
                        if b < i {
                            assert(self.tasks@[b] == before[b]);
                        } else {
                            assert(self.tasks@[b] == before[b + 1]);
                        }
                    }
                    assert forall|j: int| 0 <= j < self.parked().len() implies (#[trigger] self.parked()[j]).0 != key by {
                        if j < i {
                            assert(before[j].0 > before[i].0);
                        } else {
                            assert(self.tasks@[j] == before[j + 1]);
                            assert(before[i].0 > before[j + 1].0);
                        }
                    }
                    assert forall|a: int| 0 <= a < self.released().len() implies self.released()[a] != key by {
                        assert(self.released@[a].0 != before[i].0);
                    }
                }
            },
            None => {
                assert(!old(self).is_parked(key)) by {
                    if old(self).is_parked(key) {
                        let i = choose|i: int|
                            0 <= i < old(self).parked().len() && (#[trigger] old(self).parked()[i]).0
                                == key;
                        assert(before[i].0 == key);
                    }
                }
                let k = self.released_position(key);
                let (_, mut task) = self.released.remove(k);
                let _ = task.poll(0);
                proof {
                    assert(self.parked() == old(self).parked());
                    assert(self.released() =~= old(self).released().remove(k as int));
                    assert forall|j: int| 0 <= j < self.released().len() implies self.released()[j]
                        != key by {
                        if j < k {
                            assert(old(self).released@[j].0 != old(self).released@[k as int].0);
                        } else {
                            assert(old(self).released@[j + 1].0 != old(self).released@[k as int].0);
                        }
                    }
                }
            },
        }
    }

    fn released_position(&self, key: u64) -> (k: usize)
        requires
            self.wf(),
            self.released().contains(key),
        ensures
            k < self.released@.len(),
            self.released@[k as int].0 == key,
    {
        let mut k: usize = 0;
        while k < self.released.len()
            invariant
                k <= self.released@.len(),
                self.released().contains(key),
                forall|j: int| 0 <= j < k ==> self.released@[j].0 != key,
            decreases self.released.len() - k,
        {
            if self.released[k].0 == key {
                return k;
            }
            k = k + 1;
        }
        proof {
            let j = choose|j: int| 0 <= j < self.released().len() && self.released()[j] == key;
            assert(self.released@[j].0 == key);
        }
        0
    }
}

/// Tasks are woken in the order they parked: the task that parked first
/// among those queued is the one that the next wake takes out, and its
/// registered waker is the one answered.
pub proof fn lemma_oldest_is_woken(q: TaskQueue, new: TaskQueue, woken: Option<u64>)
    requires
        q.wf(),
        q.parked().len() > 0,
        q.parked().last().1 == WAITING,
        unparked_one(q, new, woken),
    ensures
        woken == q.parked().last().2,
        new.released().last() == q.parked().last().0,
        !new.is_parked(q.parked().last().0),
{
    let n = q.parked().len();
    assert(q.pending() == n) by {
        assert(q.tasks@.len() == n);
    }
    q.tasks_distinct();
    if new.is_parked(q.parked().last().0) {
        let j = choose|j: int| 0 <= j < new.parked().len() && (#[trigger] new.parked()[j]).0 == q.parked().last().0;
        assert(new.parked()[j] == q.parked()[j]);
        assert(q.parked()[j].0 > q.parked()[n - 1].0);
    }
}

} // verus!
