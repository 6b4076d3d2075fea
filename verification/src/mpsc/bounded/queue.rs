//! A bounded ring buffer for many producers and one consumer: producers take a
//! permit from a semaphore, then claim a position with a counter.
use crate::raw::ring::{
    lemma_ring_count, lemma_ring_offset, lemma_ring_size, lemma_ring_step, ring_advance,
    ring_count, ring_offset, ring_slot,
};
use crate::raw::util::{ceil_pow2, next_power_of_two, CachePadded};
use vstd::prelude::*;

pub mod atomic;
pub mod portable;

verus! {

/// A slot: a value and whether it has been stored.
pub struct Slot<T> {
    stored: bool,
    value: Option<T>,
}

/// A bounded queue of values for many producers and one consumer.
pub struct Queue<T> {
    sema: CachePadded<atomic::Semaphore>,
    tail: CachePadded<atomic::Counter>,
    head: CachePadded<usize>,
    slots: Vec<Slot<T>>,
    order: Ghost<usize>,
}

impl<T> Queue<T> {
    /// The number of values the queue can hold.
    pub closed spec fn capacity(&self) -> nat {
        self.slots@.len()
    }

    /// The tail counter has room for one more step.
    pub closed spec fn can_advance(&self) -> bool {
        self.tail.0.0 + 1 < usize::MAX
    }

    /// How many more pushes the tail counter has room for.
    pub closed spec fn room(&self) -> int {
        usize::MAX - 1 - self.tail.0.0
    }

    /// The tail counter has room for one more step exactly when `room` is positive.
    pub proof fn lemma_room(&self)
        ensures
            self.can_advance() <==> self.room() >= 1,
    {
    }

    /// A queue holds at most its capacity.
    pub proof fn lemma_len(&self)
        requires
            self.wf(),
        ensures
            self.view().len() <= self.capacity(),
    {
    }

    /// The number of values in the queue.
    pub closed spec fn count(&self) -> usize {
        ring_count(self.head.0, self.tail.0.0)
    }

    pub closed spec fn wf(&self) -> bool {
        let k = self.order@;
        let n = self.slots@.len();
        &&& k < usize::BITS
        &&& n == (1usize << k)
        &&& n <= isize::MAX
        &&& self.head.0 <= self.tail.0.0
        &&& self.tail.0.0 < usize::MAX
        &&& self.count() <= n
        &&& self.sema.0.0 == n - self.count()
        &&& forall|i: int|
            0 <= i < n ==> (#[trigger] self.slots@[i].stored == (ring_offset(i as usize, self.head.0, k)
                < self.count())) && (self.slots@[i].value is Some == self.slots@[i].stored)
    }

    /// The values in the queue, oldest first.
    pub closed spec fn view(&self) -> Seq<T> {
        Seq::new(
            self.count() as nat,
            |j: int| self.slots@[ring_slot(ring_advance(self.head.0, j), self.order@) as int].value->Some_0,
        )
    }

    /// Creates a queue with room for `capacity` values, rounded up to a power of two.
    pub fn new(capacity: usize) -> (q: Queue<T>)
        requires
            capacity <= isize::MAX / 2 + 1,
        ensures
            q.wf(),
            q.view() == Seq::<T>::empty(),
            q.capacity() >= capacity,
            q.capacity() == ceil_pow2(capacity as int),
            q.can_advance(),
            q.room() == usize::MAX - 1,
    {
        let (capacity, k) = next_power_of_two(capacity);
        let mut slots: Vec<Slot<T>> = Vec::new();
        let mut i: usize = 0;
        while i < capacity
            invariant
                i <= capacity,
                slots@.len() == i,
                forall|j: int| 0 <= j < i ==> !slots@[j].stored && slots@[j].value is None,
            decreases capacity - i,
        {
            slots.push(Slot { stored: false, value: None });
            i = i + 1;
        }
        let q = Queue {
            sema: CachePadded(atomic::Semaphore::new(capacity)),
            tail: CachePadded(atomic::Counter(0)),
            head: CachePadded(0),
            slots,
            order: Ghost(k),
        };
        assert(q.view() =~= Seq::<T>::empty());
        q
    }

    /// Appends `value`, or hands it back when no permit is left (the queue is full).
    pub fn push(&mut self, value: T) -> (r: Result<(), T>)
        requires
            old(self).wf(),
            old(self).can_advance(),
        ensures
            final(self).wf(),
            final(self).capacity() == old(self).capacity(),
            final(self).room() >= old(self).room() - 1,
            old(self).view().len() < old(self).capacity() ==> r is Ok && final(self).view()
                == old(self).view().push(value),
            old(self).view().len() == old(self).capacity() ==> r == Err::<(), T>(value)
                && *final(self) == *old(self),
    {
        if !self.sema.0.try_acquire() {
            return Err(value);
        }
        let ghost k = self.order@;
        let ghost h = self.head.0;
        let ghost c = self.count();
        proof {
            lemma_ring_size(k);
            assert(c < (1usize << k));
        }
        let pos = self.tail.0.fetch_inc();
        let index = pos & (self.slots.len() - 1);
        proof {
            lemma_ring_offset(pos, 0, 0, k);
            lemma_ring_offset(h, c, 0, k);
        }
        self.slots.set(index, Slot { stored: true, value: Some(value) });
        proof {
            assert(ring_advance(h, c as int) == pos);
            assert forall|i: int| 0 <= i < self.slots@.len() implies (#[trigger] self.slots@[i].stored
                == (ring_offset(i as usize, self.head.0, k) < self.count())) && (self.slots@[i].value is Some
                == self.slots@[i].stored) by {
                assert(i < (1usize << k));
                lemma_ring_offset(h, c, i as usize, k);
            }
            assert forall|j: int| 0 <= j < self.count() implies self.view()[j] == old(self).view().push(value)[j] by {
                lemma_ring_offset(h, j as usize, 0, k);
                let x = ring_slot(ring_advance(h, j), k);
                lemma_ring_offset(ring_advance(h, j), 0, 0, k);
                assert(ring_offset(x, h, k) == j);
                if j < c {
                    assert(x != index);
                    assert(self.slots@[x as int] == old(self).slots@[x as int]);
                } else {
                    assert(x == index);
                }
            }
            assert(self.view() =~= old(self).view().push(value));
        }
        Ok(())
    }

    /// Whether a permit is available.
    pub fn can_push(&self) -> (r: bool)
        requires
            self.wf(),
        ensures
            r == (self.view().len() < self.capacity()),
    {
        self.sema.0.can_push()
    }

    /// Whether the queue holds no value.
    pub fn is_empty(&self) -> (r: bool)
        requires
            self.wf(),
        ensures
            r == (self.view().len() == 0),
    {
        self.head.0 == self.tail.0.load()
    }

    /// Removes the oldest value, if its slot has been stored.
    pub fn pop(&mut self) -> (r: Option<T>)
        requires
            old(self).wf(),
        ensures
            final(self).wf(),
            final(self).capacity() == old(self).capacity(),
            final(self).can_advance() == old(self).can_advance(),
            final(self).room() == old(self).room(),
            old(self).view().len() == 0 ==> r is None && *final(self) == *old(self),
            old(self).view().len() > 0 ==> r == Some(old(self).view()[0]) && final(self).view()
                == old(self).view().drop_first(),
    {
        let ghost k = self.order@;
        let ghost h = self.head.0;
        let ghost c = self.count();
        proof {
            lemma_ring_size(k);
        }
        let pos = self.head.0;
        let index = pos & (self.slots.len() - 1);
        proof {
            lemma_ring_offset(pos, 0, 0, k);
            lemma_ring_offset(h, 0, index, k);
            assert(ring_offset(index, h, k) == 0);
        }
        if !self.slots[index].stored {
            return None;
        }
        let mut slot = Slot { stored: false, value: None };
        std::mem::swap(&mut slot, &mut self.slots[index]);
        let value = slot.value;
        self.sema.0.release();
        self.head.0 = pos.wrapping_add(1);
        proof {
            lemma_ring_count(h, self.tail.0.0, k);
            assert forall|i: int| 0 <= i < self.slots@.len() implies (#[trigger] self.slots@[i].stored
                == (ring_offset(i as usize, self.head.0, k) < self.count())) && (self.slots@[i].value is Some
                == self.slots@[i].stored) by {
                lemma_ring_step(h, i as usize, k);
                lemma_ring_offset(h, 0, i as usize, k);
            }
            assert forall|j: int| 0 <= j < self.count() implies self.view()[j] == old(self).view().drop_first()[j] by {
                lemma_ring_offset(h, (j + 1) as usize, 0, k);
                let x = ring_slot(ring_advance(h, j + 1), k);
                lemma_ring_offset(ring_advance(h, j + 1), 0, 0, k);
                assert(ring_advance(self.head.0, j) == ring_advance(h, j + 1));
                assert(ring_offset(x, h, k) == j + 1);
                assert(x != index);
                assert(self.slots@[x as int] == old(self).slots@[x as int]);
            }
            assert(self.view() =~= old(self).view().drop_first());
        }
        value
    }
}

} // verus!
