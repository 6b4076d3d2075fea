//! A bounded queue for one producer and many consumers. Each slot carries a
//! stamp: the position that may write it next, or one past the position that
//! wrote it. Positions carry their cycle in the bits above the index.
use crate::channels::spsc::bounded::ring_add;
use crate::raw::ring::{lemma_cycle_join, lemma_cycle_next, lemma_cycle_split, lemma_next_pow2_of_pow2, lemma_ring_size};
use crate::raw::util::{compare_exchange_usize, is_valid_capacity, next_power_of_two, spin_rounds, CachePadded};
use vstd::prelude::*;

verus! {

const MAX_BACKOFF: usize = 6;

/// A slot in the queue.
pub struct Slot<T> {
    // The current stamp.
    stamp: usize,
    // The value in this slot.
    value: Option<T>,
}

/// A bounded single-producer multi-consumer queue.
pub struct Queue<T> {
    // The head/tail of the queue, with the current cycle packed into the upper bits.
    head: CachePadded<usize>,
    tail: CachePadded<usize>,
    // The slots.
    slots: Vec<Slot<T>>,
    // A single cycle around the queue.
    one_cycle: usize,
    order: Ghost<usize>,
}

impl<T> Queue<T> {
    /// The span of one cycle of positions.
    pub closed spec fn cycle_len(&self) -> usize {
        self.one_cycle
    }

    pub closed spec fn tail_pos(&self) -> usize {
        self.tail.0
    }

    pub closed spec fn mask(&self) -> usize {
        (self.one_cycle - 1) as usize
    }

    /// Cycle part of a counter.
    pub closed spec fn cyc(&self, x: usize) -> int {
        (x & !self.mask()) as int
    }

    /// Index part of a counter.
    pub closed spec fn idx(&self, x: usize) -> int {
        (x & self.mask()) as int
    }

    /// The number of values the queue can hold.
    pub closed spec fn capacity(&self) -> nat {
        self.slots@.len()
    }

    pub closed spec fn len(&self) -> int {
        let cap = self.slots@.len() as int;
        if self.cyc(self.tail.0) == self.cyc(self.head.0) {
            self.idx(self.tail.0) - self.idx(self.head.0)
        } else {
            self.idx(self.tail.0) + cap - self.idx(self.head.0)
        }
    }

    /// Offset of slot `i` from the head's slot.
    pub closed spec fn offset(&self, i: int) -> int {
        let hi = self.idx(self.head.0);
        if i >= hi { i - hi } else { i + self.slots@.len() - hi }
    }

    /// The position that wrote slot `i`, when it is occupied.
    pub closed spec fn written_at(&self, i: int) -> int {
        if i >= self.idx(self.head.0) {
            self.cyc(self.head.0) + i
        } else {
            self.cyc(self.head.0) + self.one_cycle + i
        }
    }

    /// The position that will write slot `i` next, when it is vacant.
    pub closed spec fn next_write(&self, i: int) -> int {
        if i >= self.idx(self.tail.0) {
            self.cyc(self.tail.0) + i
        } else {
            self.cyc(self.tail.0) + self.one_cycle + i
        }
    }

    /// The counters have room for one more cycle.
    pub open spec fn can_advance(&self) -> bool {
        self.tail_pos() + 3 * self.cycle_len() <= usize::MAX
    }

    pub closed spec fn wf(&self) -> bool {
        let k = self.order@;
        let cap = self.slots@.len() as int;
        let h = self.head.0;
        let t = self.tail.0;
        &&& k < usize::BITS
        &&& self.one_cycle == (1usize << k)
        &&& self.one_cycle == 2 * cap
        &&& cap >= 1
        &&& self.idx(h) < cap
        &&& self.idx(t) < cap
        &&& h == self.cyc(h) + self.idx(h)
        &&& t == self.cyc(t) + self.idx(t)
        &&& (self.cyc(t) == self.cyc(h) && self.idx(h) <= self.idx(t)) || (self.cyc(t) == self.cyc(h)
            + self.one_cycle && self.idx(t) <= self.idx(h))
        &&& t + 2 * self.one_cycle <= usize::MAX
        &&& forall|i: int| 0 <= i < cap ==> #[trigger] self.slot_ok(i)
    }

    /// Slot `i` is stamped by the position that wrote it, or the one that will.
    pub closed spec fn slot_ok(&self, i: int) -> bool {
        if self.offset(i) < self.len() {
            self.slots@[i].stamp == self.written_at(i) + 1 && self.slots@[i].value is Some
        } else {
            self.slots@[i].stamp == self.next_write(i) && self.slots@[i].value is None
        }
    }

    /// The values in the queue, oldest first.
    pub closed spec fn view(&self) -> Seq<T> {
        Seq::new(
            self.len() as nat,
            |j: int| self.slots@[ring_add(self.idx(self.head.0), j, self.slots@.len() as int)].value->Some_0,
        )
    }

    /// Creates a queue that holds at most `capacity` values.
    pub fn new(capacity: usize) -> (q: Queue<T>)
        requires
            is_valid_capacity(capacity),
            capacity <= usize::MAX / 8,
        ensures
            q.wf(),
            q.capacity() == capacity,
            q.view() == Seq::<T>::empty(),
            q.tail_pos() == 0,
            q.cycle_len() == 2 * capacity,
            q.can_advance(),
    {
        crate::raw::util::assert_valid_capacity(capacity);
        let (one_cycle, k) = next_power_of_two(capacity + 1);
        proof {
            lemma_ring_size(k);
            lemma_next_pow2_of_pow2(capacity, one_cycle);
            lemma_cycle_split(0, k);
        }
        let mut slots: Vec<Slot<T>> = Vec::new();
        let mut i: usize = 0;
        while i < capacity
            invariant
                i <= capacity,
                slots@.len() == i,
                // set the stamp equal to the tail index that will write to it
                forall|j: int| 0 <= j < i ==> slots@[j].stamp == j && slots@[j].value is None,
            decreases capacity - i,
        {
            slots.push(Slot { stamp: i, value: None });
            i = i + 1;
        }
        let q = Queue {
            slots,
            // a cycle is the smallest power of two greater than `cap`
            one_cycle,
            head: CachePadded(0),
            tail: CachePadded(0),
            order: Ghost(k),
        };
        assert(q.view() =~= Seq::<T>::empty());
        q
    }

    /// Whether the slot at the tail is free for the tail to write.
    pub fn can_push(&self) -> (r: bool)
        requires
            self.wf(),
        ensures
            r == (self.view().len() < self.capacity()),
    {
        // load the current tail
        let tail = self.tail.0;
        let tail_index = tail & (self.one_cycle - 1);
        proof {
            lemma_ring_size(self.order@);
            lemma_cycle_split(tail, self.order@);
            assert(self.slot_ok(tail_index as int));
        }
        // load the associated slot
        let stamp = self.slots[tail_index].stamp;
        // if the tail and slot match, we can push
        tail == stamp
    }

    /// Appends `value`, or hands it back if the queue is full.
    pub fn push(&mut self, value: T) -> (r: Result<(), T>)
        requires
            old(self).wf(),
            old(self).can_advance(),
        ensures
            final(self).wf(),
            final(self).capacity() == old(self).capacity(),
            final(self).cycle_len() == old(self).cycle_len(),
            final(self).tail_pos() <= old(self).tail_pos() + old(self).cycle_len(),
            old(self).view().len() < old(self).capacity() ==> r is Ok && final(self).view()
                == old(self).view().push(value),
            old(self).view().len() == old(self).capacity() ==> r == Err::<(), T>(value)
                && *final(self) == *old(self),
    {
        let ghost k = self.order@;
        let ghost pre = *self;
        let mut backoff = 0usize;
        let mut tail = self.tail.0;
        loop
            invariant
                *self == pre,
                pre == *old(self),
                pre.wf(),
                pre.can_advance(),
                tail == pre.tail.0,
                k == pre.order@,
            decreases 1nat,
        {
            proof {
                lemma_ring_size(k);
                lemma_cycle_split(tail, k);
            }
            let tail_index = tail & (self.one_cycle - 1);
            let tail_cycle = tail & !(self.one_cycle - 1);
            let next_tail = if tail_index + 1 < self.slots.len() {
                // same cycle, increment the index
                tail + 1
            } else {
                // move to the next cycle
                tail_cycle.wrapping_add(self.one_cycle)
            };
            proof {
                assert(pre.slot_ok(tail_index as int));
            }
            let stamp = self.slots[tail_index].stamp;
            // if the tail and the stamp match, we can push
            if tail == stamp {
                // move the tail
                self.tail.0 = next_tail;
                // write the value into the slot
                self.slots.set(tail_index, Slot { stamp: tail + 1, value: Some(value) });
                proof {
                    lemma_after_push(*self, pre, value);
                }
                return Ok(());
            }
            // if the stamp is from the previous cycle, the queue is probably full
            else if stamp.wrapping_add(self.one_cycle) == tail + 1 {
                let head = self.head.0;
                // the head is also a cycle behind the tail, the queue is full
                if head.wrapping_add(self.one_cycle) == tail {
                    return Err(value);
                }
                // otherwise, the reader moved the head forward but hasn't
                // read the value yet: spin, waiting for it to update the stamp
                backoff = if backoff + 1 > MAX_BACKOFF { backoff + 1 } else { MAX_BACKOFF };
                spin_rounds(if backoff > 64 { 64 } else { backoff });
                tail = self.tail.0;
            } else {
                // another writer beat us to the slot: load the new tail and retry
                tail = self.tail.0;
            }
        }
    }

    /// Removes the oldest value, if any.
    pub fn pop(&mut self) -> (r: Option<T>)
        requires
            old(self).wf(),
        ensures
            final(self).wf(),
            final(self).capacity() == old(self).capacity(),
            final(self).cycle_len() == old(self).cycle_len(),
            final(self).tail_pos() == old(self).tail_pos(),
            old(self).view().len() == 0 ==> r is None && *final(self) == *old(self),
            old(self).view().len() > 0 ==> r == Some(old(self).view()[0]) && final(self).view()
                == old(self).view().drop_first(),
    {
        let ghost k = self.order@;
        let ghost pre = *self;
        let mut backoff = 0usize;
        let mut head = self.head.0;
        loop
            invariant
                *self == pre,
                pre == *old(self),
                pre.wf(),
                head == pre.head.0,
                k == pre.order@,
            decreases 1nat,
        {
            proof {
                lemma_ring_size(k);
                lemma_cycle_split(head, k);
            }
            let head_index = head & (self.one_cycle - 1);
            let head_cycle = head & !(self.one_cycle - 1);
            proof {
                assert(pre.slot_ok(head_index as int));
            }
            let stamp = self.slots[head_index].stamp;
            // if the stamp is ahead of the head by one, we can pop
            if head + 1 == stamp {
                let new = if head_index + 1 < self.slots.len() {
                    // same cycle, increment the index
                    head + 1
                } else {
                    // move to the next cycle
                    head_cycle.wrapping_add(self.one_cycle)
                };
                // try moving the head
                match compare_exchange_usize(&mut self.head.0, head, new) {
                    Ok(_) => {
                        // we claimed this slot: read the value and update the
                        // stamp for the next cycle's writer
                        let mut slot = Slot { stamp: head.wrapping_add(self.one_cycle), value: None };
                        std::mem::swap(&mut slot, &mut self.slots[head_index]);
                        proof {
                            lemma_after_pop(*self, pre);
                        }
                        return slot.value;
                    },
                    Err(found) => {
                        // someone else beat us, try again
                        head = found;
                        continue ;
                    },
                }
            }
            // the stamp is from the previous reader, the channel is probably empty
            else if stamp == head {
                let tail = self.tail.0;
                // the tail is equal to the head, the channel is empty
                if tail == head {
                    return None;
                }
                // otherwise, the writer moved the tail forward but hasn't
                // written the value yet: spin, waiting for it to update the stamp
                backoff = if backoff + 1 > MAX_BACKOFF { backoff + 1 } else { MAX_BACKOFF };
                spin_rounds(if backoff > 64 { 64 } else { backoff });
                head = self.head.0;
            } else {
                // another reader beat us to the slot: load the new head and retry
                head = self.head.0;
            }
        }
    }
}

/// Writing the tail's slot and moving the tail one position appends `value`.
proof fn lemma_after_push<T>(post: Queue<T>, pre: Queue<T>, value: T)
    requires
        pre.wf(),
        pre.can_advance(),
        pre.len() < pre.capacity(),
        post.head == pre.head,
        post.one_cycle == pre.one_cycle,
        post.order == pre.order,
        post.slots@ == pre.slots@.update(
            pre.idx(pre.tail.0),
            Slot { stamp: (pre.tail.0 + 1) as usize, value: Some(value) },
        ),
        post.tail.0 == (if pre.idx(pre.tail.0) + 1 < pre.capacity() {
            pre.tail.0 + 1
        } else {
            pre.cyc(pre.tail.0) + pre.one_cycle
        }),
    ensures
        post.wf(),
        post.view() == pre.view().push(value),
        post.tail.0 <= pre.tail.0 + pre.one_cycle,
{
    let k = pre.order@;
    let t = pre.tail.0;
    let ti = pre.idx(t);
    let tc = pre.cyc(t);
    lemma_ring_size(k);
    lemma_cycle_split(t, k);
    lemma_cycle_split(pre.head.0, k);
    lemma_cycle_split(post.tail.0, k);
    if ti + 1 < pre.capacity() {
        lemma_cycle_join(tc as usize, (ti + 1) as usize, k);
    } else {
        lemma_cycle_next(tc as usize, k);
        lemma_cycle_join((tc + pre.one_cycle) as usize, 0, k);
    }
    assert(post.len() == pre.len() + 1);
    assert forall|i: int| 0 <= i < post.capacity() implies #[trigger] post.slot_ok(i) by {
        assert(pre.slot_ok(i));
        if i != ti {
            assert(post.slots@[i] == pre.slots@[i]);
        }
    }
    assert forall|j: int| 0 <= j < post.view().len() implies post.view()[j] == pre.view().push(
        value,
    )[j] by {
        if j < pre.len() {
            assert(ring_add(pre.idx(pre.head.0), j, pre.capacity() as int) != ti);
        }
    }
    assert(post.view() =~= pre.view().push(value));
}

/// Clearing the head's slot for the next cycle and moving the head removes the oldest value.
proof fn lemma_after_pop<T>(post: Queue<T>, pre: Queue<T>)
    requires
        pre.wf(),
        pre.len() > 0,
        post.tail == pre.tail,
        post.one_cycle == pre.one_cycle,
        post.order == pre.order,
        post.slots@ == pre.slots@.update(
            pre.idx(pre.head.0),
            Slot { stamp: (pre.head.0 + pre.one_cycle) as usize, value: None },
        ),
        post.head.0 == (if pre.idx(pre.head.0) + 1 < pre.capacity() {
            pre.head.0 + 1
        } else {
            pre.cyc(pre.head.0) + pre.one_cycle
        }),
    ensures
        post.wf(),
        post.view() == pre.view().drop_first(),
{
    let k = pre.order@;
    let h = pre.head.0;
    let hi = pre.idx(h);
    let hc = pre.cyc(h);
    lemma_ring_size(k);
    lemma_cycle_split(h, k);
    lemma_cycle_split(pre.tail.0, k);
    lemma_cycle_split(post.head.0, k);
    if hi + 1 < pre.capacity() {
        lemma_cycle_join(hc as usize, (hi + 1) as usize, k);
    } else {
        lemma_cycle_next(hc as usize, k);
        lemma_cycle_join((hc + pre.one_cycle) as usize, 0, k);
    }
    let cap = pre.capacity() as int;
    assert(post.idx(post.head.0) == (if hi + 1 < cap { hi + 1 } else { 0 }));
    assert(post.cyc(post.head.0) == (if hi + 1 < cap { hc } else { hc + pre.one_cycle }));
    assert(post.len() == pre.len() - 1);
    assert(post.idx(post.head.0) < post.capacity());
    assert(post.head.0 == post.cyc(post.head.0) + post.idx(post.head.0));
    assert((post.cyc(post.tail.0) == post.cyc(post.head.0) && post.idx(post.head.0) <= post.idx(post.tail.0)) || (post.cyc(post.tail.0) == post.cyc(post.head.0)
            + post.one_cycle && post.idx(post.tail.0) <= post.idx(post.head.0)));
    assert forall|i: int| 0 <= i < post.capacity() implies #[trigger] post.slot_ok(i) by {
        assert(pre.slot_ok(i));
        if i != hi {
            assert(post.slots@[i] == pre.slots@[i]);
            assert(pre.offset(i) < pre.len() ==> pre.slots@[i].stamp == pre.written_at(i) + 1);
            assert(pre.offset(i) >= pre.len() ==> pre.slots@[i].stamp == pre.next_write(i));
            assert(post.offset(i) == pre.offset(i) - 1);
            assert(post.written_at(i) == pre.written_at(i));
            assert(post.next_write(i) == pre.next_write(i));
        } else {
            assert(post.offset(i) == cap - 1);
            assert(post.next_write(i) == h + pre.one_cycle);
            assert(post.slots@[i].stamp == ((h + pre.one_cycle) as usize));
            assert(((h + pre.one_cycle) as usize) == h + pre.one_cycle);
        }
    }
    assert forall|j: int| 0 <= j < post.view().len() implies post.view()[j]
        == pre.view().drop_first()[j] by {
        assert(ring_add(post.idx(post.head.0), j, pre.capacity() as int) == ring_add(hi, j + 1, pre.capacity() as int));
    }
    assert(post.order@ < usize::BITS);
    assert(post.one_cycle == (1usize << post.order@));
    assert(post.one_cycle == 2 * post.capacity());
    assert(post.idx(post.tail.0) < post.capacity());
    assert(post.tail.0 == post.cyc(post.tail.0) + post.idx(post.tail.0));
    assert(post.tail.0 + 2 * post.one_cycle <= usize::MAX);
    assert(post.view() =~= pre.view().drop_first());
}

} // verus!
