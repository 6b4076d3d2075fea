//! A bounded queue built on two queues of slot indices.
use crate::raw::slot_word::{
    idx_mask, lemma_advance_word, lemma_clear_word, lemma_cycle_word_eq, lemma_cycle_word_older,
    lemma_find_order, lemma_double_capacity, lemma_order_bounds, lemma_first_cycle, lemma_initial_word, lemma_lex_order, lemma_same_slot_order,
    lemma_small_distance, lemma_slot_bound, lemma_slot_period, lemma_span, lemma_store_word, lemma_vacant_word, lemma_window,
    lemma_window_slot, lex_before, pos_gen, pos_slot, position_limit, span, window_pos,
    word_gen, word_idx, cyc_mask,
};
use crate::raw::util::{spin_rounds, compare_exchange, compare_exchange_at, wrapping_diff, wrapping_sub_signed, CachePadded};
use vstd::prelude::*;

verus! {

/// Capacities must stay below this bound.
pub const MAX_CAPACITY: usize = 0xffff_ffff;

/// A bounded queue built on two index queues: `free` holds the unused slots
/// and `elements` the slots holding values, in the order they were pushed.
pub struct Queue<T> {
    free: IndexQueue,
    elements: IndexQueue,
    slots: Vec<Option<T>>,
}

impl<T> Queue<T> {
    /// The number of values the queue can hold.
    pub closed spec fn capacity(&self) -> nat {
        self.slots@.len()
    }

    /// Both index queues have room for one more step.
    pub closed spec fn can_advance(&self) -> bool {
        self.free.can_advance() && self.elements.can_advance()
    }

    /// How many more pushes and pops the position counters have room for.
    pub closed spec fn room(&self) -> int {
        let f = position_limit() - 1 - self.free.tail_pos();
        let e = position_limit() - 1 - self.elements.tail_pos();
        if f < e {
            f
        } else {
            e
        }
    }

    /// A queue holds at most its capacity.
    pub proof fn lemma_len(&self)
        requires
            self.wf(),
        ensures
            self.view().len() <= self.capacity(),
    {
    }

    /// The counters have room for one more step exactly when `room` is positive.
    pub proof fn lemma_room(&self)
        ensures
            self.can_advance() <==> self.room() >= 1,
    {
    }

    pub closed spec fn wf(&self) -> bool {
        let n = self.slots@.len();
        let free = self.free.view();
        let used = self.elements.view();
        &&& n <= 0x8000_0000
        &&& self.free.wf()
        &&& self.elements.wf()
        &&& self.free.capacity() == n
        &&& self.elements.capacity() == n
        &&& free.len() + used.len() == n
        &&& free.no_duplicates()
        &&& used.no_duplicates()
        &&& forall|i: int| 0 <= i < free.len() ==> free[i] < n
        &&& forall|i: int| 0 <= i < used.len() ==> used[i] < n
        &&& forall|i: int, j: int|
            0 <= i < free.len() && 0 <= j < used.len() ==> free[i] != used[j]
        &&& forall|i: int| 0 <= i < n ==> (#[trigger] self.slots@[i] is Some <==> used.contains(i as usize))
    }

    /// The values in the queue, oldest first.
    pub closed spec fn view(&self) -> Seq<T> {
        self.elements.view().map_values(|i: usize| self.slots@[i as int]->Some_0)
    }

    /// Creates a queue that holds at most `capacity` values.
    pub fn new(capacity: usize) -> (q: Queue<T>)
        requires
            crate::raw::util::is_valid_capacity(capacity),
            capacity < MAX_CAPACITY,
            capacity * 2 <= usize::MAX,
        ensures
            q.wf(),
            q.view() == Seq::<T>::empty(),
            q.capacity() == capacity,
            q.can_advance(),
            q.room() >= 0x2000_0000_0000_0000,
    {
        crate::raw::util::assert_valid_capacity(capacity);
        proof {
            crate::raw::util::lemma_capacity_bound(capacity);
        }
        let mut slots: Vec<Option<T>> = Vec::new();
        let mut i: usize = 0;
        while i < capacity
            invariant
                i <= capacity,
                slots@.len() == i,
                forall|j: int| 0 <= j < i ==> slots@[j] is None,
            decreases capacity - i,
        {
            slots.push(None);
            i = i + 1;
        }
        let q = Queue { slots, free: IndexQueue::full(capacity), elements: IndexQueue::empty(capacity) };
        assert(q.free.view().no_duplicates());
        q
    }

    /// Appends `value`, or hands it back if the queue is full.
    pub fn push(&mut self, value: T) -> (r: Result<(), T>)
        requires
            old(self).wf(),
            old(self).can_advance(),
        ensures
            final(self).wf(),
            final(self).capacity() == old(self).capacity(),
            final(self).room() >= old(self).room() - 1,
            old(self).view().len() < old(self).capacity() ==> r is Ok && final(self).view()
                == old(self).view().push(value),
            old(self).view().len() == old(self).capacity() ==> r == Err::<(), T>(value)
                && final(self).view() == old(self).view(),
    {
        let ghost free0 = self.free.view();
        let ghost used0 = self.elements.view();
        let ghost n = self.slots@.len();
        match self.free.pop() {
            Some(elem) => {
                proof {
                    assert(free0.contains(elem));
                    assert(!used0.contains(elem));
                }
                self.slots.set(elem, Some(value));
                self.elements.push(elem);
                proof {
                    let free1 = self.free.view();
                    let used1 = self.elements.view();
                    assert(free1 =~= free0.drop_first());
                    assert(used1 =~= used0.push(elem));
                    assert forall|i: int| 0 <= i < free1.len() implies free1[i] != elem by {
                        assert(free1[i] == free0[i + 1]);
                    }
                    assert forall|i: int|
                        0 <= i < n implies (#[trigger] self.slots@[i] is Some
                        <==> used1.contains(i as usize)) by {
                        if i == elem as int {
                            assert(used1[used0.len() as int] == elem);
                        } else {
                            assert(old(self).slots@[i] == self.slots@[i]);
                            if used0.contains(i as usize) {
                                let j = choose|j: int| 0 <= j < used0.len() && used0[j] == i as usize;
                                assert(used1[j] == i as usize);
                            }
                            if used1.contains(i as usize) {
                                let j = choose|j: int| 0 <= j < used1.len() && used1[j] == i as usize;
                                assert(j < used0.len());
                            }
                        }
                    }
                    assert forall|j: int| 0 <= j < used0.len() implies used0[j] != elem by {}
                    assert(self.view() =~= old(self).view().push(value));
                }
                Ok(())
            },
            None => {
                proof {
                    assert(self.free.view() =~= free0);
                }
                Err(value)
            },
        }
    }

    /// Removes the oldest value, if any.
    pub fn pop(&mut self) -> (r: Option<T>)
        requires
            old(self).wf(),
            old(self).can_advance(),
        ensures
            final(self).wf(),
            final(self).capacity() == old(self).capacity(),
            final(self).room() >= old(self).room() - 1,
            old(self).view().len() == 0 ==> r is None && final(self).view() == old(self).view(),
            old(self).view().len() > 0 ==> r == Some(old(self).view()[0]) && final(self).view()
                == old(self).view().drop_first(),
    {
        let ghost free0 = self.free.view();
        let ghost used0 = self.elements.view();
        let ghost n = self.slots@.len();
        let elem = match self.elements.pop() {
            Some(elem) => elem,
            None => {
                proof {
                    assert(self.elements.view() =~= used0);
                }
                return None;
            },
        };
        proof {
            assert(used0.contains(elem));
            assert(!free0.contains(elem));
        }
        let mut value = None;
        std::mem::swap(&mut value, &mut self.slots[elem]);
        self.free.push(elem);
        proof {
            let free1 = self.free.view();
            let used1 = self.elements.view();
            assert(free1 =~= free0.push(elem));
            assert(used1 =~= used0.drop_first());
            assert forall|i: int| 0 <= i < used1.len() implies used1[i] != elem by {
                assert(used1[i] == used0[i + 1]);
            }
            assert forall|i: int|
                0 <= i < n implies (#[trigger] self.slots@[i] is Some <==> used1.contains(
                i as usize,
            )) by {
                if i != elem as int {
                    assert(old(self).slots@[i] == self.slots@[i]);
                    if used0.contains(i as usize) {
                        let j = choose|j: int| 0 <= j < used0.len() && used0[j] == i as usize;
                        assert(used0[0] == elem);
                        assert(j > 0);
                        assert(used1[j - 1] == i as usize);
                    }
                    if used1.contains(i as usize) {
                        let j = choose|j: int| 0 <= j < used1.len() && used1[j] == i as usize;
                        assert(used0[j + 1] == i as usize);
                    }
                }
            }
            assert forall|j: int| 0 <= j < free0.len() implies free0[j] != elem by {}
            assert(self.view() =~= old(self).view().drop_first()) by {
                assert forall|j: int| 0 <= j < used1.len() implies self.slots@[used1[j] as int]
                    == old(self).slots@[used1[j] as int] by {
                    assert(used1[j] == used0[j + 1]);
                }
            }
        }
        value
    }

    /// Whether a value can be pushed without the queue being full.
    pub fn can_push(&self) -> (r: bool)
        requires
            self.wf(),
        ensures
            r == (self.view().len() < self.capacity()),
    {
        self.free.can_pop()
    }

    /// Whether a value can be popped.
    pub fn can_pop(&self) -> (r: bool)
        requires
            self.wf(),
        ensures
            r == (self.view().len() > 0),
    {
        self.elements.can_pop()
    }
}

/// How many times a reader spins on a vacant slot before moving its cycle on.
const SPIN_LIMIT: usize = 6;

/// The all-ones word: a vacant, safe slot from before the first cycle.
pub const INIT: u64 = 0xffff_ffff_ffff_ffff;

/// A queue of slot indices in a ring of `2 * capacity` slots.
///
/// Each slot word holds a cycle, a safe flag and an index. A position `p`
/// (a head or tail counter) lives in slot `p & (slots - 1)` during cycle
/// `p / slots`. The positions `head..tail` hold the queue's indices in order.
pub struct IndexQueue {
    head: CachePadded<u64>,
    tail: CachePadded<u64>,
    slots: CachePadded<Vec<u64>>,
    order: Ghost<u64>,
}

impl IndexQueue {
    /// `log2` of the number of slots.
    pub closed spec fn order(&self) -> u64 {
        self.order@
    }

    /// The number of indices the queue can hold.
    pub closed spec fn capacity(&self) -> nat {
        (span(self.order@) / 2) as nat
    }

    pub closed spec fn head_pos(&self) -> u64 {
        self.head.0
    }

    pub closed spec fn tail_pos(&self) -> u64 {
        self.tail.0
    }

    /// The counters have room for one more step.
    pub open spec fn can_advance(&self) -> bool {
        self.tail_pos() + 1 < position_limit()
    }

    /// What slot `i` holds, given where it falls in the window that starts at the head.
    pub closed spec fn slot_ok(&self, i: int) -> bool {
        let k = self.order@;
        let v = self.slots.0@[i];
        let p = window_pos(self.head.0, i as u64, k);
        if p < self.tail.0 {
            word_gen(v, k) == pos_gen(p as u64, k)
        } else {
            &&& word_idx(v, k) == idx_mask(k)
            &&& (v == INIT || lex_before(word_gen(v, k), i as u64, self.tail.0, k))
        }
    }

    /// Every slot holds the initial word.
    pub closed spec fn all_initial(&self) -> bool {
        forall|i: int| 0 <= i < self.slots.0@.len() ==> self.slots.0@[i] == INIT
    }

    pub closed spec fn wf(&self) -> bool {
        let k = self.order@;
        &&& 1 <= k <= 32
        &&& self.slots.0@.len() == span(k)
        &&& self.head.0 <= self.tail.0
        &&& self.tail.0 < position_limit()
        &&& self.tail.0 - self.head.0 <= span(k) / 2
        &&& forall|i: int| 0 <= i < span(k) ==> #[trigger] self.slot_ok(i)
    }

    /// The indices in the queue, oldest first.
    pub closed spec fn view(&self) -> Seq<usize> {
        let k = self.order@;
        Seq::new(
            (self.tail.0 - self.head.0) as nat,
            |j: int| word_idx(self.slots.0@[pos_slot((self.head.0 + j) as u64, k) as int], k) as usize,
        )
    }

    /// Creates an empty queue for indices below `capacity`.
    pub fn empty(capacity: usize) -> (q: IndexQueue)
        requires
            capacity > 0,
            capacity & ((capacity - 1) as usize) == 0,
            capacity <= 0x8000_0000,
            capacity * 2 <= usize::MAX,
        ensures
            q.wf(),
            q.view() == Seq::<usize>::empty(),
            q.capacity() == capacity,
            q.head_pos() == 0,
            q.tail_pos() == 0,
            q.all_initial(),
    {
        let slots_len = capacity * 2;
        proof {
            lemma_double_capacity(capacity as u64);
        }
        let ghost k = lemma_find_order(slots_len as u64, 0);
        proof {
            lemma_order_bounds(k);
            lemma_span(k);
            lemma_initial_word(k);
        }
        let mut slots: Vec<u64> = Vec::new();
        let mut i: usize = 0;
        while i < slots_len
            invariant
                i <= slots_len,
                slots@.len() == i,
                forall|j: int| 0 <= j < i ==> slots@[j] == INIT,
            decreases slots_len - i,
        {
            slots.push(INIT);
            i = i + 1;
        }
        let q = IndexQueue {
            head: CachePadded(0),
            tail: CachePadded(0),
            slots: CachePadded(slots),
            order: Ghost(k),
        };
        assert forall|i: int| 0 <= i < span(k) implies #[trigger] q.slot_ok(i) by {
            lemma_window_slot(0, i as u64, k);
        }
        assert(q.view() =~= Seq::<usize>::empty());
        q
    }

    /// Creates a queue holding every index below `capacity`, in order.
    pub fn full(capacity: usize) -> (q: IndexQueue)
        requires
            capacity > 0,
            capacity & ((capacity - 1) as usize) == 0,
            capacity <= 0x8000_0000,
            capacity * 2 <= usize::MAX,
        ensures
            q.wf(),
            q.view() == Seq::new(capacity as nat, |j: int| j as usize),
            q.capacity() == capacity,
            q.head_pos() == 0,
            q.tail_pos() == capacity,
    {
        let mut queue = IndexQueue::empty(capacity);
        let ghost k = queue.order@;
        proof {
            lemma_span(k);
        }
        let mut i: usize = 0;
        while i < capacity
            invariant
                i <= capacity,
                capacity * 2 == span(k),
                1 <= k <= 32,
                queue.order@ == k,
                queue.head.0 == 0,
                queue.tail.0 == 0,
                queue.slots.0@.len() == span(k),
                forall|j: int| 0 <= j < i ==> queue.slots.0@[j] == j,
                forall|j: int| i <= j < span(k) ==> queue.slots.0@[j] == INIT,
            decreases capacity - i,
        {
            queue.slots.0.set(i, i as u64);
            i = i + 1;
        }
        queue.tail.0 = capacity as u64;
        proof {
            lemma_initial_word(k);
            assert forall|i: int| 0 <= i < span(k) implies #[trigger] queue.slot_ok(i) by {
                lemma_first_cycle(i as u64, k);
                lemma_window(0, i as u64, k);
            }
            assert forall|j: int| 0 <= j < capacity implies queue.view()[j] == j as usize by {
                lemma_first_cycle(j as u64, k);
            }
            assert(queue.view() =~= Seq::new(capacity as nat, |j: int| j as usize));
        }
        queue
    }

    /// Appends `index` to the queue.
    ///
    /// Pushing an index means it was taken from a queue of the same capacity, so
    /// this queue is never full here.
    pub fn push(&mut self, index: usize)
        requires
            old(self).wf(),
            old(self).view().len() < old(self).capacity(),
            index < old(self).capacity(),
            old(self).can_advance(),
        ensures
            final(self).wf(),
            final(self).view() == old(self).view().push(index),
            final(self).capacity() == old(self).capacity(),
            final(self).head_pos() == old(self).head_pos(),
            final(self).tail_pos() == old(self).tail_pos() + 1,
    {
        let slots = self.slots.0.len() as u64;
        let ghost k = self.order@;
        let ghost h = self.head.0;
        let ghost t0 = self.tail.0;
        proof {
            lemma_span(k);
        }
        loop
            invariant
                self.wf(),
                self.order@ == k,
                self.head.0 == h,
                self.tail.0 == t0,
                self.view() == old(self).view(),
                slots == span(k),
                1 <= k <= 32,
                2 <= slots <= 0x1_0000_0000,
                h == old(self).head_pos(),
                t0 == old(self).tail_pos(),
                k == old(self).order@,
                self.view().len() < self.capacity(),
                index < self.capacity(),
                t0 + 1 < position_limit(),
            decreases 1nat,
        {
            // acquire a slot
            let ghost pre = *self;
            let tail = self.tail.0;
            self.tail.0 = tail + 1;
            let tail_index = tail & (slots - 1);
            let tail_cycle = (tail << 1) | (2 * slots - 1);
            proof {
                lemma_span(k);
                lemma_slot_bound(tail, k);
                assert(tail_index == pos_slot(tail, k));
                lemma_window(h, tail, k);
                assert(pre.slot_ok(tail_index as int));
                let v = pre.slots.0@[tail_index as int];
                lemma_same_slot_order(word_gen(v, k), tail, k);
                lemma_cycle_word_older(v, tail, k);
                lemma_vacant_word(v, k);
                lemma_small_distance(h, tail);
            }
            let mut slot = self.slots.0[tail_index as usize];
            loop
                invariant
                    self.head == pre.head,
                    self.slots == pre.slots,
                    self.order == pre.order,
                    self.tail.0 == tail + 1,
                    tail == t0,
                    t0 == old(self).tail_pos(),
                    pre.wf(),
                    pre.tail.0 == t0,
                    pre.order@ == k,
                    pre.view() == old(self).view(),
                    pre.order@ == old(self).order@,
                    pre.head.0 == old(self).head.0,
                    pre.view().len() < pre.capacity(),
                    index < pre.capacity(),
                    t0 + 1 < position_limit(),
                    slot == pre.slots.0@[tail_index as int],
                    tail_index < slots,
                    tail_index == pos_slot(tail, k),
                    slots == span(k),
                    2 <= slots <= 0x1_0000_0000,
                    1 <= k <= 32,
                    tail_cycle == (tail << 1u64) | cyc_mask(k),
                    2 * slots - 1 == cyc_mask(k),
                    wrapping_diff(slot | cyc_mask(k), tail_cycle) < 0,
                    slot == (slot | cyc_mask(k)) || slot == ((slot | cyc_mask(k)) ^ slots),
                    wrapping_diff(h, tail) <= 0,
                    pre.head.0 == h,
                ensures
                    self.wf(),
                    self.order@ == k,
                    self.head.0 == h,
                    self.tail.0 == t0,
                    self.view() == old(self).view(),
                decreases 1nat,
            {
                let slot_cycle = slot | (2 * slots - 1);
                // the reader of this cycle has already passed this slot
                if wrapping_sub_signed(slot_cycle, tail_cycle) >= 0 {
                    break;
                }
                // the slot is vacant and safe, or vacant and unsafe with no reader yet
                if slot == slot_cycle || (slot == slot_cycle ^ slots && wrapping_sub_signed(
                    self.head.0,
                    tail,
                ) <= 0) {
                    // mark as safe and set the cycle
                    let new_slot = tail_cycle ^ (index as u64) ^ (slots - 1);
                    match compare_exchange_at(&mut self.slots.0, tail_index as usize, slot, new_slot) {
                        Err(found) => {
                            slot = found;
                            continue;
                        },
                        Ok(_) => {
                            proof {
                                lemma_store_word(tail, index as u64, k);
                                lemma_after_push(*self, pre, index);
                            }
                            return;
                        },
                    }
                }
                break;
            }
        }
    }

    /// Whether the slot at the head holds an index of the head's cycle.
    pub fn can_pop(&self) -> (r: bool)
        requires
            self.wf(),
        ensures
            r == (self.view().len() > 0),
    {
        let slots = self.slots.0.len() as u64;
        let ghost k = self.order@;
        proof {
            lemma_span(k);
        }
        // load the current head
        let head = self.head.0;
        let head_index = head & (slots - 1);
        let head_cycle = (head << 1) | (2 * slots - 1);
        proof {
            lemma_slot_bound(head, k);
            lemma_window(head, head, k);
            assert(self.slot_ok(head_index as int));
            let v = self.slots.0@[head_index as int];
            lemma_cycle_word_eq(v, head, k);
            lemma_same_slot_order(word_gen(v, k), head, k);
            if self.view().len() == 0 {
                lemma_cycle_word_older(v, head, k);
            }
        }
        // load the current slot
        let slot = self.slots.0[head_index as usize];
        let slot_cycle = slot | (2 * slots - 1);
        // if cycles match, we can read from the slot
        slot_cycle == head_cycle
    }

    /// Removes the oldest index, or returns `None` if the queue is empty.
    ///
    /// Popping an empty queue still moves the head (and the tail with it) one
    /// position forward, after marking the skipped slot with the head's cycle.
    pub fn pop(&mut self) -> (r: Option<usize>)
        requires
            old(self).wf(),
            old(self).can_advance(),
        ensures
            final(self).wf(),
            final(self).capacity() == old(self).capacity(),
            final(self).head_pos() == old(self).head_pos() + 1,
            old(self).view().len() == 0 ==> r == None::<usize> && final(self).view() == old(
                self,
            ).view() && final(self).tail_pos() == old(self).tail_pos() + 1,
            old(self).view().len() > 0 ==> r == Some(old(self).view()[0]) && final(self).view()
                == old(self).view().drop_first() && final(self).tail_pos() == old(self).tail_pos(),
    {
        let slots = self.slots.0.len() as u64;
        let ghost k = self.order@;
        let ghost pre = *self;
        proof {
            lemma_span(k);
        }
        loop
            invariant
                *self == pre,
                pre == *old(self),
                pre.wf(),
                pre.can_advance(),
                k == pre.order@,
                slots == span(k),
                1 <= k <= 32,
                2 <= slots <= 0x1_0000_0000,
            decreases 1nat,
        {
            // acquire a slot
            let head = self.head.0;
            self.head.0 = head + 1;
            let head_index = head & (slots - 1);
            let head_cycle = (head << 1) | (2 * slots - 1);
            let ghost v = pre.slots.0@[head_index as int];
            proof {
                lemma_span(k);
                lemma_slot_bound(head, k);
                assert(head_index == pos_slot(head, k));
                lemma_window(head, head, k);
                assert(pre.slot_ok(head_index as int));
                lemma_cycle_word_eq(v, head, k);
                lemma_same_slot_order(word_gen(v, k), head, k);
                if pre.view().len() == 0 {
                    lemma_cycle_word_older(v, head, k);
                } else {
                    lemma_slot_bound(v, k);
                    assert(((head + 0) as u64) == head);
                    assert(pre.view()[0] == word_idx(v, k) as usize);
                }
                lemma_clear_word(v, k);
                lemma_advance_word(v, head, k);
                if word_idx(v, k) == idx_mask(k) {
                    lemma_vacant_word(v, k);
                }
            }
            let mut spun: usize = 0;
            loop
                invariant
                    self.head.0 == head + 1,
                    self.tail == pre.tail,
                    self.slots == pre.slots,
                    self.order == pre.order,
                    pre == *old(self),
                    pre.wf(),
                    pre.can_advance(),
                    head == pre.head.0,
                    head_index == pos_slot(head, k),
                    head_index < slots,
                    head_cycle == (head << 1u64) | cyc_mask(k),
                    2 * slots - 1 == cyc_mask(k),
                    slots - 1 == idx_mask(k),
                    v == pre.slots.0@[head_index as int],
                    k == pre.order@,
                    slots == span(k),
                    1 <= k <= 32,
                    2 <= slots <= 0x1_0000_0000,
                    (v | cyc_mask(k) == head_cycle) == (pre.view().len() > 0),
                    (v | cyc_mask(k) == head_cycle) == (word_gen(v, k) == pos_gen(head, k)),
                    pre.view().len() > 0 ==> word_idx(v, k) == pre.view()[0],
                    pre.view().len() == 0 ==> wrapping_diff(v | cyc_mask(k), head_cycle) < 0,
                    pre.view().len() == 0 ==> (v | slots) == (v | cyc_mask(k)),
                    (v | idx_mask(k)) >> ((k + 1) as u64) == word_gen(v, k),
                    word_idx(v | idx_mask(k), k) == idx_mask(k),
                    (head_cycle ^ (!v & slots)) >> ((k + 1) as u64) == pos_gen(head, k),
                    word_idx(head_cycle ^ (!v & slots), k) == idx_mask(k),
                    spun <= SPIN_LIMIT + 1,
                ensures
                    *self == pre,
                decreases SPIN_LIMIT + 1 - spun,
            {
                let mut slot = self.slots.0[head_index as usize];
                let mut spin = false;
                loop
                    invariant_except_break
                        self.slots == pre.slots,
                        !spin,
                    invariant
                        self.head.0 == head + 1,
                        self.tail == pre.tail,
                        self.order == pre.order,
                        pre == *old(self),
                        pre.wf(),
                        pre.can_advance(),
                        head == pre.head.0,
                        head_index == pos_slot(head, k),
                        head_index < slots,
                        head_cycle == (head << 1u64) | cyc_mask(k),
                        2 * slots - 1 == cyc_mask(k),
                        slots - 1 == idx_mask(k),
                        v == pre.slots.0@[head_index as int],
                        slot == v,
                        k == pre.order@,
                        slots == span(k),
                        1 <= k <= 32,
                        2 <= slots <= 0x1_0000_0000,
                        (v | cyc_mask(k) == head_cycle) == (pre.view().len() > 0),
                        (v | cyc_mask(k) == head_cycle) == (word_gen(v, k) == pos_gen(head, k)),
                    (v | cyc_mask(k) == head_cycle) == (word_gen(v, k) == pos_gen(head, k)),
                        pre.view().len() > 0 ==> word_idx(v, k) == pre.view()[0],
                        pre.view().len() == 0 ==> wrapping_diff(v | cyc_mask(k), head_cycle) < 0,
                        pre.view().len() == 0 ==> (v | slots) == (v | cyc_mask(k)),
                        (v | idx_mask(k)) >> ((k + 1) as u64) == word_gen(v, k),
                        word_idx(v | idx_mask(k), k) == idx_mask(k),
                        (head_cycle ^ (!v & slots)) >> ((k + 1) as u64) == pos_gen(head, k),
                        word_idx(head_cycle ^ (!v & slots), k) == idx_mask(k),
                        spun <= SPIN_LIMIT + 1,
                    ensures
                        self.head.0 == head + 1,
                        self.tail == pre.tail,
                        self.order == pre.order,
                        pre.view().len() == 0,
                        spin ==> spun <= SPIN_LIMIT && self.slots == pre.slots,
                        !spin ==> self.slots.0@ == pre.slots.0@.update(
                            head_index as int,
                            head_cycle ^ (!v & slots),
                        ),
                    decreases 1nat,
                {
                    let slot_cycle = slot | (2 * slots - 1);
                    // the cycles match, we can read from this slot
                    if slot_cycle == head_cycle {
                        // mark as unused, preserving the cycle and safety
                        let cleared = self.slots.0[head_index as usize] | (slots - 1);
                        self.slots.0.set(head_index as usize, cleared);
                        proof {
                            lemma_after_pop(*self, pre);
                        }
                        return Some((slot & (slots - 1)) as usize);
                    }
                    // this slot is from an earlier cycle
                    if wrapping_sub_signed(slot_cycle, head_cycle) < 0 {
                        // if the slot is unused, update its cycle for the next writer
                        let new_slot = if (slot | slots) == slot_cycle {
                            // but first spin for a bit, in case the writer arrives soon
                            if spun <= SPIN_LIMIT {
                                spin = true;
                                break ;
                            }
                            // preserve the safety bit
                            head_cycle ^ (!slot & slots)
                        } else {
                            // mark a slot occupied by a previous cycle as unsafe
                            let unsafe_slot = slot & !slots;
                            if slot == unsafe_slot {
                                break ;
                            }
                            unsafe_slot
                        };
                        match compare_exchange_at(&mut self.slots.0, head_index as usize, slot, new_slot) {
                            Err(found) => {
                                slot = found;
                                continue ;
                            },
                            Ok(_) => {},
                        }
                    }
                    break ;
                }
                if spin {
                    spin_rounds(spun);
                    spun += 1;
                    continue ;
                }
                let tail = self.tail.0;
                // the queue is empty, help the tail forward
                if tail <= head + 1 {
                    self.help_tail(tail, head + 1);
                    proof {
                        lemma_after_empty_pop(*self, pre);
                    }
                    return None;
                }
                break ;
            }
        }
    }

    /// Moves the tail forward to `head`, unless another step moved it first.
    fn help_tail(&mut self, tail: u64, head: u64)
        requires
            old(self).tail.0 == tail,
        ensures
            final(self).tail.0 == head,
            final(self).head == old(self).head,
            final(self).slots == old(self).slots,
            final(self).order == old(self).order,
    {
        let ghost target = head;
        let mut tail = tail;
        let mut head = head;
        loop
            invariant_except_break
                self.tail.0 == tail,
            invariant
                head == target,
                self.head == old(self).head,
                self.slots == old(self).slots,
                self.order == old(self).order,
            ensures
                self.tail.0 == target,
                self.head == old(self).head,
                self.slots == old(self).slots,
                self.order == old(self).order,
            decreases 1nat,
        {
            match compare_exchange(&mut self.tail.0, tail, head) {
                Ok(_) => break ,
                Err(found) => {
                    tail = found;
                    head = self.head.0;
                    if wrapping_sub_signed(tail, head) >= 0 {
                        break ;
                    }
                },
            }
        }
    }
}

/// Writing `index` into the tail's slot and moving the tail appends `index`.
proof fn lemma_after_push(post: IndexQueue, pre: IndexQueue, index: usize)
    requires
        pre.wf(),
        pre.view().len() < pre.capacity(),
        index < pre.capacity(),
        pre.tail.0 + 1 < position_limit(),
        post.head == pre.head,
        post.order == pre.order,
        post.tail.0 == pre.tail.0 + 1,
        post.slots.0@.len() == pre.slots.0@.len(),
        forall|i: int|
            0 <= i < pre.slots.0@.len() && i != pos_slot(pre.tail.0, pre.order@) ==> post.slots.0@[i]
                == pre.slots.0@[i],
        word_gen(post.slots.0@[pos_slot(pre.tail.0, pre.order@) as int], pre.order@) == pos_gen(
            pre.tail.0,
            pre.order@,
        ),
        word_idx(post.slots.0@[pos_slot(pre.tail.0, pre.order@) as int], pre.order@) == index,
    ensures
        post.wf(),
        post.view() == pre.view().push(index),
{
    let k = pre.order@;
    let h = pre.head.0;
    let t = pre.tail.0;
    let ti = pos_slot(t, k);
    lemma_span(k);
    lemma_window(h, t, k);
    lemma_lex_order(t, (t + 1) as u64, k);
    assert forall|i: int| 0 <= i < span(k) implies #[trigger] post.slot_ok(i) by {
        assert(pre.slot_ok(i));
        lemma_window_slot(h, i as u64, k);
        if i != ti {
            assert(window_pos(h, i as u64, k) != t);
        }
    }
    assert forall|j: int| 0 <= j < post.view().len() implies post.view()[j] == pre.view().push(
        index,
    )[j] by {
        assert(((h + j) as u64) == h + j);
        lemma_slot_bound((h + j) as u64, k);
        if j < pre.view().len() {
            lemma_window(h, (h + j) as u64, k);
            assert(pos_slot((h + j) as u64, k) != ti);
            assert(post.view()[j] == pre.view()[j]);
        } else {
            assert(h + j == t);
        }
    }
    assert(post.view() =~= pre.view().push(index));
}

/// Clearing the head's slot and moving the head removes the oldest index.
proof fn lemma_after_pop(post: IndexQueue, pre: IndexQueue)
    requires
        pre.wf(),
        pre.view().len() > 0,
        post.tail == pre.tail,
        post.order == pre.order,
        post.head.0 == pre.head.0 + 1,
        post.slots.0@.len() == pre.slots.0@.len(),
        forall|i: int|
            0 <= i < pre.slots.0@.len() && i != pos_slot(pre.head.0, pre.order@) ==> post.slots.0@[i]
                == pre.slots.0@[i],
        word_gen(post.slots.0@[pos_slot(pre.head.0, pre.order@) as int], pre.order@) == pos_gen(
            pre.head.0,
            pre.order@,
        ),
        word_idx(post.slots.0@[pos_slot(pre.head.0, pre.order@) as int], pre.order@) == idx_mask(
            pre.order@,
        ),
    ensures
        post.wf(),
        post.view() == pre.view().drop_first(),
{
    let k = pre.order@;
    let h = pre.head.0;
    let t = pre.tail.0;
    let hi = pos_slot(h, k);
    lemma_span(k);
    lemma_window(h, h, k);
    lemma_lex_order(h, t, k);
    assert forall|i: int| 0 <= i < span(k) implies #[trigger] post.slot_ok(i) by {
        assert(pre.slot_ok(i));
        lemma_window_slot(h, i as u64, k);
        lemma_window_slot((h + 1) as u64, i as u64, k);
        if i == hi {
            lemma_slot_period(h, k);
            lemma_window((h + 1) as u64, (h + span(k)) as u64, k);
            assert(window_pos((h + 1) as u64, i as u64, k) == h + span(k));
        } else {
            let p = window_pos(h, i as u64, k);
            assert(p != h);
            lemma_window((h + 1) as u64, p as u64, k);
        }
    }
    assert forall|j: int| 0 <= j < post.view().len() implies post.view()[j]
        == pre.view().drop_first()[j] by {
        lemma_slot_bound((h + 1 + j) as u64, k);
        lemma_window(h, (h + 1 + j) as u64, k);
        assert(pos_slot((h + 1 + j) as u64, k) != hi);
    }
    assert(post.view() =~= pre.view().drop_first());
}

/// Marking the head's vacant slot with the head's cycle and moving both counters on
/// leaves the queue empty.
proof fn lemma_after_empty_pop(post: IndexQueue, pre: IndexQueue)
    requires
        pre.wf(),
        pre.can_advance(),
        pre.view().len() == 0,
        post.order == pre.order,
        post.head.0 == pre.head.0 + 1,
        post.tail.0 == pre.tail.0 + 1,
        post.slots.0@.len() == pre.slots.0@.len(),
        forall|i: int|
            0 <= i < pre.slots.0@.len() && i != pos_slot(pre.head.0, pre.order@) ==> post.slots.0@[i]
                == pre.slots.0@[i],
        word_gen(post.slots.0@[pos_slot(pre.head.0, pre.order@) as int], pre.order@) == pos_gen(
            pre.head.0,
            pre.order@,
        ),
        word_idx(post.slots.0@[pos_slot(pre.head.0, pre.order@) as int], pre.order@) == idx_mask(
            pre.order@,
        ),
    ensures
        post.wf(),
        post.view() == pre.view(),
{
    let k = pre.order@;
    let h = pre.head.0;
    let hi = pos_slot(h, k);
    lemma_span(k);
    lemma_window(h, h, k);
    lemma_lex_order(h, (h + 1) as u64, k);
    assert forall|i: int| 0 <= i < span(k) implies #[trigger] post.slot_ok(i) by {
        assert(pre.slot_ok(i));
        lemma_window_slot(h, i as u64, k);
        lemma_window_slot((h + 1) as u64, i as u64, k);
        if i != hi {
            assert(post.slots.0@[i] == pre.slots.0@[i]);
        }
    }
    assert(post.view() =~= pre.view());
}

} // verus!
