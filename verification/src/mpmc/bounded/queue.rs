//! A bounded queue built on two queues of slot indices, whose slots are
//! spread over cache lines.
use crate::raw::slot_word::{
    cyc_mask, idx_mask, lemma_advance_word, lemma_clear_word, lemma_cycle_word_eq,
    lemma_cycle_word_older, lemma_first_cycle, lemma_initial_word, lemma_lex_order, lemma_remap,
    lemma_rslot_bound, lemma_rslot_period, lemma_rwindow, lemma_rwindow_slot, lemma_same_slot_order,
    lemma_slot_bound, lemma_slot_period, lemma_small_distance, lemma_span, lemma_store_word,
    lemma_vacant_word, lex_before, pos_gen, pos_slot, position_limit, remap, rpos_slot,
    rwindow_pos, span, unmap, word_gen, word_idx,
};
use crate::raw::util::{ceil_pow2, compare_exchange, compare_exchange_at, next_power_of_two, spin_rounds, wrapping_diff, wrapping_sub_signed, CachePadded};
use vstd::prelude::*;

verus! {

/// A power of two `2^order` as a `usize` is the ring size `span(order)`.
proof fn lemma_pow2_order(o: usize)
    by (bit_vector)
    requires
        o < usize::BITS,
    ensures
        o <= 31 ==> (1usize << o) == (1u64 << (o as u64)),
        (1usize << o) / 2 < 0x8000_0000 ==> o <= 31,
{
}

/// The bits an index is shifted by to spread consecutive slots over cache lines.
const MIN: u64 = 4;

/// The threshold of a full ring of `2^k` slots: `capacity + slots - 1`.
pub open spec fn full_threshold(k: u64) -> int {
    span(k) / 2 + span(k) - 1
}

/// Slot `i` of `n` slots, with its `bits` low bits rotated left by four.
fn raw_cache_remap(i: u64, bits: u64, n: u64) -> (r: u64)
    requires
        bits <= 32,
        n == span(bits),
    ensures
        r == remap(i & idx_mask(bits), bits),
{
    proof {
        lemma_span(bits);
    }
    if bits < MIN {
        return i & (n - 1);
    }
    let r = ((i & (n - 1)) >> (bits - MIN)) | ((i << MIN) & (n - 1));
    assert(((i << 4u64) & (((1u64 << bits) - 1) as u64)) == (((i & (((1u64 << bits) - 1) as u64)) << 4u64) & (((1u64 << bits) - 1) as u64))) by (bit_vector)
        requires 4 <= bits <= 32;
    r
}

/// The slot of position `i` in a ring of `n == 2^(order + 1)` slots.
fn cache_remap(i: u64, order: u64, n: u64) -> (r: u64)
    requires
        order <= 31,
        n == span((order + 1) as u64),
    ensures
        r == rpos_slot(i, (order + 1) as u64),
{
    raw_cache_remap(i, order + 1, n)
}

/// Values come out in the order they went in. `push` appends to the view and
/// `pop` takes its first value: a push onto an empty queue is answered by the
/// next pop, and a push onto a non-empty queue leaves the next pop's answer
/// unchanged and comes out after the values already there.
pub proof fn lemma_fifo<T>(values: Seq<T>, v: T)
    ensures
        values.len() == 0 ==> values.push(v).first() == v && values.push(v).drop_first() == values,
        values.len() > 0 ==> values.push(v).first() == values.first() && values.push(v).drop_first()
            == values.drop_first().push(v),
{
    assert(values.len() == 0 ==> values.push(v).drop_first() =~= values);
    assert(values.len() > 0 ==> values.push(v).drop_first() =~= values.drop_first().push(v));
}

/// A capacity above `2^31` rounds up to `2^32`, which is too large.
pub const MAX_CAPACITY: usize = 0x8000_0001;

/// A bounded queue built on two index queues: `free` holds the unused slots
/// and `elements` the slots holding values, in the order they were pushed.
pub struct Queue<T> {
    free: IndexQueue,
    elements: IndexQueue,
    slots: Vec<Option<T>>,
    order: usize,
}

impl<T> Queue<T> {
    /// The number of values the queue can hold.
    pub closed spec fn bound(&self) -> nat {
        self.slots@.len()
    }

    /// Both index queues have room for one more step.
    pub closed spec fn can_advance(&self) -> bool {
        self.free.can_advance() && self.elements.can_advance()
    }

    /// How many more pushes and pops the position counters have room for.
    pub closed spec fn room(&self) -> int {
        let f = position_limit() - 1 - self.free.tail_pos();
        let e = position_limit() - 1 - self.elements.tail_pos();
        if f < e {
            f
        } else {
            e
        }
    }

    /// A queue holds at most its capacity.
    pub proof fn lemma_len(&self)
        requires
            self.wf(),
        ensures
            self.view().len() <= self.bound(),
    {
    }

    /// The counters have room for one more step exactly when `room` is positive.
    pub proof fn lemma_room(&self)
        ensures
            self.can_advance() <==> self.room() >= 1,
    {
    }

    pub closed spec fn wf(&self) -> bool {
        let n = self.slots@.len();
        let free = self.free.view();
        let used = self.elements.view();
        &&& n <= 0x8000_0000
        &&& self.order <= 31
        &&& n == span(self.order as u64)
        &&& self.free.order() == self.order + 1
        &&& self.elements.order() == self.order + 1
        &&& self.free.wf()
        &&& self.elements.wf()
        &&& self.free.capacity() == n
        &&& self.elements.capacity() == n
        &&& free.len() + used.len() == n
        &&& free.no_duplicates()
        &&& used.no_duplicates()
        &&& forall|i: int| 0 <= i < free.len() ==> free[i] < n
        &&& forall|i: int| 0 <= i < used.len() ==> used[i] < n
        &&& forall|i: int, j: int|
            0 <= i < free.len() && 0 <= j < used.len() ==> free[i] != used[j]
        &&& forall|i: int| 0 <= i < n ==> (#[trigger] self.slots@[i] is Some <==> used.contains(i as usize))
    }

    /// The values in the queue, oldest first.
    pub closed spec fn view(&self) -> Seq<T> {
        self.elements.view().map_values(|i: usize| self.slots@[i as int]->Some_0)
    }

    /// Creates a queue that holds at least `capacity` values: `capacity`
    /// rounded up to a power of two.
    pub fn new(capacity: usize) -> (q: Queue<T>)
        requires
            0 < capacity < MAX_CAPACITY,
        ensures
            q.wf(),
            q.view() == Seq::<T>::empty(),
            capacity <= q.bound() < 2 * capacity,
            q.bound() == ceil_pow2(capacity as int),
            q.can_advance(),
            q.room() >= 0x2000_0000_0000_0000,
    {
        let (capacity, order) = next_power_of_two(capacity);
        proof {
            lemma_pow2_order(order);
            lemma_span(order as u64);
            lemma_span((order + 1) as u64);
            assert(span((order + 1) as u64) == 2 * span(order as u64));
        }
        let mut slots: Vec<Option<T>> = Vec::new();
        let mut i: usize = 0;
        while i < capacity
            invariant
                i <= capacity,
                slots@.len() == i,
                forall|j: int| 0 <= j < i ==> slots@[j] is None,
            decreases capacity - i,
        {
            slots.push(None);
            i = i + 1;
        }
        let free = IndexQueue::full(order);
        let elements = IndexQueue::empty(order);
        let q = Queue { slots, free, elements, order };
        proof {
            let o = order as u64;
            assert(q.free.view().no_duplicates()) by {
                assert forall|a: int, b: int|
                    0 <= a < q.free.view().len() && 0 <= b < q.free.view().len() && a != b implies q.free.view()[a]
                        != q.free.view()[b] by {
                    lemma_remap(a as u64, o);
                    lemma_remap(b as u64, o);
                }
            }
            assert forall|a: int| 0 <= a < q.free.view().len() implies q.free.view()[a] < capacity by {
                lemma_remap(a as u64, o);
            }
        }
        q
    }

    /// Appends `value`, or hands it back if the queue is full.
    pub fn push(&mut self, value: T) -> (r: Result<(), T>)
        requires
            old(self).wf(),
            old(self).can_advance(),
        ensures
            final(self).wf(),
            final(self).bound() == old(self).bound(),
            final(self).room() >= old(self).room() - 1,
            old(self).view().len() < old(self).bound() ==> r is Ok && final(self).view()
                == old(self).view().push(value),
            old(self).view().len() == old(self).bound() ==> r == Err::<(), T>(value)
                && final(self).view() == old(self).view(),
    {
        let ghost free0 = self.free.view();
        let ghost used0 = self.elements.view();
        let ghost n = self.slots@.len();
        match self.free.pop(self.order) {
            Some(elem) => {
                proof {
                    assert(free0.contains(elem));
                    assert(!used0.contains(elem));
                }
                self.slots.set(elem, Some(value));
                self.elements.push(elem, self.order);
                proof {
                    let free1 = self.free.view();
                    let used1 = self.elements.view();
                    assert(free1 =~= free0.drop_first());
                    assert(used1 =~= used0.push(elem));
                    assert forall|i: int| 0 <= i < free1.len() implies free1[i] != elem by {
                        assert(free1[i] == free0[i + 1]);
                    }
                    assert forall|i: int|
                        0 <= i < n implies (#[trigger] self.slots@[i] is Some
                        <==> used1.contains(i as usize)) by {
                        if i == elem as int {
                            assert(used1[used0.len() as int] == elem);
                        } else {
                            assert(old(self).slots@[i] == self.slots@[i]);
                            if used0.contains(i as usize) {
                                let j = choose|j: int| 0 <= j < used0.len() && used0[j] == i as usize;
                                assert(used1[j] == i as usize);
                            }
                            if used1.contains(i as usize) {
                                let j = choose|j: int| 0 <= j < used1.len() && used1[j] == i as usize;
                                assert(j < used0.len());
                            }
                        }
                    }
                    assert forall|j: int| 0 <= j < used0.len() implies used0[j] != elem by {}
                    assert(self.view() =~= old(self).view().push(value));
                }
                Ok(())
            },
            None => {
                proof {
                    assert(self.free.view() =~= free0);
                }
                Err(value)
            },
        }
    }

    /// Removes the oldest value, if any.
    pub fn pop(&mut self) -> (r: Option<T>)
        requires
            old(self).wf(),
            old(self).can_advance(),
        ensures
            final(self).wf(),
            final(self).bound() == old(self).bound(),
            final(self).room() >= old(self).room() - 1,
            old(self).view().len() == 0 ==> r is None && final(self).view() == old(self).view(),
            old(self).view().len() > 0 ==> r == Some(old(self).view()[0]) && final(self).view()
                == old(self).view().drop_first(),
    {
        let ghost free0 = self.free.view();
        let ghost used0 = self.elements.view();
        let ghost n = self.slots@.len();
        let elem = match self.elements.pop(self.order) {
            Some(elem) => elem,
            None => {
                proof {
                    assert(self.elements.view() =~= used0);
                }
                return None;
            },
        };
        proof {
            assert(used0.contains(elem));
            assert(!free0.contains(elem));
        }
        let mut value = None;
        std::mem::swap(&mut value, &mut self.slots[elem]);
        self.free.push(elem, self.order);
        proof {
            let free1 = self.free.view();
            let used1 = self.elements.view();
            assert(free1 =~= free0.push(elem));
            assert(used1 =~= used0.drop_first());
            assert forall|i: int| 0 <= i < used1.len() implies used1[i] != elem by {
                assert(used1[i] == used0[i + 1]);
            }
            assert forall|i: int|
                0 <= i < n implies (#[trigger] self.slots@[i] is Some <==> used1.contains(
                i as usize,
            )) by {
                if i != elem as int {
                    assert(old(self).slots@[i] == self.slots@[i]);
                    if used0.contains(i as usize) {
                        let j = choose|j: int| 0 <= j < used0.len() && used0[j] == i as usize;
                        assert(used0[0] == elem);
                        assert(j > 0);
                        assert(used1[j - 1] == i as usize);
                    }
                    if used1.contains(i as usize) {
                        let j = choose|j: int| 0 <= j < used1.len() && used1[j] == i as usize;
                        assert(used0[j + 1] == i as usize);
                    }
                }
            }
            assert forall|j: int| 0 <= j < free0.len() implies free0[j] != elem by {}
            assert(self.view() =~= old(self).view().drop_first()) by {
                assert forall|j: int| 0 <= j < used1.len() implies self.slots@[used1[j] as int]
                    == old(self).slots@[used1[j] as int] by {
                    assert(used1[j] == used0[j + 1]);
                }
            }
        }
        value
    }

    /// The number of values in the queue.
    pub fn len(&self) -> (r: usize)
        requires
            self.wf(),
        ensures
            r == self.view().len(),
            r <= self.bound(),
    {
        self.elements.len(self.order)
    }

    /// Whether the queue holds no value.
    pub fn is_empty(&self) -> (r: bool)
        requires
            self.wf(),
        ensures
            r == (self.view().len() == 0),
    {
        self.elements.len(self.order) == 0
    }

    /// Whether the queue holds as many values as it can.
    pub fn is_full(&self) -> (r: bool)
        requires
            self.wf(),
        ensures
            r == (self.view().len() == self.bound()),
    {
        self.free.len(self.order) == 0
    }

    /// The number of values the queue can hold.
    pub fn capacity(&self) -> (r: usize)
        requires
            self.wf(),
        ensures
            r == self.bound(),
    {
        proof {
            lemma_pow2_order(self.order);
        }
        1usize << self.order
    }
}

/// How many times a reader spins on a vacant slot before moving its cycle on.
const SPIN_LIMIT: usize = 6;

/// The all-ones word: a vacant, safe slot from before the first cycle.
pub const INIT: u64 = 0xffff_ffff_ffff_ffff;

/// A queue of slot indices in a ring of `2 * capacity` slots.
///
/// Each slot word holds a cycle, a safe flag and an index. A position `p`
/// (a head or tail counter) lives in slot `cache_remap(p)` during cycle
/// `p / slots`, so that consecutive positions fall on different cache lines.
/// The positions `head..tail` hold the queue's indices in order. The
/// threshold bounds how many more pops may find the queue empty before one
/// gives up at once.
pub struct IndexQueue {
    head: CachePadded<u64>,
    tail: CachePadded<u64>,
    threshold: CachePadded<i64>,
    slots: CachePadded<Vec<u64>>,
    order: Ghost<u64>,
}

impl IndexQueue {
    /// `log2` of the number of slots.
    pub closed spec fn order(&self) -> u64 {
        self.order@
    }

    /// The number of indices the queue can hold.
    pub closed spec fn capacity(&self) -> nat {
        (span(self.order@) / 2) as nat
    }

    pub closed spec fn head_pos(&self) -> u64 {
        self.head.0
    }

    pub closed spec fn tail_pos(&self) -> u64 {
        self.tail.0
    }

    /// The counters have room for one more step.
    pub open spec fn can_advance(&self) -> bool {
        self.tail_pos() + 1 < position_limit()
    }

    /// What slot `i` holds, given where it falls in the window that starts at the head.
    pub closed spec fn slot_ok(&self, i: int) -> bool {
        let k = self.order@;
        let v = self.slots.0@[i];
        let p = rwindow_pos(self.head.0, i as u64, k);
        if p < self.tail.0 {
            word_gen(v, k) == pos_gen(p as u64, k)
        } else {
            &&& word_idx(v, k) == idx_mask(k)
            &&& (v == INIT || lex_before(word_gen(v, k), unmap(i as u64, k), self.tail.0, k))
        }
    }

    /// Every slot holds the initial word.
    pub closed spec fn all_initial(&self) -> bool {
        forall|i: int| 0 <= i < self.slots.0@.len() ==> self.slots.0@[i] == INIT
    }

    pub closed spec fn wf(&self) -> bool {
        let k = self.order@;
        &&& 1 <= k <= 32
        &&& self.slots.0@.len() == span(k)
        &&& self.head.0 <= self.tail.0
        &&& self.tail.0 < position_limit()
        &&& self.tail.0 - self.head.0 <= span(k) / 2
        &&& forall|i: int| 0 <= i < span(k) ==> #[trigger] self.slot_ok(i)
        &&& -1 <= self.threshold.0 <= full_threshold(k)
        &&& self.tail.0 > self.head.0 ==> self.threshold.0 >= 0
    }

    /// How many more pops may find the queue empty before one gives up at once.
    pub closed spec fn threshold_value(&self) -> i64 {
        self.threshold.0
    }

    /// The indices in the queue, oldest first.
    pub closed spec fn view(&self) -> Seq<usize> {
        let k = self.order@;
        Seq::new(
            (self.tail.0 - self.head.0) as nat,
            |j: int| word_idx(self.slots.0@[rpos_slot((self.head.0 + j) as u64, k) as int], k) as usize,
        )
    }


    /// Creates an empty queue for indices below `2^order`.
    pub fn empty(order: usize) -> (q: IndexQueue)
        requires
            order <= 31,
        ensures
            q.wf(),
            q.view() == Seq::<usize>::empty(),
            q.order() == order + 1,
            q.capacity() == span(order as u64),
            q.head_pos() == 0,
            q.tail_pos() == 0,
            q.all_initial(),
            q.threshold_value() == -1,
    {
        let ghost k = (order + 1) as u64;
        let capacity: u64 = 1u64 << (order as u64);
        proof {
            lemma_span(order as u64);
            lemma_span(k);
            lemma_initial_word(k);
            assert(span(k) == 2 * span(order as u64));
        }
        // the number of slots is double the capacity, so that the last reader
        // always finds an unused slot within two capacities of the last writer
        let slots_len: u64 = capacity * 2;
        let mut slots: Vec<u64> = Vec::new();
        let mut i: u64 = 0;
        while i < slots_len
            invariant
                i <= slots_len,
                slots@.len() == i,
                forall|j: int| 0 <= j < i ==> slots@[j] == INIT,
            decreases slots_len - i,
        {
            slots.push(INIT);
            i = i + 1;
        }
        let q = IndexQueue {
            head: CachePadded(0),
            tail: CachePadded(0),
            threshold: CachePadded(-1),
            slots: CachePadded(slots),
            order: Ghost(k),
        };
        assert forall|i: int| 0 <= i < span(k) implies #[trigger] q.slot_ok(i) by {
            lemma_rwindow_slot(0, i as u64, k);
        }
        assert(q.view() =~= Seq::<usize>::empty());
        q
    }

    /// The threshold of a queue whose ring of `cap` slots holds `half` indices.
    fn threshold(half: u64, cap: u64) -> (r: i64)
        requires
            half + cap <= 0x1_0000_0000_0000,
            half + cap >= 1,
        ensures
            r == half + cap - 1,
    {
        ((half + cap) - 1) as i64
    }

    /// Creates a queue holding every index below `2^order`, each once, in the
    /// order of their slots.
    pub fn full(order: usize) -> (q: IndexQueue)
        requires
            order <= 31,
        ensures
            q.wf(),
            q.view() == Seq::new(span(order as u64) as nat, |j: int| remap(j as u64, order as u64) as usize),
            q.order() == order + 1,
            q.capacity() == span(order as u64),
            q.head_pos() == 0,
            q.tail_pos() == span(order as u64),
    {
        let ghost k = (order + 1) as u64;
        let ghost o = order as u64;
        let capacity: u64 = 1u64 << (order as u64);
        proof {
            lemma_span(o);
            lemma_span(k);
            assert(span(k) == 2 * span(o));
        }
        let slots: u64 = capacity * 2;
        let mut queue = IndexQueue::empty(order);
        proof {
            lemma_span(o);
            lemma_span(k);
            assert(span(k) == 2 * span(o));
        }
        let mut i: u64 = 0;
        while i < capacity
            invariant
                i <= capacity,
                capacity == span(o),
                slots == span(k),
                o == order,
                k == o + 1,
                o <= 31,
                span(k) == 2 * span(o),
                2 <= span(k) <= 0x1_0000_0000,
                queue.order@ == k,
                queue.head.0 == 0,
                queue.tail.0 == 0,
                queue.threshold.0 == -1,
                queue.slots.0@.len() == span(k),
                forall|s: int|
                    0 <= s < span(k) ==> #[trigger] queue.slots.0@[s] == (if unmap(s as u64, k) < i {
                        remap(unmap(s as u64, k), o)
                    } else {
                        INIT
                    }),
            decreases capacity - i,
        {
            let at = cache_remap(i, order as u64, slots);
            let value = raw_cache_remap(slots + i, order as u64, capacity);
            proof {
                lemma_slot_bound(i, k);
                lemma_first_cycle(i, o);
                lemma_first_cycle(i, k);
                lemma_remap(i, k);
                lemma_slot_period(i, o);
                lemma_slot_period((i + capacity) as u64, o);
                assert(at == remap(i, k));
                assert(value == remap(i, o));
                assert forall|s: int| 0 <= s < span(k) && s != at implies #[trigger] unmap(s as u64, k) != i by {
                    lemma_remap(s as u64, k);
                }
                lemma_remap(at, k);
            }
            queue.slots.0.set(at as usize, value);
            i = i + 1;
        }
        queue.tail.0 = capacity;
        queue.threshold.0 = IndexQueue::threshold(capacity, slots);
        proof {
            lemma_initial_word(k);
            assert forall|s: int| 0 <= s < span(k) implies #[trigger] queue.slot_ok(s) by {
                lemma_remap(s as u64, k);
                lemma_rwindow_slot(0, s as u64, k);
                lemma_first_cycle(0, k);
                let p = unmap(s as u64, k);
                assert(rwindow_pos(0, s as u64, k) == p);
                if p < capacity {
                    lemma_remap(p, o);
                    lemma_first_cycle(remap(p, o), k);
                    lemma_first_cycle(p, k);
                }
            }
            assert forall|j: int| 0 <= j < capacity implies queue.view()[j] == remap(j as u64, o) as usize by {
                lemma_first_cycle(j as u64, k);
                lemma_remap(j as u64, k);
                lemma_remap(j as u64, o);
                lemma_first_cycle(remap(j as u64, o), k);
            }
            assert(queue.view() =~= Seq::new(span(o) as nat, |j: int| remap(j as u64, o) as usize));
        }
        queue
    }

    /// Appends `index` to the queue.
    ///
    /// Pushing an index means it was taken from a queue of the same capacity, so
    /// this queue is never full here.
    pub fn push(&mut self, index: usize, order: usize)
        requires
            old(self).wf(),
            old(self).view().len() < old(self).capacity(),
            index < old(self).capacity(),
            old(self).can_advance(),
            order + 1 == old(self).order(),
        ensures
            final(self).wf(),
            final(self).view() == old(self).view().push(index),
            final(self).threshold_value() == full_threshold(old(self).order()),
            final(self).order() == old(self).order(),
            final(self).capacity() == old(self).capacity(),
            final(self).head_pos() == old(self).head_pos(),
            final(self).tail_pos() == old(self).tail_pos() + 1,
    {
        let ghost k = self.order@;
        let ghost h = self.head.0;
        let ghost t0 = self.tail.0;
        let capacity: u64 = 1u64 << (order as u64);
        proof {
            lemma_span(k);
            lemma_span(order as u64);
            assert(span(k) == 2 * span(order as u64));
        }
        let slots = capacity * 2;
        loop
            invariant
                self.wf(),
                self.order@ == k,
                self.head.0 == h,
                self.tail.0 == t0,
                self.view() == old(self).view(),
                slots == span(k),
                1 <= k <= 32,
                2 <= slots <= 0x1_0000_0000,
                h == old(self).head_pos(),
                t0 == old(self).tail_pos(),
                k == old(self).order@,
                self.view().len() < self.capacity(),
                index < self.capacity(),
                t0 + 1 < position_limit(),
                order + 1 == k,
                capacity == span(order as u64),
                slots == 2 * capacity,
                capacity <= 0x8000_0000,
            decreases 1nat,
        {
            // acquire a slot
            let ghost pre = *self;
            let tail = self.tail.0;
            self.tail.0 = tail + 1;
            let tail_index = cache_remap(tail, order as u64, slots);
            let tail_cycle = (tail << 1) | (2 * slots - 1);
            proof {
                lemma_span(k);
                lemma_rslot_bound(tail, k);
                assert(tail_index == rpos_slot(tail, k));
                lemma_rwindow(h, tail, k);
                lemma_slot_bound(tail, k);
                lemma_remap(pos_slot(tail, k), k);
                assert(pre.slot_ok(tail_index as int));
                let v = pre.slots.0@[tail_index as int];
                lemma_same_slot_order(word_gen(v, k), tail, k);
                lemma_cycle_word_older(v, tail, k);
                lemma_vacant_word(v, k);
                lemma_small_distance(h, tail);
            }
            let mut slot = self.slots.0[tail_index as usize];
            loop
                invariant
                    self.head == pre.head,
                    self.slots == pre.slots,
                    self.order == pre.order,
                    self.tail.0 == tail + 1,
                    tail == t0,
                    t0 == old(self).tail_pos(),
                    pre.wf(),
                    pre.tail.0 == t0,
                    pre.order@ == k,
                    pre.view() == old(self).view(),
                    pre.order@ == old(self).order@,
                    pre.head.0 == old(self).head.0,
                    pre.view().len() < pre.capacity(),
                    index < pre.capacity(),
                    t0 + 1 < position_limit(),
                    slot == pre.slots.0@[tail_index as int],
                    tail_index < slots,
                    tail_index == rpos_slot(tail, k),
                    slots == span(k),
                    2 <= slots <= 0x1_0000_0000,
                    1 <= k <= 32,
                    tail_cycle == (tail << 1u64) | cyc_mask(k),
                    2 * slots - 1 == cyc_mask(k),
                    wrapping_diff(slot | cyc_mask(k), tail_cycle) < 0,
                    slot == (slot | cyc_mask(k)) || slot == ((slot | cyc_mask(k)) ^ slots),
                    wrapping_diff(h, tail) <= 0,
                    pre.head.0 == h,
                    order + 1 == k,
                    capacity == span(order as u64),
                    slots == 2 * capacity,
                    capacity <= 0x8000_0000,
                    self.threshold == pre.threshold,
                ensures
                    self.wf(),
                    self.order@ == k,
                    self.head.0 == h,
                    self.tail.0 == t0,
                    self.view() == old(self).view(),
                decreases 1nat,
            {
                let slot_cycle = slot | (2 * slots - 1);
                // the reader of this cycle has already passed this slot
                if wrapping_sub_signed(slot_cycle, tail_cycle) >= 0 {
                    break;
                }
                // the slot is vacant and safe, or vacant and unsafe with no reader yet
                if slot == slot_cycle || (slot == slot_cycle ^ slots && wrapping_sub_signed(
                    self.head.0,
                    tail,
                ) <= 0) {
                    // mark as safe and set the cycle
                    let new_slot = tail_cycle ^ (index as u64) ^ (slots - 1);
                    match compare_exchange_at(&mut self.slots.0, tail_index as usize, slot, new_slot) {
                        Err(found) => {
                            slot = found;
                            continue;
                        },
                        Ok(_) => {
                            // reset the threshold
                            let threshold = IndexQueue::threshold(capacity, slots);
                            if self.threshold.0 != threshold {
                                self.threshold.0 = threshold;
                            }
                            proof {
                                lemma_store_word(tail, index as u64, k);
                                lemma_after_push(*self, pre, index);
                            }
                            return;
                        },
                    }
                }
                break;
            }
        }
    }

    /// Removes the oldest index, or returns `None` if the queue is empty.
    ///
    /// A pop that finds the queue empty gives up at once when the threshold
    /// is spent; otherwise it still moves the head (and the tail with it) one
    /// position forward, after marking the skipped slot with the head's cycle,
    /// and spends one unit of the threshold.
    pub fn pop(&mut self, order: usize) -> (r: Option<usize>)
        requires
            old(self).wf(),
            old(self).can_advance(),
            order + 1 == old(self).order(),
        ensures
            final(self).wf(),
            final(self).capacity() == old(self).capacity(),
            final(self).order() == old(self).order(),
            old(self).view().len() == 0 ==> r == None::<usize> && final(self).view() == old(self).view(),
            old(self).view().len() == 0 && old(self).threshold_value() < 0 ==> *final(self) == *old(self),
            old(self).view().len() == 0 && old(self).threshold_value() >= 0 ==> final(self).head_pos()
                == old(self).head_pos() + 1 && final(self).tail_pos() == old(self).tail_pos() + 1
                && final(self).threshold_value() == old(self).threshold_value() - 1,
            old(self).view().len() > 0 ==> r == Some(old(self).view()[0]) && final(self).view()
                == old(self).view().drop_first() && final(self).head_pos() == old(self).head_pos() + 1
                && final(self).tail_pos() == old(self).tail_pos()
                && final(self).threshold_value() == old(self).threshold_value(),
    {
        // the queue is empty
        if self.threshold.0 < 0 {
            return None;
        }
        let slots: u64 = 1u64 << ((order + 1) as u64);
        let ghost k = self.order@;
        let ghost pre = *self;
        proof {
            lemma_span(k);
        }
        loop
            invariant
                *self == pre,
                pre == *old(self),
                pre.wf(),
                pre.can_advance(),
                pre.threshold.0 >= 0,
                order + 1 == k,
                k == pre.order@,
                slots == span(k),
                1 <= k <= 32,
                2 <= slots <= 0x1_0000_0000,
            decreases 1nat,
        {
            // acquire a slot
            let head = self.head.0;
            self.head.0 = head + 1;
            let head_index = cache_remap(head, order as u64, slots);
            let head_cycle = (head << 1) | (2 * slots - 1);
            let ghost v = pre.slots.0@[head_index as int];
            proof {
                lemma_span(k);
                lemma_rslot_bound(head, k);
                assert(head_index == rpos_slot(head, k));
                lemma_rwindow(head, head, k);
                lemma_slot_bound(head, k);
                lemma_remap(pos_slot(head, k), k);
                assert(pre.slot_ok(head_index as int));
                lemma_cycle_word_eq(v, head, k);
                lemma_same_slot_order(word_gen(v, k), head, k);
                if pre.view().len() == 0 {
                    lemma_cycle_word_older(v, head, k);
                } else {
                    lemma_slot_bound(v, k);
                    assert(((head + 0) as u64) == head);
                    assert(pre.view()[0] == word_idx(v, k) as usize);
                }
                lemma_clear_word(v, k);
                lemma_advance_word(v, head, k);
                if word_idx(v, k) == idx_mask(k) {
                    lemma_vacant_word(v, k);
                }
            }
            let mut spun: usize = 0;
            loop
                invariant
                    self.head.0 == head + 1,
                    self.tail == pre.tail,
                    self.slots == pre.slots,
                    self.order == pre.order,
                    self.threshold == pre.threshold,
                    pre.threshold.0 >= 0,
                    pre == *old(self),
                    pre.wf(),
                    pre.can_advance(),
                    head == pre.head.0,
                    head_index == rpos_slot(head, k),
                    head_index < slots,
                    head_cycle == (head << 1u64) | cyc_mask(k),
                    2 * slots - 1 == cyc_mask(k),
                    slots - 1 == idx_mask(k),
                    v == pre.slots.0@[head_index as int],
                    k == pre.order@,
                    slots == span(k),
                    1 <= k <= 32,
                    2 <= slots <= 0x1_0000_0000,
                    (v | cyc_mask(k) == head_cycle) == (pre.view().len() > 0),
                    (v | cyc_mask(k) == head_cycle) == (word_gen(v, k) == pos_gen(head, k)),
                    pre.view().len() > 0 ==> word_idx(v, k) == pre.view()[0],
                    pre.view().len() == 0 ==> wrapping_diff(v | cyc_mask(k), head_cycle) < 0,
                    pre.view().len() == 0 ==> (v | slots) == (v | cyc_mask(k)),
                    (v | idx_mask(k)) >> ((k + 1) as u64) == word_gen(v, k),
                    word_idx(v | idx_mask(k), k) == idx_mask(k),
                    (head_cycle ^ (!v & slots)) >> ((k + 1) as u64) == pos_gen(head, k),
                    word_idx(head_cycle ^ (!v & slots), k) == idx_mask(k),
                    spun <= SPIN_LIMIT,
                ensures
                    *self == pre,
                    pre.threshold.0 >= 0,
                decreases SPIN_LIMIT + 1 - spun,
            {
                let mut slot = self.slots.0[head_index as usize];
                let mut spin = false;
                loop
                    invariant_except_break
                        self.slots == pre.slots,
                        !spin,
                    invariant
                        self.head.0 == head + 1,
                        self.tail == pre.tail,
                        self.order == pre.order,
                        self.threshold == pre.threshold,
                        pre.threshold.0 >= 0,
                        pre == *old(self),
                        pre.wf(),
                        pre.can_advance(),
                        head == pre.head.0,
                        head_index == rpos_slot(head, k),
                        head_index < slots,
                        head_cycle == (head << 1u64) | cyc_mask(k),
                        2 * slots - 1 == cyc_mask(k),
                        slots - 1 == idx_mask(k),
                        v == pre.slots.0@[head_index as int],
                        slot == v,
                        k == pre.order@,
                        slots == span(k),
                        1 <= k <= 32,
                        2 <= slots <= 0x1_0000_0000,
                        (v | cyc_mask(k) == head_cycle) == (pre.view().len() > 0),
                        (v | cyc_mask(k) == head_cycle) == (word_gen(v, k) == pos_gen(head, k)),
                    (v | cyc_mask(k) == head_cycle) == (word_gen(v, k) == pos_gen(head, k)),
                        pre.view().len() > 0 ==> word_idx(v, k) == pre.view()[0],
                        pre.view().len() == 0 ==> wrapping_diff(v | cyc_mask(k), head_cycle) < 0,
                        pre.view().len() == 0 ==> (v | slots) == (v | cyc_mask(k)),
                        (v | idx_mask(k)) >> ((k + 1) as u64) == word_gen(v, k),
                        word_idx(v | idx_mask(k), k) == idx_mask(k),
                        (head_cycle ^ (!v & slots)) >> ((k + 1) as u64) == pos_gen(head, k),
                        word_idx(head_cycle ^ (!v & slots), k) == idx_mask(k),
                        spun <= SPIN_LIMIT,
                    ensures
                        self.head.0 == head + 1,
                        self.tail == pre.tail,
                        self.order == pre.order,
                        self.threshold == pre.threshold,
                        pre.view().len() == 0,
                        spin ==> spun < SPIN_LIMIT && self.slots == pre.slots,
                        !spin ==> self.slots.0@ == pre.slots.0@.update(
                            head_index as int,
                            head_cycle ^ (!v & slots),
                        ),
                    decreases 1nat,
                {
                    let slot_cycle = slot | (2 * slots - 1);
                    // the cycles match, we can read from this slot
                    if slot_cycle == head_cycle {
                        // mark as unused, preserving the cycle and safety
                        let cleared = self.slots.0[head_index as usize] | (slots - 1);
                        self.slots.0.set(head_index as usize, cleared);
                        proof {
                            lemma_after_pop(*self, pre);
                        }
                        return Some((slot & (slots - 1)) as usize);
                    }
                    // this slot is from an earlier cycle
                    if wrapping_sub_signed(slot_cycle, head_cycle) < 0 {
                        // if the slot is unused, update its cycle for the next writer
                        let new_slot = if (slot | slots) == slot_cycle {
                            // but first spin for a bit, in case the writer arrives soon
                            if spun < SPIN_LIMIT {
                                spin = true;
                                break ;
                            }
                            // preserve the safety bit
                            head_cycle ^ (!slot & slots)
                        } else {
                            // mark a slot occupied by a previous cycle as unsafe
                            let unsafe_slot = slot & !slots;
                            if slot == unsafe_slot {
                                break ;
                            }
                            unsafe_slot
                        };
                        match compare_exchange_at(&mut self.slots.0, head_index as usize, slot, new_slot) {
                            Err(found) => {
                                slot = found;
                                continue ;
                            },
                            Ok(_) => {},
                        }
                    }
                    break ;
                }
                if spin {
                    spun += 1;
                    spin_rounds(spun);
                    continue ;
                }
                let tail = self.tail.0;
                // the head overtook the tail: push the tail forward
                if tail <= head + 1 {
                    self.catchup(tail, head + 1);
                    self.threshold.0 = self.threshold.0 - 1;
                    proof {
                        lemma_after_empty_pop(*self, pre);
                    }
                    return None;
                }
                let threshold = self.threshold.0;
                self.threshold.0 = threshold - 1;
                if threshold <= 0 {
                    return None;
                }
                break ;
            }
        }
    }

    /// The number of indices in the queue.
    pub fn len(&self, order: usize) -> (r: usize)
        requires
            self.wf(),
            order + 1 == self.order(),
        ensures
            r == self.view().len(),
            r <= self.capacity(),
    {
        let ghost k = self.order@;
        proof {
            lemma_span(k);
            lemma_span(order as u64);
            assert(span(k) == 2 * span(order as u64));
        }
        let capacity: u64 = 1u64 << (order as u64);
        loop
            invariant
                self.wf(),
                order + 1 == self.order(),
                capacity == span(order as u64),
                1 <= capacity <= 0x8000_0000,
                self.tail.0 - self.head.0 <= capacity,
            decreases 1nat,
        {
            let tail = self.tail.0;
            let head = self.head.0;
            // make sure we have consistent values to work with
            if self.tail.0 == tail {
                let head_index = head & (capacity - 1);
                let tail_index = tail & (capacity - 1);
                proof {
                    lemma_len_bits(head, tail, order as u64);
                }
                let r = if head_index < tail_index {
                    tail_index - head_index
                } else if head_index > tail_index {
                    capacity - (head_index - tail_index)
                } else if tail == head {
                    0
                } else {
                    capacity
                };
                return r as usize;
            }
        }
    }

    /// Moves the tail forward to `head`, unless another step moved it first.
    fn catchup(&mut self, tail: u64, head: u64)
        requires
            old(self).tail.0 == tail,
        ensures
            final(self).tail.0 == head,
            final(self).head == old(self).head,
            final(self).slots == old(self).slots,
            final(self).order == old(self).order,
            final(self).threshold == old(self).threshold,
    {
        let ghost target = head;
        let mut tail = tail;
        let mut head = head;
        loop
            invariant_except_break
                self.tail.0 == tail,
            invariant
                head == target,
                self.head == old(self).head,
                self.slots == old(self).slots,
                self.order == old(self).order,
                self.threshold == old(self).threshold,
            ensures
                self.tail.0 == target,
                self.head == old(self).head,
                self.slots == old(self).slots,
                self.order == old(self).order,
                self.threshold == old(self).threshold,
            decreases 1nat,
        {
            match compare_exchange(&mut self.tail.0, tail, head) {
                Ok(_) => break ,
                Err(found) => {
                    tail = found;
                    head = self.head.0;
                    if wrapping_sub_signed(tail, head) >= 0 {
                        break ;
                    }
                },
            }
        }
    }
}

/// The distance between two counters at most one capacity apart is found
/// from their indices modulo the capacity.
proof fn lemma_len_bits(h: u64, t: u64, o: u64)
    by (bit_vector)
    requires
        o <= 31,
        h <= t,
        t - h <= (1u64 << o),
        t < 0x4000_0000_0000_0000u64,
    ensures
        (h & (((1u64 << o) - 1) as u64)) < (t & (((1u64 << o) - 1) as u64)) ==> (t & (((1u64 << o)
            - 1) as u64)) - (h & (((1u64 << o) - 1) as u64)) == t - h,
        (h & (((1u64 << o) - 1) as u64)) > (t & (((1u64 << o) - 1) as u64)) ==> (1u64 << o) - ((h
            & (((1u64 << o) - 1) as u64)) - (t & (((1u64 << o) - 1) as u64))) == t - h,
        (h & (((1u64 << o) - 1) as u64)) == (t & (((1u64 << o) - 1) as u64)) ==> (t == h || t - h
            == (1u64 << o)),
{
}

/// Writing `index` into the tail's slot and moving the tail appends `index`.
proof fn lemma_after_push(post: IndexQueue, pre: IndexQueue, index: usize)
    requires
        pre.wf(),
        pre.view().len() < pre.capacity(),
        index < pre.capacity(),
        pre.tail.0 + 1 < position_limit(),
        post.head == pre.head,
        post.order == pre.order,
        post.tail.0 == pre.tail.0 + 1,
        post.slots.0@.len() == pre.slots.0@.len(),
        forall|i: int|
            0 <= i < pre.slots.0@.len() && i != rpos_slot(pre.tail.0, pre.order@) ==> post.slots.0@[i]
                == pre.slots.0@[i],
        word_gen(post.slots.0@[rpos_slot(pre.tail.0, pre.order@) as int], pre.order@) == pos_gen(
            pre.tail.0,
            pre.order@,
        ),
        word_idx(post.slots.0@[rpos_slot(pre.tail.0, pre.order@) as int], pre.order@) == index,
        post.threshold.0 == full_threshold(pre.order@),
    ensures
        post.wf(),
        post.view() == pre.view().push(index),
{
    let k = pre.order@;
    let h = pre.head.0;
    let t = pre.tail.0;
    let ti = rpos_slot(t, k);
    lemma_span(k);
    lemma_rwindow(h, t, k);
    lemma_lex_order(t, (t + 1) as u64, k);
    assert forall|i: int| 0 <= i < span(k) implies #[trigger] post.slot_ok(i) by {
        assert(pre.slot_ok(i));
        lemma_rwindow_slot(h, i as u64, k);
        if i != ti {
            assert(rwindow_pos(h, i as u64, k) != t);
        }
    }
    assert forall|j: int| 0 <= j < post.view().len() implies post.view()[j] == pre.view().push(
        index,
    )[j] by {
        assert(((h + j) as u64) == h + j);
        lemma_rslot_bound((h + j) as u64, k);
        if j < pre.view().len() {
            lemma_rwindow(h, (h + j) as u64, k);
            assert(rpos_slot((h + j) as u64, k) != ti);
            assert(post.view()[j] == pre.view()[j]);
        } else {
            assert(h + j == t);
        }
    }
    assert(post.view() =~= pre.view().push(index));
}

/// Clearing the head's slot and moving the head removes the oldest index.
proof fn lemma_after_pop(post: IndexQueue, pre: IndexQueue)
    requires
        pre.wf(),
        pre.view().len() > 0,
        post.tail == pre.tail,
        post.order == pre.order,
        post.head.0 == pre.head.0 + 1,
        post.slots.0@.len() == pre.slots.0@.len(),
        forall|i: int|
            0 <= i < pre.slots.0@.len() && i != rpos_slot(pre.head.0, pre.order@) ==> post.slots.0@[i]
                == pre.slots.0@[i],
        word_gen(post.slots.0@[rpos_slot(pre.head.0, pre.order@) as int], pre.order@) == pos_gen(
            pre.head.0,
            pre.order@,
        ),
        word_idx(post.slots.0@[rpos_slot(pre.head.0, pre.order@) as int], pre.order@) == idx_mask(
            pre.order@,
        ),
        post.threshold == pre.threshold,
    ensures
        post.wf(),
        post.view() == pre.view().drop_first(),
{
    let k = pre.order@;
    let h = pre.head.0;
    let t = pre.tail.0;
    let hi = rpos_slot(h, k);
    lemma_span(k);
    lemma_rwindow(h, h, k);
    lemma_slot_bound(h, k);
    lemma_remap(pos_slot(h, k), k);
    lemma_lex_order(h, t, k);
    assert forall|i: int| 0 <= i < span(k) implies #[trigger] post.slot_ok(i) by {
        assert(pre.slot_ok(i));
        lemma_rwindow_slot(h, i as u64, k);
        lemma_rwindow_slot((h + 1) as u64, i as u64, k);
        if i == hi {
            lemma_rslot_period(h, k);
            lemma_rwindow((h + 1) as u64, (h + span(k)) as u64, k);
            assert(rwindow_pos((h + 1) as u64, i as u64, k) == h + span(k));
        } else {
            let p = rwindow_pos(h, i as u64, k);
            assert(p != h);
            lemma_rwindow((h + 1) as u64, p as u64, k);
        }
    }
    assert forall|j: int| 0 <= j < post.view().len() implies post.view()[j]
        == pre.view().drop_first()[j] by {
        lemma_rslot_bound((h + 1 + j) as u64, k);
        lemma_rwindow(h, (h + 1 + j) as u64, k);
        assert(rpos_slot((h + 1 + j) as u64, k) != hi);
    }
    assert(post.view() =~= pre.view().drop_first());
}

/// Marking the head's vacant slot with the head's cycle and moving both counters on
/// leaves the queue empty.
proof fn lemma_after_empty_pop(post: IndexQueue, pre: IndexQueue)
    requires
        pre.wf(),
        pre.can_advance(),
        pre.view().len() == 0,
        post.order == pre.order,
        post.head.0 == pre.head.0 + 1,
        post.tail.0 == pre.tail.0 + 1,
        post.slots.0@.len() == pre.slots.0@.len(),
        forall|i: int|
            0 <= i < pre.slots.0@.len() && i != rpos_slot(pre.head.0, pre.order@) ==> post.slots.0@[i]
                == pre.slots.0@[i],
        word_gen(post.slots.0@[rpos_slot(pre.head.0, pre.order@) as int], pre.order@) == pos_gen(
            pre.head.0,
            pre.order@,
        ),
        word_idx(post.slots.0@[rpos_slot(pre.head.0, pre.order@) as int], pre.order@) == idx_mask(
            pre.order@,
        ),
        pre.threshold.0 >= 0,
        post.threshold.0 == pre.threshold.0 - 1,
    ensures
        post.wf(),
        post.view() == pre.view(),
{
    let k = pre.order@;
    let h = pre.head.0;
    let hi = rpos_slot(h, k);
    lemma_span(k);
    lemma_rwindow(h, h, k);
    lemma_slot_bound(h, k);
    lemma_remap(pos_slot(h, k), k);
    lemma_lex_order(h, (h + 1) as u64, k);
    assert forall|i: int| 0 <= i < span(k) implies #[trigger] post.slot_ok(i) by {
        assert(pre.slot_ok(i));
        lemma_rwindow_slot(h, i as u64, k);
        lemma_rwindow_slot((h + 1) as u64, i as u64, k);
        if i != hi {
            assert(post.slots.0@[i] == pre.slots.0@[i]);
        }
    }
    assert(post.view() =~= pre.view());
}

} // verus!
