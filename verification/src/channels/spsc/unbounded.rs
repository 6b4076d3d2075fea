//! An unbounded single-producer single-consumer queue made of a chain of
//! blocks of slots.
//!
//! The producer writes the slot at its index in the tail block; when it
//! writes the last slot of a block it links the next block first. The
//! consumer reads the slot at its index in the head block and, past the last
//! slot, moves to the next block and releases the one it left. No block
//! exists before the first push.
//!
//! Blocks are kept in chain order: the first is the head block and the last
//! the tail block.
use vstd::prelude::*;

verus! {

/// Slots per block.
pub const SLOTS: usize = 1024;

/// A slot: its value, and whether a value was stored in it.
struct Slot<T> {
    value: Option<T>,
    active: bool,
}

impl<T> Slot<T> {
    /// An empty slot.
    fn new() -> (s: Slot<T>)
        ensures
            !s.active,
            s.value is None,
    {
        Slot { value: None, active: false }
    }
}

/// A block of slots.
struct Block<T> {
    slots: Vec<Slot<T>>,
}

impl<T> Block<T> {
    /// A block whose slots are all empty.
    fn new() -> (b: Block<T>)
        ensures
            b.slots@.len() == SLOTS,
            forall|s: int| 0 <= s < SLOTS ==> !(#[trigger] b.slots@[s]).active && b.slots@[s].value is None,
    {
        let mut slots: Vec<Slot<T>> = Vec::new();
        let mut i: usize = 0;
        while i < SLOTS
            invariant
                i <= SLOTS,
                slots@.len() == i,
                forall|s: int| 0 <= s < i ==> !(#[trigger] slots@[s]).active && slots@[s].value is None,
            decreases SLOTS - i,
        {
            slots.push(Slot::new());
            i = i + 1;
        }
        Block { slots }
    }
}

/// The block of position `a`, counted from the start of the head block.
pub open spec fn block_of(a: int) -> int {
    a / (SLOTS as int)
}

/// The index of position `a` in its block.
pub open spec fn index_of(a: int) -> int {
    a % (SLOTS as int)
}

/// Position `b * SLOTS + i` lies in block `b` at index `i`.
proof fn lemma_pos(b: int, i: int)
    requires
        b >= 0,
        0 <= i < SLOTS,
    ensures
        block_of(b * SLOTS + i) == b,
        index_of(b * SLOTS + i) == i,
{
}

/// A position lies in the block and at the index that divide it.
proof fn lemma_split(a: int)
    requires
        a >= 0,
    ensures
        a == block_of(a) * SLOTS + index_of(a),
        0 <= index_of(a) < SLOTS,
        block_of(a) >= 0,
{
}

/// An unbounded single-producer single-consumer queue.
pub struct Queue<T> {
    blocks: Vec<Block<T>>,
    head: usize,
    tail: usize,
}

impl<T> Queue<T> {
    spec fn slot_at(&self, a: int) -> Slot<T> {
        self.blocks@[block_of(a)].slots@[index_of(a)]
    }

    /// The position of the tail, counted from the start of the head block.
    spec fn end(&self) -> int {
        if self.blocks@.len() == 0 {
            0
        } else {
            (self.blocks@.len() - 1) * SLOTS + self.tail
        }
    }

    /// The values in the queue, oldest first.
    pub closed spec fn view(&self) -> Seq<T> {
        Seq::new((self.end() - self.head) as nat, |p: int| self.slot_at(self.head + p).value->Some_0)
    }

    /// The number of blocks in the chain.
    pub closed spec fn blocks(&self) -> nat {
        self.blocks@.len()
    }

    pub closed spec fn wf(&self) -> bool {
        let n = self.blocks@.len();
        &&& n == 0 ==> self.head == 0 && self.tail == 0
        &&& forall|b: int| 0 <= b < n ==> (#[trigger] self.blocks@[b]).slots@.len() == SLOTS
        &&& self.head <= SLOTS
        &&& self.tail < SLOTS
        &&& self.head <= self.end()
        &&& forall|a: int|
            0 <= a < n * SLOTS ==> {
                let s = #[trigger] self.slot_at(a);
                &&& a < self.head ==> s.active && s.value is None
                &&& self.head <= a < self.end() ==> s.active && s.value is Some
                &&& self.end() <= a ==> !s.active && s.value is None
            }
    }

    /// An empty queue with no block yet.
    pub fn new() -> (q: Queue<T>)
        ensures
            q.wf(),
            q.view() == Seq::<T>::empty(),
            q.blocks() == 0,
    {
        let q = Queue { blocks: Vec::new(), head: 0, tail: 0 };
        assert(q.view() =~= Seq::<T>::empty());
        q
    }

    /// Replaces the slot at index `i` of block `b`, answering the slot it held.
    fn write_slot(&mut self, b: usize, i: usize, slot: Slot<T>) -> (prev: Slot<T>)
        requires
            b < old(self).blocks@.len(),
            i < SLOTS,
            old(self).blocks@[b as int].slots@.len() == SLOTS,
        ensures
            prev == old(self).blocks@[b as int].slots@[i as int],
            final(self).blocks@.len() == old(self).blocks@.len(),
            final(self).head == old(self).head,
            final(self).tail == old(self).tail,
            forall|c: int| 0 <= c < old(self).blocks@.len() ==> (#[trigger] final(self).blocks@[c]).slots@.len()
                == old(self).blocks@[c].slots@.len(),
            forall|a: int| #![trigger final(self).slot_at(a)] 0 <= a && block_of(a) < old(self).blocks@.len()
                ==> final(self).slot_at(a) == (if a == b * SLOTS + i {
                slot
            } else {
                old(self).slot_at(a)
            }),
    {
        let ghost new_slot = slot;
        let mut slot = slot;
        let blk = &mut self.blocks[b];
        std::mem::swap(&mut slot, &mut blk.slots[i]);
        proof {
            assert forall|a: int| #![trigger self.slot_at(a)] 0 <= a && block_of(a) < old(self).blocks@.len()
                implies self.slot_at(a) == (if a == b * SLOTS + i {
                new_slot
            } else {
                old(self).slot_at(a)
            }) by {
                lemma_split(a);
                lemma_pos(b as int, i as int);
                if a == b * SLOTS + i {
                } else if block_of(a) == b {
                    assert(index_of(a) != i);
                    assert(self.blocks@[b as int].slots@[index_of(a)] == old(self).blocks@[b as int].slots@[index_of(a)]);
                } else {
                    assert(self.blocks@[block_of(a)] == old(self).blocks@[block_of(a)]);
                }
            }
            assert forall|c: int| 0 <= c < old(self).blocks@.len() implies (#[trigger] self.blocks@[c]).slots@.len()
                == old(self).blocks@[c].slots@.len() by {
                if c != b {
                    assert(self.blocks@[c] == old(self).blocks@[c]);
                }
            }
        }
        slot
    }

    /// Appends `value`. The producer links the next block when it writes the
    /// last slot of the tail block, and the first block on the first push.
    pub fn push(&mut self, value: T)
        requires
            old(self).wf(),
        ensures
            final(self).wf(),
            final(self).view() == old(self).view().push(value),
            final(self).blocks() <= old(self).blocks() + 1,
    {
        let index = self.tail;
        let next_index = (index + 1) % SLOTS;
        let len = self.blocks.len();
        let started = len > 0;
        let ghost pre = *self;
        if !started || next_index == 0 {
            let new_block = Block::new();
            self.blocks.push(new_block);
        }
        let b: usize = if started {
            len - 1
        } else {
            0
        };
        self.tail = next_index;
        proof {
            assert forall|c: int| 0 <= c < self.blocks@.len() implies (#[trigger] self.blocks@[c]).slots@.len() == SLOTS by {
                if c < pre.blocks@.len() {
                    assert(self.blocks@[c] == pre.blocks@[c]);
                }
            }
        }
        let ghost mid = *self;
        let _ = self.write_slot(b, index, Slot { value: Some(value), active: true });
        proof {
            self.lemma_after_push(pre, mid, value, b as int);
        }
    }

    proof fn lemma_after_push(&self, pre: Queue<T>, mid: Queue<T>, v: T, b: int)
        requires
            pre.wf(),
            pre.blocks@.len() > 0 ==> b == pre.blocks@.len() - 1,
            pre.blocks@.len() == 0 ==> b == 0,
            pre.blocks@.len() == 0 || (pre.tail + 1) % (SLOTS as int) == 0 ==> mid.blocks@ == pre.blocks@.push(
                mid.blocks@.last(),
            ) && mid.blocks@.last().slots@.len() == SLOTS && forall|s: int|
                0 <= s < SLOTS ==> !(#[trigger] mid.blocks@.last().slots@[s]).active
                    && mid.blocks@.last().slots@[s].value is None,
            !(pre.blocks@.len() == 0 || (pre.tail + 1) % (SLOTS as int) == 0) ==> mid.blocks@ == pre.blocks@,
            mid.head == pre.head,
            mid.tail == (pre.tail + 1) % (SLOTS as int),
            self.blocks@.len() == mid.blocks@.len(),
            self.head == mid.head,
            self.tail == mid.tail,
            forall|c: int| 0 <= c < mid.blocks@.len() ==> (#[trigger] mid.blocks@[c]).slots@.len() == SLOTS,
            forall|c: int| 0 <= c < mid.blocks@.len() ==> (#[trigger] self.blocks@[c]).slots@.len()
                == mid.blocks@[c].slots@.len(),
            forall|a: int| #![trigger self.slot_at(a)] 0 <= a && block_of(a) < mid.blocks@.len() ==> self.slot_at(a)
                == (if a == b * SLOTS + pre.tail {
                Slot { value: Some(v), active: true }
            } else {
                mid.slot_at(a)
            }),
        ensures
            self.wf(),
            self.view() == pre.view().push(v),
            self.blocks() <= pre.blocks() + 1,
    {
        let n = pre.blocks@.len();
        let m = self.blocks@.len();
        let p = b * SLOTS + pre.tail;
        assert(p == pre.end());
        assert(self.end() == p + 1) by {
            if n > 0 && (pre.tail + 1) % (SLOTS as int) != 0 {
                assert(m == n);
            }
        }
        assert forall|a: int| 0 <= a < m * SLOTS && a != p implies #[trigger] mid.slot_at(a) == (if a < n * SLOTS {
            pre.slot_at(a)
        } else {
            Slot { value: None::<T>, active: false }
        }) && (a < n * SLOTS <==> block_of(a) < n) by {
            lemma_split(a);
            assert(block_of(a) < m) by (nonlinear_arith)
                requires a < m * SLOTS, a == block_of(a) * SLOTS + index_of(a), 0 <= index_of(a) < SLOTS;
            if block_of(a) < n {
                assert(mid.blocks@[block_of(a)] == pre.blocks@[block_of(a)]);
                assert(a < n * SLOTS) by (nonlinear_arith)
                    requires block_of(a) < n, a == block_of(a) * SLOTS + index_of(a), 0 <= index_of(a) < SLOTS;
            } else {
                assert(a >= n * SLOTS) by (nonlinear_arith)
                    requires block_of(a) >= n, a == block_of(a) * SLOTS + index_of(a), 0 <= index_of(a) < SLOTS;
            }
        }
        assert(p < m * SLOTS) by (nonlinear_arith)
            requires p == b * SLOTS + pre.tail, 0 <= b < m, pre.tail < SLOTS;
        lemma_pos(b, pre.tail as int);
        assert forall|a: int| 0 <= a < m * SLOTS implies {
            let s = #[trigger] self.slot_at(a);
            &&& a < self.head ==> s.active && s.value is None
            &&& self.head <= a < self.end() ==> s.active && s.value is Some
            &&& self.end() <= a ==> !s.active && s.value is None
        } by {
            lemma_split(a);
            assert(block_of(a) < m) by (nonlinear_arith)
                requires a < m * SLOTS, a == block_of(a) * SLOTS + index_of(a), 0 <= index_of(a) < SLOTS;
            if a != p {
                assert(mid.slot_at(a) == mid.slot_at(a));
            }
        }
        assert(self.view() =~= pre.view().push(v)) by {
            assert forall|q: int| 0 <= q < self.view().len() implies #[trigger] self.view()[q] == pre.view().push(v)[q] by {
                let a = self.head + q;
                assert(a < m * SLOTS);
                lemma_split(a);
                assert(block_of(a) < m) by (nonlinear_arith)
                    requires a < m * SLOTS, a == block_of(a) * SLOTS + index_of(a), 0 <= index_of(a) < SLOTS;
                if a != p {
                    assert(mid.slot_at(a) == mid.slot_at(a));
                }
            }
        }
    }

    /// Removes the oldest value, if any. Past the last slot of the head block
    /// the consumer moves to the next block and releases the one it left.
    pub fn pop(&mut self) -> (r: Option<T>)
        requires
            old(self).wf(),
        ensures
            final(self).wf(),
            final(self).blocks() <= old(self).blocks(),
            old(self).view().len() == 0 ==> r is None && final(self).view() == old(self).view(),
            old(self).view().len() > 0 ==> r == Some(old(self).view()[0]) && final(self).view()
                == old(self).view().drop_first(),
    {
        if self.blocks.len() == 0 {
            return None;
        }
        let mut index = self.head;
        if index == SLOTS {
            // the head block is used up: move to the next block
            if self.blocks.len() == 1 {
                return None;
            }
            let ghost pre = *self;
            let _ = self.blocks.remove(0);
            index = 0;
            self.head = index;
            proof {
                self.lemma_after_advance(pre);
            }
        }
        let ghost pre = *self;
        proof {
            lemma_pos(0, index as int);
            assert(self.slot_at(0 * SLOTS + index) == self.blocks@[0].slots@[index as int]);
            assert(index < self.blocks@.len() * SLOTS);
        }
        if !self.blocks[0].slots[index].active {
            return None;
        }
        let slot = self.write_slot(0, index, Slot { value: None, active: true });
        let ghost written = *self;
        self.head = index + 1;
        proof {
            assert(index == pre.head);
            assert(forall|a: int| #![trigger written.slot_at(a)] 0 <= a && block_of(a) < pre.blocks@.len() ==> written.slot_at(a)
                == (if a == 0 * SLOTS + index {
                Slot { value: None::<T>, active: true }
            } else {
                pre.slot_at(a)
            }));
            assert(forall|a: int| #![trigger self.slot_at(a)] self.slot_at(a) == written.slot_at(a));
            assert forall|a: int| #![trigger self.slot_at(a)] 0 <= a && block_of(a) < pre.blocks@.len() implies self.slot_at(a)
                == (if a == 0 * SLOTS + pre.head {
                Slot { value: None::<T>, active: true }
            } else {
                pre.slot_at(a)
            }) by {}
            self.lemma_after_read(pre);
        }
        slot.value
    }

    proof fn lemma_after_advance(&self, pre: Queue<T>)
        requires
            pre.wf(),
            pre.head == SLOTS,
            pre.blocks@.len() > 1,
            self.blocks@ == pre.blocks@.subrange(1, pre.blocks@.len() as int),
            self.head == 0,
            self.tail == pre.tail,
        ensures
            self.wf(),
            self.view() == pre.view(),
            self.blocks() < pre.blocks(),
    {
        let n = pre.blocks@.len();
        assert forall|a: int| 0 <= a < (n - 1) * SLOTS implies #[trigger] self.slot_at(a) == pre.slot_at(a + SLOTS) by {
            lemma_split(a);
            assert(block_of(a) < n - 1) by (nonlinear_arith)
                requires a < (n - 1) * SLOTS, a == block_of(a) * SLOTS + index_of(a), 0 <= index_of(a) < SLOTS;
            lemma_pos(block_of(a) + 1, index_of(a));
            assert(a + SLOTS == (block_of(a) + 1) * SLOTS + index_of(a)) by (nonlinear_arith)
                requires a == block_of(a) * SLOTS + index_of(a);
        }
        assert forall|a: int| 0 <= a < (n - 1) * SLOTS implies {
            let s = #[trigger] self.slot_at(a);
            &&& a < self.head ==> s.active && s.value is None
            &&& self.head <= a < self.end() ==> s.active && s.value is Some
            &&& self.end() <= a ==> !s.active && s.value is None
        } by {
            assert(a + SLOTS < n * SLOTS) by (nonlinear_arith)
                requires a < (n - 1) * SLOTS;
        }
        assert forall|b: int| 0 <= b < n - 1 implies (#[trigger] self.blocks@[b]).slots@.len() == SLOTS by {
            assert(self.blocks@[b] == pre.blocks@[b + 1]);
        }
        assert(self.view() =~= pre.view()) by {
            assert forall|p: int| 0 <= p < self.view().len() implies #[trigger] self.view()[p] == pre.view()[p] by {
                assert(self.head + p < (n - 1) * SLOTS);
                assert(self.slot_at(self.head + p) == pre.slot_at(self.head + p + SLOTS));
            }
        }
    }

    proof fn lemma_after_read(&self, pre: Queue<T>)
        requires
            pre.wf(),
            pre.blocks@.len() > 0,
            pre.head < SLOTS,
            pre.slot_at(pre.head as int).active,
            self.blocks@.len() == pre.blocks@.len(),
            self.head == pre.head + 1,
            self.tail == pre.tail,
            forall|c: int| 0 <= c < pre.blocks@.len() ==> (#[trigger] self.blocks@[c]).slots@.len()
                == pre.blocks@[c].slots@.len(),
            forall|a: int| #![trigger self.slot_at(a)] 0 <= a && block_of(a) < pre.blocks@.len() ==> self.slot_at(a)
                == (if a == 0 * SLOTS + pre.head {
                Slot { value: None::<T>, active: true }
            } else {
                pre.slot_at(a)
            }),
        ensures
            self.wf(),
            pre.view().len() > 0,
            self.view() == pre.view().drop_first(),
            self.blocks() == pre.blocks(),
    {
        let n = pre.blocks@.len();
        assert(pre.head < n * SLOTS);
        assert(pre.head < pre.end());
        assert forall|a: int| 0 <= a < n * SLOTS implies {
            let s = #[trigger] self.slot_at(a);
            &&& a < self.head ==> s.active && s.value is None
            &&& self.head <= a < self.end() ==> s.active && s.value is Some
            &&& self.end() <= a ==> !s.active && s.value is None
        } by {
            lemma_split(a);
            assert(block_of(a) < n) by (nonlinear_arith)
                requires a < n * SLOTS, a == block_of(a) * SLOTS + index_of(a), 0 <= index_of(a) < SLOTS;
            assert(pre.slot_at(a) == pre.slot_at(a));
        }
        assert(self.view() =~= pre.view().drop_first()) by {
            assert forall|p: int| 0 <= p < self.view().len() implies #[trigger] self.view()[p] == pre.view().drop_first()[p] by {
                let a = self.head + p;
                lemma_split(a);
                assert(block_of(a) < n) by (nonlinear_arith)
                    requires a < self.end(), self.end() <= n * SLOTS, a == block_of(a) * SLOTS + index_of(a), 0 <= index_of(a) < SLOTS;
            }
        }
    }
}

} // verus!
