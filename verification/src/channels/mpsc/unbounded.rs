//! An unbounded queue made of a chain of blocks of slots, for one consumer.
//!
//! The head and the tail are each a block and an index in it. A push writes
//! the slot at the tail index and moves the index on; past the last slot it
//! links a new block and moves the tail there. A pop reads the slot at the
//! head index, and gives up when the value does not arrive within a few
//! checks; past the last slot it moves the head to the next block. Each block
//! counts the writers that moved past its end and records which ends have
//! left it; the one that completes the record releases the block.
//!
//! Blocks are kept in chain order: the first is the head block and the last
//! the tail block. Blocks are named by ids that grow along the chain.
use crate::raw::util::{lemma_idle_word, spin_hint};
use vstd::prelude::*;

verus! {

/// Slots per block.
pub const BLOCK_SIZE: usize = 1024;

/// Bits of a block position that hold the index.
pub const TAG_BITS: usize = 12;

/// The mask of the index bits.
pub const INDEX_MASK: usize = 4095;

/// The most handles that may push at once.
pub const MAX_SENDERS: usize = 3073;

/// The final count is stored in the upper half of a block's count.
pub const FINAL_COUNT_SHIFT: u32 = 16;

/// The current count is stored in the lower half of a block's count.
pub const CURRENT_COUNT_MASK: u32 = 0xFFFF;

/// The tail of the queue no longer points to the block.
pub const TAIL_ADVANCED: u8 = 0b010;

/// The head of the queue no longer points to the block.
pub const HEAD_ADVANCED: u8 = 0b100;

/// A value was written to the slot.
pub const WRITTEN: u8 = 0b001;

/// The slot was consumed by the reader.
pub const CONSUMED: u8 = 0b010;

/// No value was written to the slot yet.
const UNINIT: u8 = 0b000;

/// A value was written to the slot and consumed.
const READ: u8 = 0b011;

/// What a handle adds to a block's count when it moves past the block's end:
/// one, plus the final count in the upper half when it knows it.
pub open spec fn count_mask(final_count: Option<u32>) -> u32 {
    match final_count {
        Some(f) => ((f << FINAL_COUNT_SHIFT) + 1) as u32,
        None => 1,
    }
}

/// Whether the handle that finds `prev` in a block's count is the last of the
/// handles that move past the block's end.
pub open spec fn count_done(prev: u32, final_count: Option<u32>) -> bool {
    (prev & CURRENT_COUNT_MASK) + 1 == match final_count {
        Some(f) => f,
        None => prev >> FINAL_COUNT_SHIFT,
    }
}

proof fn lemma_count_bits(prev: u32, f: u32)
    by (bit_vector)
    ensures
        f < 0x1_0000u32 ==> (f << 16u32) <= 0xFFFF_0000u32,
        prev & 0xFFFFu32 <= 0xFFFFu32,
        (0u32 & 0xFFFFu32) == 0u32,
        (1u32 << 16u32) == 0x1_0000u32,
        (1u8 | 4u8) == 5u8,
        (1u8 | 2u8) == 3u8,
        (2u8 | 4u8) == 6u8,
{
}

/// Counts a handle that moved past a block's end; answers whether it was the
/// last of them.
fn count_past_end(count: &mut u32, final_count: Option<u32>) -> (r: bool)
    requires
        final_count matches Some(f) ==> f < 0x1_0000,
    ensures
        *final(count) == ((*old(count) + count_mask(final_count)) % 0x1_0000_0000) as u32,
        r == count_done(*old(count), final_count),
{
    let prev = *count;
    proof {
        lemma_count_bits(prev, match final_count {
            Some(f) => f,
            None => 0,
        });
    }
    let mask: u32 = match final_count {
        Some(f) => (f << FINAL_COUNT_SHIFT) + 1,
        None => 1,
    };
    *count = prev.wrapping_add(mask);
    let curr = (prev & CURRENT_COUNT_MASK) + 1;
    let target = match final_count {
        Some(f) => f,
        None => prev >> FINAL_COUNT_SHIFT,
    };
    curr == target
}

/// The count of a block that no handle moved past yet, after the one handle
/// that did, knowing that it is the only one.
proof fn lemma_single_pass()
    ensures
        count_mask(Some(1u32)) == 0x1_0001u32,
        count_done(0, Some(1u32)),
{
    lemma_count_bits(0, 1);
}

/// Moves a tagged block position off block `current`: while it still points
/// to that block it becomes `new` at index `new_index`, and the answer is how
/// many handles moved past the block's end (the index found, past the last
/// slot). A position that points to another block meanwhile is left alone.
fn compare_exchange(
    block: &mut u64,
    index: &mut usize,
    current: u64,
    current_index: usize,
    new: u64,
    new_index: usize,
) -> (r: Option<u32>)
    requires
        *old(block) == current ==> BLOCK_SIZE <= *old(index) <= INDEX_MASK,
    ensures
        *old(block) == current ==> r == Some((*old(index) - BLOCK_SIZE) as u32) && *final(block) == new
            && *final(index) == new_index,
        *old(block) != current ==> r.is_none() && *final(block) == *old(block) && *final(index)
            == *old(index),
{
    let mut current_index = current_index;
    loop
        invariant
            *block == *old(block),
            *index == *old(index),
            *old(block) == current ==> BLOCK_SIZE <= *old(index) <= INDEX_MASK,
        decreases (if *block == current && *index == current_index { 0nat } else { 1nat }),
    {
        if *block == current && *index == current_index {
            *block = new;
            *index = new_index;
            return Some((current_index - BLOCK_SIZE) as u32);
        }
        // the block itself changed
        if *block != current {
            return None;
        }
        // the tag changed
        current_index = *index;
    }
}

/// A slot: its value and its state.
struct Slot<T> {
    value: Option<T>,
    state: u8,
}

/// A block of slots, the count of the writers that moved past its end, and
/// which ends of the queue have left it.
struct Block<T> {
    slots: Vec<Slot<T>>,
    count: u32,
    state: u8,
}

impl<T> Block<T> {
    /// A block whose slots are all empty.
    fn new() -> (b: Block<T>)
        ensures
            b.slots@.len() == BLOCK_SIZE,
            forall|s: int| 0 <= s < BLOCK_SIZE ==> (#[trigger] b.slots@[s]).state == UNINIT && b.slots@[s].value is None,
            b.count == 0,
            b.state == 0,
    {
        let mut slots: Vec<Slot<T>> = Vec::new();
        let mut i: usize = 0;
        while i < BLOCK_SIZE
            invariant
                i <= BLOCK_SIZE,
                slots@.len() == i,
                forall|s: int| 0 <= s < i ==> (#[trigger] slots@[s]).state == UNINIT && slots@[s].value is None,
            decreases BLOCK_SIZE - i,
        {
            slots.push(Slot { value: None, state: UNINIT });
            i = i + 1;
        }
        Block { slots, count: 0, state: 0 }
    }

    /// The tail moved past this block: counts the writer, and when it was the
    /// last one to do so records that the tail left. Answers whether this call
    /// releases the block: the head had left already.
    fn try_reclaim_tail(&mut self, final_count: Option<u32>) -> (r: bool)
        requires
            old(self).state <= 5,
            final_count matches Some(f) ==> f < 0x1_0000,
        ensures
            final(self).slots == old(self).slots,
            final(self).count == ((old(self).count + count_mask(final_count)) % 0x1_0000_0000) as u32,
            count_done(old(self).count, final_count) ==> final(self).state == old(self).state + TAIL_ADVANCED
                && r == (old(self).state == HEAD_ADVANCED),
            !count_done(old(self).count, final_count) ==> final(self).state == old(self).state && !r,
    {
        if count_past_end(&mut self.count, final_count) {
            let flags = self.state;
            self.state = flags + TAIL_ADVANCED;
            flags == HEAD_ADVANCED
        } else {
            false
        }
    }
}

/// How many times a reader checks a slot for its value before it gives up on it.
const SPIN_READ: usize = 16;

/// An unbounded multi-producer single-consumer queue.
pub struct Queue<T> {
    blocks: Vec<Block<T>>,
    head: usize,
    tail: usize,
    first: u64,
    tail_block: u64,
    cached_tail: u64,
    retired: Vec<Block<T>>,
}

/// The block and index of absolute position `a`, counted from the start of
/// the head block.
pub open spec fn block_of(a: int) -> int {
    a / (BLOCK_SIZE as int)
}

pub open spec fn index_of(a: int) -> int {
    a % (BLOCK_SIZE as int)
}

/// Position `b * BLOCK_SIZE + i` lies in block `b` at index `i`.
proof fn lemma_pos(b: int, i: int)
    requires
        b >= 0,
        0 <= i < BLOCK_SIZE,
    ensures
        block_of(b * BLOCK_SIZE + i) == b,
        index_of(b * BLOCK_SIZE + i) == i,
{
}

/// A position lies in the block and at the index that divide it.
proof fn lemma_split(a: int)
    requires
        a >= 0,
    ensures
        a == block_of(a) * BLOCK_SIZE + index_of(a),
        0 <= index_of(a) < BLOCK_SIZE,
        block_of(a) >= 0,
{
}

impl<T> Queue<T> {
    /// Replaces the slot at index `i` of block `b`, answering the slot it held.
    fn write_slot(&mut self, b: usize, i: usize, value: Option<T>, state: u8) -> (prev: Slot<T>)
        requires
            b < old(self).blocks@.len(),
            i < BLOCK_SIZE,
            old(self).blocks@[b as int].slots@.len() == BLOCK_SIZE,
        ensures
            prev == old(self).blocks@[b as int].slots@[i as int],
            final(self).blocks@.len() == old(self).blocks@.len(),
            final(self).head == old(self).head,
            final(self).tail == old(self).tail,
            final(self).first == old(self).first,
            final(self).tail_block == old(self).tail_block,
            final(self).cached_tail == old(self).cached_tail,
            final(self).retired == old(self).retired,
            forall|c: int| 0 <= c < old(self).blocks@.len() && c != b ==> #[trigger] final(self).blocks@[c] == old(self).blocks@[c],
            final(self).blocks@[b as int].slots@ == old(self).blocks@[b as int].slots@.update(i as int, Slot { value, state }),
            final(self).blocks@[b as int].count == old(self).blocks@[b as int].count,
            final(self).blocks@[b as int].state == old(self).blocks@[b as int].state,
            forall|a: int| #![trigger final(self).slot_at(a)] 0 <= a && block_of(a) < old(self).blocks@.len() ==> final(self).slot_at(a) == (if a == b * BLOCK_SIZE + i {
                Slot { value, state }
            } else {
                old(self).slot_at(a)
            }),
    {
        let mut slot = Slot { value, state };
        let blk = &mut self.blocks[b];
        std::mem::swap(&mut slot, &mut blk.slots[i]);
        proof {
            assert forall|a: int| #![trigger self.slot_at(a)] 0 <= a && block_of(a) < old(self).blocks@.len() implies self.slot_at(a) == (if a == b * BLOCK_SIZE + i {
                Slot { value, state }
            } else {
                old(self).slot_at(a)
            }) by {
                lemma_split(a);
                lemma_pos(b as int, i as int);
                if a == b * BLOCK_SIZE + i {
                } else if block_of(a) == b {
                    assert(index_of(a) != i);
                    assert(self.blocks@[b as int].slots@[index_of(a)] == old(self).blocks@[b as int].slots@[index_of(a)]);
                } else {
                    assert(self.blocks@[block_of(a)] == old(self).blocks@[block_of(a)]);
                }
            }
        }
        slot
    }

    spec fn slot_at(&self, a: int) -> Slot<T> {
        self.blocks@[block_of(a)].slots@[index_of(a)]
    }

    /// The absolute position of the tail.
    spec fn end(&self) -> int {
        (self.blocks@.len() - 1) * BLOCK_SIZE + self.tail
    }

    /// The values in the queue, oldest first.
    pub closed spec fn view(&self) -> Seq<T> {
        Seq::new(
            (self.end() - self.head) as nat,
            |p: int| self.slot_at(self.head + p).value->Some_0,
        )
    }

    /// The number of blocks in the chain.
    pub closed spec fn blocks(&self) -> nat {
        self.blocks@.len()
    }

    /// How many more blocks the block ids have room for.
    pub open spec fn room(&self) -> int {
        u64::MAX - self.next_id()
    }

    /// Block ids have room for one more block.
    pub open spec fn can_grow(&self) -> bool {
        self.room() >= 1
    }

    /// No block was left behind unreleased.
    pub closed spec fn retired(&self) -> nat {
        self.retired@.len()
    }

    pub closed spec fn wf(&self) -> bool {
        let n = self.blocks@.len();
        &&& n >= 1
        &&& forall|b: int| 0 <= b < n ==> (#[trigger] self.blocks@[b]).slots@.len() == BLOCK_SIZE
        &&& self.head <= BLOCK_SIZE
        &&& self.tail <= BLOCK_SIZE
        &&& self.head <= self.end()
        &&& n > 1 ==> self.tail >= 1
        &&& forall|a: int|
            0 <= a < n * BLOCK_SIZE ==> {
                let s = #[trigger] self.slot_at(a);
                &&& a < self.head ==> s.state == READ && s.value is None
                &&& self.head <= a < self.end() ==> s.state == WRITTEN && s.value is Some
                &&& self.end() <= a ==> s.state == UNINIT && s.value is None
            }
        &&& forall|b: int|
            0 <= b < n - 1 ==> (#[trigger] self.blocks@[b]).state == TAIL_ADVANCED
                && self.blocks@[b].count == 0x1_0001
        &&& self.blocks@[n - 1].state == 0
        &&& self.blocks@[n - 1].count == 0
        &&& self.tail_block == self.first + n - 1
        &&& self.cached_tail == self.tail_block
        &&& self.first + n <= u64::MAX
        &&& self.retired@.len() == 0
    }

    /// An empty queue of one block.
    pub fn new() -> (q: Queue<T>)
        ensures
            q.wf(),
            q.view() == Seq::<T>::empty(),
            q.blocks() == 1,
            q.can_grow(),
            q.next_id() == 1,
            q.retired() == 0,
    {
        let block = Block::new();
        let mut blocks: Vec<Block<T>> = Vec::new();
        blocks.push(block);
        let q = Queue { blocks, head: 0, tail: 0, first: 0, tail_block: 0, cached_tail: 0, retired: Vec::new() };
        assert forall|a: int| 0 <= a < q.blocks@.len() * BLOCK_SIZE implies {
            let s = #[trigger] q.slot_at(a);
            &&& a < q.head ==> s.state == READ && s.value is None
            &&& q.head <= a < q.end() ==> s.state == WRITTEN && s.value is Some
            &&& q.end() <= a ==> s.state == UNINIT && s.value is None
        } by {
            assert(block_of(a) == 0);
            assert(0 <= index_of(a) < BLOCK_SIZE);
        }
        assert(q.view() =~= Seq::<T>::empty());
        q
    }

    /// Whether the queue holds no value. Moves the cached tail on when it
    /// finds it behind the tail.
    pub fn is_empty(&mut self) -> (r: bool)
        requires
            old(self).wf(),
        ensures
            final(self).wf(),
            final(self).view() == old(self).view(),
            final(self).blocks() == old(self).blocks(),
            final(self).can_grow() == old(self).can_grow(),
            final(self).next_id() == old(self).next_id(),
            final(self).retired() == old(self).retired(),
            r == (old(self).view().len() == 0),
    {
        let cached_tail = self.cached_tail;
        let head_index = self.head;
        let head = self.first;
        if head != cached_tail {
            return false;
        }
        let tail_index = self.tail;
        let tail = self.tail_block;
        if tail != cached_tail {
            if self.cached_tail == cached_tail {
                self.cached_tail = tail;
            }
            assert forall|a: int| #![trigger self.slot_at(a)] 0 <= a < self.blocks@.len() * BLOCK_SIZE implies self.slot_at(a) == old(self).slot_at(a) by {}
            return false;
        }
        tail_index <= head_index
    }

    /// The id that the next block gets.
    pub closed spec fn next_id(&self) -> int {
        self.first + self.blocks@.len()
    }

    /// Appends `value`.
    pub fn push(&mut self, value: T)
        requires
            old(self).wf(),
            old(self).can_grow(),
        ensures
            final(self).wf(),
            final(self).view() == old(self).view().push(value),
            final(self).next_id() <= old(self).next_id() + 1,
            final(self).retired() == 0,
    {
        let ghost v = value;
        let mut item = Some(value);
        loop
            invariant
                *self == *old(self),
                old(self).wf(),
                old(self).can_grow(),
                item == Some(v),
                v == value,
            decreases 1nat,
        {
            // acquire a unique index
            let index = self.tail;
            self.tail = index + 1;
            if index < BLOCK_SIZE {
                // still in this block: write the slot
                let b = self.blocks.len() - 1;
                let ghost end = old(self).end();
                proof {
                    lemma_pos(b as int, index as int);
                    assert(old(self).slot_at(end) == old(self).blocks@[b as int].slots@[index as int]);
                }
                let state = self.blocks[b].slots[index].state;
                proof {
                    assert(state == UNINIT);
                }
                let _ = self.write_slot(b, index, item.take(), state.wrapping_add(WRITTEN));
                proof {
                    self.lemma_after_write(*old(self), v);
                }
                return ;
            }
            // the tail block is full and has no next block: link a new one
            // that holds the value in its first slot
            let current = self.tail;
            let mut block = Block::new();
            block.slots.set(0, Slot { value: item.take(), state: WRITTEN });
            let n = self.blocks.len();
            let tail_id = self.tail_block;
            self.blocks.push(block);
            // move the tail to the new block, past its first slot
            let final_count = compare_exchange(&mut self.tail_block, &mut self.tail, tail_id, current, tail_id + 1, 1);
            // update the cached tail
            if self.cached_tail == tail_id {
                self.cached_tail = tail_id + 1;
            }
            proof {
                lemma_single_pass();
                lemma_count_bits(0, 0);
            }
            // reclaim the old tail
            let blk = &mut self.blocks[n - 1];
            let released = blk.try_reclaim_tail(final_count);
            proof {
                assert(!released);
                self.lemma_after_link(*old(self), v);
            }
            return ;
        }
    }

    proof fn lemma_after_write(&self, pre: Queue<T>, v: T)
        requires
            pre.wf(),
            pre.tail < BLOCK_SIZE,
            self.blocks@.len() == pre.blocks@.len(),
            self.head == pre.head,
            self.tail == pre.tail + 1,
            self.first == pre.first,
            self.tail_block == pre.tail_block,
            self.cached_tail == pre.cached_tail,
            self.retired == pre.retired,
            forall|c: int| 0 <= c < pre.blocks@.len() ==> (#[trigger] self.blocks@[c]).slots@.len() == BLOCK_SIZE
                && self.blocks@[c].count == pre.blocks@[c].count
                && self.blocks@[c].state == pre.blocks@[c].state,
            forall|a: int| #![trigger self.slot_at(a)] 0 <= a && block_of(a) < pre.blocks@.len() ==> self.slot_at(a) == (if a == pre.end() {
                Slot { value: Some(v), state: WRITTEN }
            } else {
                pre.slot_at(a)
            }),
        ensures
            self.wf(),
            self.view() == pre.view().push(v),
    {
        let n = pre.blocks@.len();
        assert forall|a: int| 0 <= a < n * BLOCK_SIZE implies {
            let s = #[trigger] self.slot_at(a);
            &&& a < self.head ==> s.state == READ && s.value is None
            &&& self.head <= a < self.end() ==> s.state == WRITTEN && s.value is Some
            &&& self.end() <= a ==> s.state == UNINIT && s.value is None
        } by {
            lemma_split(a);
            assert(block_of(a) < n) by (nonlinear_arith)
                requires a < n * BLOCK_SIZE, a == block_of(a) * BLOCK_SIZE + index_of(a), 0 <= index_of(a) < BLOCK_SIZE;
            assert(pre.slot_at(a) == pre.slot_at(a));
        }
        assert(self.view() =~= pre.view().push(v)) by {
            assert forall|p: int| 0 <= p < self.view().len() implies #[trigger] self.view()[p] == pre.view().push(v)[p] by {
                let a = self.head + p;
                lemma_split(a);
                assert(block_of(a) < n) by (nonlinear_arith)
                    requires a < n * BLOCK_SIZE, a == block_of(a) * BLOCK_SIZE + index_of(a), 0 <= index_of(a) < BLOCK_SIZE;
            }
        }
    }

    proof fn lemma_after_link(&self, pre: Queue<T>, v: T)
        requires
            pre.wf(),
            pre.tail == BLOCK_SIZE,
            pre.first + pre.blocks@.len() < u64::MAX,
            self.blocks@.len() == pre.blocks@.len() + 1,
            self.head == pre.head,
            self.tail == 1,
            self.first == pre.first,
            self.cached_tail == pre.first + pre.blocks@.len(),
            self.tail_block == pre.first + pre.blocks@.len(),
            self.retired == pre.retired,
            forall|c: int| 0 <= c < pre.blocks@.len() - 1 ==> #[trigger] self.blocks@[c] == pre.blocks@[c],
            self.blocks@[pre.blocks@.len() - 1].slots == pre.blocks@[pre.blocks@.len() - 1].slots,
            self.blocks@[pre.blocks@.len() - 1].count == 0x1_0001,
            self.blocks@[pre.blocks@.len() - 1].state == TAIL_ADVANCED,
            self.blocks@[pre.blocks@.len() as int].slots@.len() == BLOCK_SIZE,
            self.blocks@[pre.blocks@.len() as int].slots@[0] == (Slot { value: Some(v), state: WRITTEN }),
            forall|s: int| 1 <= s < BLOCK_SIZE ==> (#[trigger] self.blocks@[pre.blocks@.len() as int].slots@[s]).state == UNINIT
                && self.blocks@[pre.blocks@.len() as int].slots@[s].value is None,
            self.blocks@[pre.blocks@.len() as int].count == 0,
            self.blocks@[pre.blocks@.len() as int].state == 0,
        ensures
            self.wf(),
            self.view() == pre.view().push(v),
    {
        let n = pre.blocks@.len();
        assert forall|a: int| 0 <= a < (n + 1) * BLOCK_SIZE implies {
            let s = #[trigger] self.slot_at(a);
            &&& a < self.head ==> s.state == READ && s.value is None
            &&& self.head <= a < self.end() ==> s.state == WRITTEN && s.value is Some
            &&& self.end() <= a ==> s.state == UNINIT && s.value is None
        } by {
            lemma_split(a);
            assert(block_of(a) <= n) by (nonlinear_arith)
                requires a < (n + 1) * BLOCK_SIZE, a == block_of(a) * BLOCK_SIZE + index_of(a), 0 <= index_of(a) < BLOCK_SIZE;
            if block_of(a) < n {
                assert(self.slot_at(a) == pre.slot_at(a));
                assert(a < n * BLOCK_SIZE) by (nonlinear_arith)
                    requires block_of(a) < n, a == block_of(a) * BLOCK_SIZE + index_of(a), 0 <= index_of(a) < BLOCK_SIZE;
            } else {
                assert(a >= n * BLOCK_SIZE) by (nonlinear_arith)
                    requires block_of(a) == n, a == block_of(a) * BLOCK_SIZE + index_of(a), 0 <= index_of(a) < BLOCK_SIZE;
            }
        }
        assert forall|b: int| 0 <= b < n + 1 implies (#[trigger] self.blocks@[b]).slots@.len() == BLOCK_SIZE by {
            if b < n - 1 {
                assert(self.blocks@[b] == pre.blocks@[b]);
            }
        }
        assert(self.view() =~= pre.view().push(v)) by {
            assert forall|p: int| 0 <= p < self.view().len() implies #[trigger] self.view()[p] == pre.view().push(v)[p] by {
                let a = self.head + p;
                lemma_split(a);
                if p < pre.view().len() {
                    assert(a < n * BLOCK_SIZE);
                    assert(block_of(a) < n) by (nonlinear_arith)
                        requires a < n * BLOCK_SIZE, a == block_of(a) * BLOCK_SIZE + index_of(a), 0 <= index_of(a) < BLOCK_SIZE;
                    assert(self.slot_at(a) == pre.slot_at(a));
                } else {
                    assert(a == n * BLOCK_SIZE);
                    lemma_pos(n as int, 0);
                }
            }
        }
    }

    /// Removes the oldest value, if any.
    pub fn pop(&mut self) -> (r: Option<T>)
        requires
            old(self).wf(),
        ensures
            final(self).wf(),
            final(self).next_id() == old(self).next_id(),
            final(self).can_grow() == old(self).can_grow(),
            final(self).retired() == 0,
            old(self).view().len() == 0 ==> r is None && final(self).view() == old(self).view(),
            old(self).view().len() > 0 ==> r == Some(old(self).view()[0]) && final(self).view()
                == old(self).view().drop_first(),
    {
        loop
            invariant
                self.wf(),
                self.view() == old(self).view(),
                self.next_id() == old(self).next_id(),
            decreases self.blocks@.len(),
        {
            if self.is_empty() {
                return None;
            }
            let ghost pre = *self;
            let index = self.head;
            if index < BLOCK_SIZE {
                // still in this block: read the slot
                proof {
                    lemma_pos(0, index as int);
                    assert(pre.slot_at(index as int) == pre.blocks@[0].slots@[index as int]);
                    assert(pre.slot_at(pre.head + 0) == pre.slot_at(index as int));
                }
                let mut spin: usize = 0;
                while spin < SPIN_READ
                    invariant
                        spin == 0,
                        index == pre.head,
                        index < BLOCK_SIZE,
                        pre.wf(),
                        pre.view().len() > 0,
                        *self == pre,
                        pre.view() == old(self).view(),
                        pre.next_id() == old(self).next_id(),
                        self.blocks@[0].slots@[index as int] == pre.slot_at(pre.head as int),
                    decreases SPIN_READ - spin,
                {
                    let state = self.blocks[0].slots[index].state;
                    proof {
                        lemma_idle_word(state);
                    }
                    if state & WRITTEN == WRITTEN {
                        let slot = self.write_slot(0, index, None, state.wrapping_add(CONSUMED));
                        proof {
                            assert(state == WRITTEN);
                        }
                        self.head = index + 1;
                        proof {
                            self.lemma_after_read(pre);
                        }
                        return slot.value;
                    }
                    spin_hint();
                    spin = spin + 1;
                }
                // the value did not arrive
                return None;
            }
            // every slot of the head block was read
            proof {
                self.lemma_head_block_done(pre);
            }
            // if the tail has not advanced there is no next block
            if self.blocks.len() == 1 {
                return None;
            }
            // move the head to the next block
            assert(self.blocks@.subrange(1, self.blocks@.len() as int) =~= pre.blocks@.subrange(1, pre.blocks@.len() as int));
            let mut old_block = self.blocks.remove(0);
            self.first = self.first + 1;
            self.head = 0;
            // the head will not touch the old block again
            let flags = old_block.state;
            old_block.state = flags + HEAD_ADVANCED;
            proof {
                lemma_count_bits(0, 0);
                self.lemma_after_advance(pre);
            }
            // the tail had advanced too: the block is released here
            if flags != TAIL_ADVANCED {
                self.retired.push(old_block);
            }
        }
    }

    proof fn lemma_after_read(&self, pre: Queue<T>)
        requires
            pre.wf(),
            pre.view().len() > 0,
            pre.head < BLOCK_SIZE,
            self.blocks@.len() == pre.blocks@.len(),
            self.head == pre.head + 1,
            self.tail == pre.tail,
            self.first == pre.first,
            self.tail_block == pre.tail_block,
            self.cached_tail == pre.cached_tail,
            self.retired == pre.retired,
            forall|c: int| 0 <= c < pre.blocks@.len() ==> (#[trigger] self.blocks@[c]).slots@.len() == BLOCK_SIZE
                && self.blocks@[c].count == pre.blocks@[c].count
                && self.blocks@[c].state == pre.blocks@[c].state,
            forall|a: int| #![trigger self.slot_at(a)] 0 <= a && block_of(a) < pre.blocks@.len() ==> self.slot_at(a) == (if a == 0 * BLOCK_SIZE + pre.head {
                Slot { value: None::<T>, state: READ }
            } else {
                pre.slot_at(a)
            }),
        ensures
            self.wf(),
            self.view() == pre.view().drop_first(),
            self.next_id() == pre.next_id(),
    {
        let n = pre.blocks@.len();
        assert forall|a: int| 0 <= a < n * BLOCK_SIZE implies {
            let s = #[trigger] self.slot_at(a);
            &&& a < self.head ==> s.state == READ && s.value is None
            &&& self.head <= a < self.end() ==> s.state == WRITTEN && s.value is Some
            &&& self.end() <= a ==> s.state == UNINIT && s.value is None
        } by {
            lemma_split(a);
            assert(block_of(a) < n) by (nonlinear_arith)
                requires a < n * BLOCK_SIZE, a == block_of(a) * BLOCK_SIZE + index_of(a), 0 <= index_of(a) < BLOCK_SIZE;
            assert(pre.slot_at(a) == pre.slot_at(a));
        }
        assert(self.view() =~= pre.view().drop_first()) by {
            assert forall|p: int| 0 <= p < self.view().len() implies #[trigger] self.view()[p] == pre.view().drop_first()[p] by {
                let a = self.head + p;
                lemma_split(a);
                assert(block_of(a) < n) by (nonlinear_arith)
                    requires a < self.end(), self.end() <= n * BLOCK_SIZE, a == block_of(a) * BLOCK_SIZE + index_of(a), 0 <= index_of(a) < BLOCK_SIZE;
            }
        }
    }

    proof fn lemma_head_block_done(&self, pre: Queue<T>)
        requires
            pre.wf(),
            pre.view().len() > 0,
            pre.head >= BLOCK_SIZE,
            self.blocks == pre.blocks,
        ensures
            pre.head == BLOCK_SIZE,
            pre.blocks@.len() > 1,
            forall|s: int| 0 <= s < BLOCK_SIZE ==> (#[trigger] self.blocks@[0].slots@[s]).state == READ,
            self.blocks@[0].state == TAIL_ADVANCED,
            self.blocks@[0].slots@.len() == BLOCK_SIZE,
    {
        assert forall|s: int| 0 <= s < BLOCK_SIZE implies (#[trigger] self.blocks@[0].slots@[s]).state == READ by {
            lemma_pos(0, s);
            assert(pre.slot_at(0 * BLOCK_SIZE + s).state == READ);
        }
        assert(self.blocks@[0] == pre.blocks@[0]);
    }

    proof fn lemma_after_advance(&self, pre: Queue<T>)
        requires
            pre.wf(),
            pre.head == BLOCK_SIZE,
            pre.blocks@.len() > 1,
            self.blocks@ == pre.blocks@.subrange(1, pre.blocks@.len() as int),
            self.head == 0,
            self.tail == pre.tail,
            self.first == pre.first + 1,
            self.tail_block == pre.tail_block,
            self.cached_tail == pre.cached_tail,
            self.retired == pre.retired,
        ensures
            self.wf(),
            self.view() == pre.view(),
            self.next_id() == pre.next_id(),
    {
        let n = pre.blocks@.len();
        assert forall|a: int| 0 <= a < (n - 1) * BLOCK_SIZE implies #[trigger] self.slot_at(a) == pre.slot_at(a + BLOCK_SIZE) by {
            lemma_split(a);
            assert(block_of(a) < n - 1) by (nonlinear_arith)
                requires a < (n - 1) * BLOCK_SIZE, a == block_of(a) * BLOCK_SIZE + index_of(a), 0 <= index_of(a) < BLOCK_SIZE;
            lemma_pos(block_of(a) + 1, index_of(a));
            assert(a + BLOCK_SIZE == (block_of(a) + 1) * BLOCK_SIZE + index_of(a)) by (nonlinear_arith)
                requires a == block_of(a) * BLOCK_SIZE + index_of(a);
        }
        assert forall|a: int| 0 <= a < (n - 1) * BLOCK_SIZE implies {
            let s = #[trigger] self.slot_at(a);
            &&& a < self.head ==> s.state == READ && s.value is None
            &&& self.head <= a < self.end() ==> s.state == WRITTEN && s.value is Some
            &&& self.end() <= a ==> s.state == UNINIT && s.value is None
        } by {
            assert(a + BLOCK_SIZE < n * BLOCK_SIZE) by (nonlinear_arith)
                requires a < (n - 1) * BLOCK_SIZE;
        }
        assert forall|b: int| 0 <= b < n - 1 implies (#[trigger] self.blocks@[b]).slots@.len() == BLOCK_SIZE by {
            assert(self.blocks@[b] == pre.blocks@[b + 1]);
        }
        assert forall|b: int| 0 <= b < n - 2 implies (#[trigger] self.blocks@[b]).state == TAIL_ADVANCED
            && self.blocks@[b].count == 0x1_0001 by {
            assert(self.blocks@[b] == pre.blocks@[b + 1]);
        }
        assert(self.blocks@[n - 2] == pre.blocks@[n - 1]);
        assert(self.view() =~= pre.view()) by {
            assert forall|p: int| 0 <= p < self.view().len() implies #[trigger] self.view()[p] == pre.view()[p] by {
                assert(self.head + p < (n - 1) * BLOCK_SIZE);
                assert(self.slot_at(self.head + p) == pre.slot_at(self.head + p + BLOCK_SIZE));
            }
        }
    }
}

} // verus!
