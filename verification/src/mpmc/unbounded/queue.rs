//! An unbounded queue made of a chain of blocks of slots.
//!
//! The head and the tail are each a block and an index in it. A push writes
//! the slot at the tail index and moves the index on; past the last slot it
//! links a new block and moves the tail there. A pop reads the slot at the head
//! index; past the last slot it moves the head to the next block. Each block
//! counts the handles that moved past its end and records which ends have
//! left it; the one that completes the record releases the block.
//!
//! Blocks are kept in chain order: the first is the head block and the last
//! the tail block. Blocks are named by ids that grow along the chain.
use crate::raw::util::{lemma_idle_word, spin_hint};
use vstd::prelude::*;

verus! {

/// Slots per block.
pub const SLOTS: usize = 1024;

/// Bits of a block position that hold the index.
pub const TAG_BITS: usize = 12;

/// The mask of the index bits.
pub const INDEX_MASK: usize = 4095;

/// The most handles that may push at once.
pub const MAX_SENDERS: usize = 3073;

/// The most handles that may pop at once.
pub const MAX_RECEIVERS: usize = 1536;

pub const FINAL_COUNT_SHIFT: u32 = 16;

pub const CURRENT_COUNT_MASK: u32 = 0xFFFF;

// all slots of the block have been consumed
pub const BLOCK_CONSUMED: u8 = 0b001;

// the tail of the queue no longer points to the block
pub const TAIL_ADVANCED: u8 = 0b010;

// the head of the queue no longer points to the block
pub const HEAD_ADVANCED: u8 = 0b100;

// the slot is unitialized
pub const UNINIT: u8 = 0b0000;

// an element was written to the slot
pub const WRITTEN: u8 = 0b0001;

// a reader found the slot uninitialized; the slot is invalid for further use
pub const INVALID: u8 = 0b1000;

// the slot was consumed by a reader
pub const CONSUMED: u8 = 0b0100;

// the value was successfully read from the slot
pub const READ: u8 = 0b0101;

// a future reader or writer should resume reclamation of later slots
pub const RESUME: u8 = 0b0010;

// the slot was invalidated by a reader and the writer must resume reclaiming
pub const WRITER_RESUME: u8 = 0b1110;

// a reader must resume reclaiming the block
pub const READER_RESUME: u8 = 0b0011;

/// What a handle adds to a block's count when it moves past the block's end:
/// one, plus the final count in the upper half when it knows it.
pub open spec fn count_mask(final_count: Option<u32>) -> u32 {
    match final_count {
        Some(f) => ((f << FINAL_COUNT_SHIFT) + 1) as u32,
        None => 1,
    }
}

/// Whether the handle that finds `prev` in a block's count is the last of the
/// handles that move past the block's end.
pub open spec fn count_done(prev: u32, final_count: Option<u32>) -> bool {
    (prev & CURRENT_COUNT_MASK) + 1 == match final_count {
        Some(f) => f,
        None => prev >> FINAL_COUNT_SHIFT,
    }
}

proof fn lemma_count_bits(prev: u32, f: u32)
    by (bit_vector)
    ensures
        f < 0x1_0000u32 ==> (f << 16u32) <= 0xFFFF_0000u32,
        prev & 0xFFFFu32 <= 0xFFFFu32,
        (0u32 & 0xFFFFu32) == 0u32,
        (1u32 << 16u32) == 0x1_0000u32,
        (1u8 | 4u8) == 5u8,
        (1u8 | 2u8) == 3u8,
        (2u8 | 4u8) == 6u8,
{
}

/// Counts a handle that moved past a block's end; answers whether it was the
/// last of them.
fn count_past_end(count: &mut u32, final_count: Option<u32>) -> (r: bool)
    requires
        final_count matches Some(f) ==> f < 0x1_0000,
    ensures
        *final(count) == ((*old(count) + count_mask(final_count)) % 0x1_0000_0000) as u32,
        r == count_done(*old(count), final_count),
{
    let prev = *count;
    proof {
        lemma_count_bits(prev, match final_count {
            Some(f) => f,
            None => 0,
        });
    }
    let mask: u32 = match final_count {
        Some(f) => (f << FINAL_COUNT_SHIFT) + 1,
        None => 1,
    };
    *count = prev.wrapping_add(mask);
    let curr = (prev & CURRENT_COUNT_MASK) + 1;
    let target = match final_count {
        Some(f) => f,
        None => prev >> FINAL_COUNT_SHIFT,
    };
    curr == target
}

/// The count of a block that no handle moved past yet, after the one handle
/// that did, knowing that it is the only one.
proof fn lemma_single_pass()
    ensures
        count_mask(Some(1u32)) == 0x1_0001u32,
        count_done(0, Some(1u32)),
{
    lemma_count_bits(0, 1);
}

/// Moves a tagged block position off block `current`: while it still points
/// to that block it becomes `new` at index `new_index`, and the answer is how
/// many handles moved past the block's end (the index found, past the last
/// slot). A position that points to another block meanwhile is left alone.
fn compare_exchange(
    block: &mut u64,
    index: &mut usize,
    current: u64,
    current_index: usize,
    new: u64,
    new_index: usize,
) -> (r: Option<u32>)
    requires
        *old(block) == current ==> SLOTS <= *old(index) <= INDEX_MASK,
    ensures
        *old(block) == current ==> r == Some((*old(index) - SLOTS) as u32) && *final(block) == new
            && *final(index) == new_index,
        *old(block) != current ==> r.is_none() && *final(block) == *old(block) && *final(index)
            == *old(index),
{
    let mut current_index = current_index;
    loop
        invariant
            *block == *old(block),
            *index == *old(index),
            *old(block) == current ==> SLOTS <= *old(index) <= INDEX_MASK,
        decreases (if *block == current && *index == current_index { 0nat } else { 1nat }),
    {
        if *block == current && *index == current_index {
            *block = new;
            *index = new_index;
            return Some((current_index - SLOTS) as u32);
        }
        // the block itself changed
        if *block != current {
            return None;
        }
        // the tag changed
        current_index = *index;
    }
}

/// A slot: its value and its state.
struct Slot<T> {
    value: Option<T>,
    state: u8,
}

/// A block of slots with the counts of its reclamation.
struct Block<T> {
    slots: Vec<Slot<T>>,
    push_count: u32,
    pop_count: u32,
    reclamation: u8,
}

impl<T> Block<T> {
    /// A block whose slots are all uninitialized.
    fn allocate() -> (b: Block<T>)
        ensures
            b.slots@.len() == SLOTS,
            forall|s: int| 0 <= s < SLOTS ==> (#[trigger] b.slots@[s]).state == UNINIT && b.slots@[s].value is None,
            b.push_count == 0,
            b.pop_count == 0,
            b.reclamation == 0,
    {
        let mut slots: Vec<Slot<T>> = Vec::new();
        let mut i: usize = 0;
        while i < SLOTS
            invariant
                i <= SLOTS,
                slots@.len() == i,
                forall|s: int| 0 <= s < i ==> (#[trigger] slots@[s]).state == UNINIT && slots@[s].value is None,
            decreases SLOTS - i,
        {
            slots.push(Slot { value: None, state: UNINIT });
            i = i + 1;
        }
        Block { slots, push_count: 0, pop_count: 0, reclamation: 0 }
    }

    /// Marks the block consumed once every slot from `start` on was read;
    /// a slot not read yet is marked so that its reader resumes the
    /// reclamation, which ends here. Answers whether this call releases the
    /// block: both ends had left it already.
    fn try_reclaim(&mut self, start: usize) -> (r: bool)
        requires
            start <= old(self).slots@.len(),
            old(self).reclamation <= 7,
        ensures
            final(self).slots@.len() == old(self).slots@.len(),
            final(self).push_count == old(self).push_count,
            final(self).pop_count == old(self).pop_count,
            (forall|s: int| start <= s < old(self).slots@.len() ==> (#[trigger] old(self).slots@[s]).state == READ)
                ==> final(self).slots@ == old(self).slots@ && final(self).reclamation == old(self).reclamation + BLOCK_CONSUMED
                && r == (old(self).reclamation == (TAIL_ADVANCED | HEAD_ADVANCED)),
    {
        let mut i: usize = start;
        while i < self.slots.len()
            invariant
                start <= i <= self.slots@.len(),
                self.slots@.len() == old(self).slots@.len(),
                self.push_count == old(self).push_count,
                self.pop_count == old(self).pop_count,
                self.reclamation == old(self).reclamation,
                self.reclamation <= 7,
                (forall|s: int| start <= s < old(self).slots@.len() ==> (#[trigger] old(self).slots@[s]).state == READ)
                    ==> self.slots@ == old(self).slots@,
            decreases self.slots@.len() - i,
        {
            let state = self.slots[i].state;
            proof {
                lemma_idle_word(state);
            }
            if state & READ != READ {
                let slot = &mut self.slots[i];
                let prev = slot.state;
                slot.state = prev.wrapping_add(RESUME);
                if prev & READ != READ {
                    return false;
                }
            }
            i = i + 1;
        }
        let flags = self.reclamation;
        self.reclamation = flags + BLOCK_CONSUMED;
        flags == (TAIL_ADVANCED | HEAD_ADVANCED)
    }

    /// The head moved past this block: counts it, and when it was the last
    /// reader to do so records that the head left. Answers whether this call
    /// releases the block: it was consumed and the tail had left.
    fn try_reclaim_head_slow(&mut self, final_count: Option<u32>) -> (r: bool)
        requires
            old(self).reclamation <= 3,
            final_count matches Some(f) ==> f < 0x1_0000,
        ensures
            final(self).slots == old(self).slots,
            final(self).push_count == old(self).push_count,
            final(self).pop_count == ((old(self).pop_count + count_mask(final_count)) % 0x1_0000_0000) as u32,
            count_done(old(self).pop_count, final_count) ==> final(self).reclamation == old(self).reclamation + HEAD_ADVANCED
                && r == (old(self).reclamation == (BLOCK_CONSUMED | TAIL_ADVANCED)),
            !count_done(old(self).pop_count, final_count) ==> final(self).reclamation == old(self).reclamation && !r,
    {
        if count_past_end(&mut self.pop_count, final_count) {
            let flags = self.reclamation;
            self.reclamation = flags + HEAD_ADVANCED;
            flags == (BLOCK_CONSUMED | TAIL_ADVANCED)
        } else {
            false
        }
    }

    /// The tail moved past this block: counts it, and when it was the last
    /// writer to do so records that the tail left. Answers whether this call
    /// releases the block: it was consumed and the head had left.
    fn try_reclaim_tail_slow(&mut self, final_count: Option<u32>) -> (r: bool)
        requires
            old(self).reclamation <= 5,
            final_count matches Some(f) ==> f < 0x1_0000,
        ensures
            final(self).slots == old(self).slots,
            final(self).pop_count == old(self).pop_count,
            final(self).push_count == ((old(self).push_count + count_mask(final_count)) % 0x1_0000_0000) as u32,
            count_done(old(self).push_count, final_count) ==> final(self).reclamation == old(self).reclamation + TAIL_ADVANCED
                && r == (old(self).reclamation == (BLOCK_CONSUMED | HEAD_ADVANCED)),
            !count_done(old(self).push_count, final_count) ==> final(self).reclamation == old(self).reclamation && !r,
    {
        if count_past_end(&mut self.push_count, final_count) {
            let flags = self.reclamation;
            self.reclamation = flags + TAIL_ADVANCED;
            flags == (BLOCK_CONSUMED | HEAD_ADVANCED)
        } else {
            false
        }
    }
}

/// How many times a reader checks a slot for its value before it gives up on it.
const SPIN_READ: usize = 16;

/// An unbounded multi-producer multi-consumer queue.
pub struct Queue<T> {
    blocks: Vec<Block<T>>,
    head: usize,
    tail: usize,
    first: u64,
    tail_block: u64,
    cached_tail: u64,
    retired: Vec<Block<T>>,
}

/// The block and index of absolute position `a`, counted from the start of
/// the head block.
pub open spec fn block_of(a: int) -> int {
    a / (SLOTS as int)
}

pub open spec fn index_of(a: int) -> int {
    a % (SLOTS as int)
}

/// Position `b * SLOTS + i` lies in block `b` at index `i`.
proof fn lemma_pos(b: int, i: int)
    requires
        b >= 0,
        0 <= i < SLOTS,
    ensures
        block_of(b * SLOTS + i) == b,
        index_of(b * SLOTS + i) == i,
{
}

/// A position lies in the block and at the index that divide it.
proof fn lemma_split(a: int)
    requires
        a >= 0,
    ensures
        a == block_of(a) * SLOTS + index_of(a),
        0 <= index_of(a) < SLOTS,
        block_of(a) >= 0,
{
}

impl<T> Queue<T> {
    /// Replaces the slot at index `i` of block `b`, answering the slot it held.
    fn write_slot(&mut self, b: usize, i: usize, value: Option<T>, state: u8) -> (prev: Slot<T>)
        requires
            b < old(self).blocks@.len(),
            i < SLOTS,
            old(self).blocks@[b as int].slots@.len() == SLOTS,
        ensures
            prev == old(self).blocks@[b as int].slots@[i as int],
            final(self).blocks@.len() == old(self).blocks@.len(),
            final(self).head == old(self).head,
            final(self).tail == old(self).tail,
            final(self).first == old(self).first,
            final(self).tail_block == old(self).tail_block,
            final(self).cached_tail == old(self).cached_tail,
            final(self).retired == old(self).retired,
            forall|c: int| 0 <= c < old(self).blocks@.len() && c != b ==> #[trigger] final(self).blocks@[c] == old(self).blocks@[c],
            final(self).blocks@[b as int].slots@ == old(self).blocks@[b as int].slots@.update(i as int, Slot { value, state }),
            final(self).blocks@[b as int].push_count == old(self).blocks@[b as int].push_count,
            final(self).blocks@[b as int].pop_count == old(self).blocks@[b as int].pop_count,
            final(self).blocks@[b as int].reclamation == old(self).blocks@[b as int].reclamation,
            forall|a: int| #![trigger final(self).slot_at(a)] 0 <= a && block_of(a) < old(self).blocks@.len() ==> final(self).slot_at(a) == (if a == b * SLOTS + i {
                Slot { value, state }
            } else {
                old(self).slot_at(a)
            }),
    {
        let mut slot = Slot { value, state };
        let blk = &mut self.blocks[b];
        std::mem::swap(&mut slot, &mut blk.slots[i]);
        proof {
            assert forall|a: int| #![trigger self.slot_at(a)] 0 <= a && block_of(a) < old(self).blocks@.len() implies self.slot_at(a) == (if a == b * SLOTS + i {
                Slot { value, state }
            } else {
                old(self).slot_at(a)
            }) by {
                lemma_split(a);
                lemma_pos(b as int, i as int);
                if a == b * SLOTS + i {
                } else if block_of(a) == b {
                    assert(index_of(a) != i);
                    assert(self.blocks@[b as int].slots@[index_of(a)] == old(self).blocks@[b as int].slots@[index_of(a)]);
                } else {
                    assert(self.blocks@[block_of(a)] == old(self).blocks@[block_of(a)]);
                }
            }
        }
        slot
    }

    spec fn slot_at(&self, a: int) -> Slot<T> {
        self.blocks@[block_of(a)].slots@[index_of(a)]
    }

    /// The absolute position of the tail.
    spec fn end(&self) -> int {
        (self.blocks@.len() - 1) * SLOTS + self.tail
    }

    /// The values in the queue, oldest first.
    pub closed spec fn view(&self) -> Seq<T> {
        Seq::new(
            (self.end() - self.head) as nat,
            |p: int| self.slot_at(self.head + p).value->Some_0,
        )
    }

    /// The number of blocks in the chain.
    pub closed spec fn blocks(&self) -> nat {
        self.blocks@.len()
    }

    /// How many more blocks the block ids have room for.
    pub open spec fn room(&self) -> int {
        u64::MAX - self.next_id()
    }

    /// Block ids have room for one more block.
    pub open spec fn can_grow(&self) -> bool {
        self.room() >= 1
    }

    /// No block was left behind unreleased.
    pub closed spec fn retired(&self) -> nat {
        self.retired@.len()
    }

    pub closed spec fn wf(&self) -> bool {
        let n = self.blocks@.len();
        &&& n >= 1
        &&& forall|b: int| 0 <= b < n ==> (#[trigger] self.blocks@[b]).slots@.len() == SLOTS
        &&& self.head <= SLOTS
        &&& self.tail <= SLOTS
        &&& self.head <= self.end()
        &&& n > 1 ==> self.tail >= 1
        &&& forall|a: int|
            0 <= a < n * SLOTS ==> {
                let s = #[trigger] self.slot_at(a);
                &&& a < self.head ==> s.state == READ && s.value is None
                &&& self.head <= a < self.end() ==> s.state == WRITTEN && s.value is Some
                &&& self.end() <= a ==> s.state == UNINIT && s.value is None
            }
        &&& forall|b: int|
            0 <= b < n - 1 ==> (#[trigger] self.blocks@[b]).reclamation == TAIL_ADVANCED
                && self.blocks@[b].push_count == 0x1_0001 && self.blocks@[b].pop_count == 0
        &&& self.blocks@[n - 1].reclamation == 0
        &&& self.blocks@[n - 1].push_count == 0
        &&& self.blocks@[n - 1].pop_count == 0
        &&& self.tail_block == self.first + n - 1
        &&& self.cached_tail == self.tail_block
        &&& self.first + n <= u64::MAX
        &&& self.retired@.len() == 0
    }

    /// An empty queue of one block.
    pub fn new() -> (q: Queue<T>)
        ensures
            q.wf(),
            q.view() == Seq::<T>::empty(),
            q.blocks() == 1,
            q.can_grow(),
            q.next_id() == 1,
            q.retired() == 0,
    {
        let block = Block::allocate();
        let mut blocks: Vec<Block<T>> = Vec::new();
        blocks.push(block);
        let q = Queue { blocks, head: 0, tail: 0, first: 0, tail_block: 0, cached_tail: 0, retired: Vec::new() };
        assert forall|a: int| 0 <= a < q.blocks@.len() * SLOTS implies {
            let s = #[trigger] q.slot_at(a);
            &&& a < q.head ==> s.state == READ && s.value is None
            &&& q.head <= a < q.end() ==> s.state == WRITTEN && s.value is Some
            &&& q.end() <= a ==> s.state == UNINIT && s.value is None
        } by {
            assert(block_of(a) == 0);
            assert(0 <= index_of(a) < SLOTS);
        }
        assert(q.view() =~= Seq::<T>::empty());
        q
    }

    /// Whether the queue holds no value. Moves the cached tail on when it
    /// finds it behind the tail.
    pub fn is_empty(&mut self) -> (r: bool)
        requires
            old(self).wf(),
        ensures
            final(self).wf(),
            final(self).view() == old(self).view(),
            final(self).blocks() == old(self).blocks(),
            final(self).can_grow() == old(self).can_grow(),
            final(self).next_id() == old(self).next_id(),
            final(self).retired() == old(self).retired(),
            r == (old(self).view().len() == 0),
    {
        let cached_tail = self.cached_tail;
        let head_index = self.head;
        let head = self.first;
        if head != cached_tail {
            return false;
        }
        let tail_index = self.tail;
        let tail = self.tail_block;
        if tail != cached_tail {
            if self.cached_tail == cached_tail {
                self.cached_tail = tail;
            }
            assert forall|a: int| #![trigger self.slot_at(a)] 0 <= a < self.blocks@.len() * SLOTS implies self.slot_at(a) == old(self).slot_at(a) by {}
            return false;
        }
        tail_index <= head_index
    }

    /// The id that the next block gets.
    pub closed spec fn next_id(&self) -> int {
        self.first + self.blocks@.len()
    }

    /// Appends `value`.
    pub fn push(&mut self, value: T)
        requires
            old(self).wf(),
            old(self).can_grow(),
        ensures
            final(self).wf(),
            final(self).view() == old(self).view().push(value),
            final(self).next_id() <= old(self).next_id() + 1,
            final(self).retired() == 0,
    {
        let ghost v = value;
        let mut item = Some(value);
        loop
            invariant
                *self == *old(self),
                old(self).wf(),
                old(self).can_grow(),
                item == Some(v),
                v == value,
            decreases 1nat,
        {
            // take a slot
            let index = self.tail;
            self.tail = index + 1;
            if index < SLOTS {
                let b = self.blocks.len() - 1;
                let ghost end = old(self).end();
                proof {
                    lemma_pos(b as int, index as int);
                    assert(old(self).slot_at(end) == old(self).blocks@[b as int].slots@[index as int]);
                }
                let state = self.blocks[b].slots[index].state;
                let _ = self.write_slot(b, index, item.take(), state.wrapping_add(WRITTEN));
                if state == UNINIT || state == RESUME {
                    proof {
                        self.lemma_after_write(*old(self), v);
                    }
                    return ;
                }
                if state == WRITER_RESUME {
                    let blk = &mut self.blocks[b];
                    let _ = blk.try_reclaim(index + 1);
                }
                continue ;
            }
            // the tail block is full: link a new block that holds the value
            let current = self.tail;
            let mut block = Block::allocate();
            block.slots.set(0, Slot { value: item.take(), state: WRITTEN });
            let n = self.blocks.len();
            let tail_id = self.tail_block;
            self.blocks.push(block);
            // move the tail to the new block, past its first slot
            let final_count = compare_exchange(&mut self.tail_block, &mut self.tail, tail_id, current, tail_id + 1, 1);
            if self.cached_tail == tail_id {
                self.cached_tail = tail_id + 1;
            }
            proof {
                lemma_single_pass();
                lemma_count_bits(0, 0);
            }
            let blk = &mut self.blocks[n - 1];
            let released = blk.try_reclaim_tail_slow(final_count);
            proof {
                assert(!released);
                self.lemma_after_link(*old(self), v);
            }
            return ;
        }
    }

    proof fn lemma_after_write(&self, pre: Queue<T>, v: T)
        requires
            pre.wf(),
            pre.tail < SLOTS,
            self.blocks@.len() == pre.blocks@.len(),
            self.head == pre.head,
            self.tail == pre.tail + 1,
            self.first == pre.first,
            self.tail_block == pre.tail_block,
            self.cached_tail == pre.cached_tail,
            self.retired == pre.retired,
            forall|c: int| 0 <= c < pre.blocks@.len() ==> (#[trigger] self.blocks@[c]).slots@.len() == SLOTS
                && self.blocks@[c].push_count == pre.blocks@[c].push_count
                && self.blocks@[c].pop_count == pre.blocks@[c].pop_count
                && self.blocks@[c].reclamation == pre.blocks@[c].reclamation,
            forall|a: int| #![trigger self.slot_at(a)] 0 <= a && block_of(a) < pre.blocks@.len() ==> self.slot_at(a) == (if a == pre.end() {
                Slot { value: Some(v), state: WRITTEN }
            } else {
                pre.slot_at(a)
            }),
        ensures
            self.wf(),
            self.view() == pre.view().push(v),
    {
        let n = pre.blocks@.len();
        assert forall|a: int| 0 <= a < n * SLOTS implies {
            let s = #[trigger] self.slot_at(a);
            &&& a < self.head ==> s.state == READ && s.value is None
            &&& self.head <= a < self.end() ==> s.state == WRITTEN && s.value is Some
            &&& self.end() <= a ==> s.state == UNINIT && s.value is None
        } by {
            lemma_split(a);
            assert(block_of(a) < n) by (nonlinear_arith)
                requires a < n * SLOTS, a == block_of(a) * SLOTS + index_of(a), 0 <= index_of(a) < SLOTS;
            assert(pre.slot_at(a) == pre.slot_at(a));
        }
        assert(self.view() =~= pre.view().push(v)) by {
            assert forall|p: int| 0 <= p < self.view().len() implies #[trigger] self.view()[p] == pre.view().push(v)[p] by {
                let a = self.head + p;
                lemma_split(a);
                assert(block_of(a) < n) by (nonlinear_arith)
                    requires a < n * SLOTS, a == block_of(a) * SLOTS + index_of(a), 0 <= index_of(a) < SLOTS;
            }
        }
    }

    proof fn lemma_after_link(&self, pre: Queue<T>, v: T)
        requires
            pre.wf(),
            pre.tail == SLOTS,
            pre.first + pre.blocks@.len() < u64::MAX,
            self.blocks@.len() == pre.blocks@.len() + 1,
            self.head == pre.head,
            self.tail == 1,
            self.first == pre.first,
            self.cached_tail == pre.first + pre.blocks@.len(),
            self.tail_block == pre.first + pre.blocks@.len(),
            self.retired == pre.retired,
            forall|c: int| 0 <= c < pre.blocks@.len() - 1 ==> #[trigger] self.blocks@[c] == pre.blocks@[c],
            self.blocks@[pre.blocks@.len() - 1].slots == pre.blocks@[pre.blocks@.len() - 1].slots,
            self.blocks@[pre.blocks@.len() - 1].push_count == 0x1_0001,
            self.blocks@[pre.blocks@.len() - 1].pop_count == 0,
            self.blocks@[pre.blocks@.len() - 1].reclamation == TAIL_ADVANCED,
            self.blocks@[pre.blocks@.len() as int].slots@.len() == SLOTS,
            self.blocks@[pre.blocks@.len() as int].slots@[0] == (Slot { value: Some(v), state: WRITTEN }),
            forall|s: int| 1 <= s < SLOTS ==> (#[trigger] self.blocks@[pre.blocks@.len() as int].slots@[s]).state == UNINIT
                && self.blocks@[pre.blocks@.len() as int].slots@[s].value is None,
            self.blocks@[pre.blocks@.len() as int].push_count == 0,
            self.blocks@[pre.blocks@.len() as int].pop_count == 0,
            self.blocks@[pre.blocks@.len() as int].reclamation == 0,
        ensures
            self.wf(),
            self.view() == pre.view().push(v),
    {
        let n = pre.blocks@.len();
        assert forall|a: int| 0 <= a < (n + 1) * SLOTS implies {
            let s = #[trigger] self.slot_at(a);
            &&& a < self.head ==> s.state == READ && s.value is None
            &&& self.head <= a < self.end() ==> s.state == WRITTEN && s.value is Some
            &&& self.end() <= a ==> s.state == UNINIT && s.value is None
        } by {
            lemma_split(a);
            assert(block_of(a) <= n) by (nonlinear_arith)
                requires a < (n + 1) * SLOTS, a == block_of(a) * SLOTS + index_of(a), 0 <= index_of(a) < SLOTS;
            if block_of(a) < n {
                assert(self.slot_at(a) == pre.slot_at(a));
                assert(a < n * SLOTS) by (nonlinear_arith)
                    requires block_of(a) < n, a == block_of(a) * SLOTS + index_of(a), 0 <= index_of(a) < SLOTS;
            } else {
                assert(a >= n * SLOTS) by (nonlinear_arith)
                    requires block_of(a) == n, a == block_of(a) * SLOTS + index_of(a), 0 <= index_of(a) < SLOTS;
            }
        }
        assert forall|b: int| 0 <= b < n + 1 implies (#[trigger] self.blocks@[b]).slots@.len() == SLOTS by {
            if b < n - 1 {
                assert(self.blocks@[b] == pre.blocks@[b]);
            }
        }
        assert(self.view() =~= pre.view().push(v)) by {
            assert forall|p: int| 0 <= p < self.view().len() implies #[trigger] self.view()[p] == pre.view().push(v)[p] by {
                let a = self.head + p;
                lemma_split(a);
                if p < pre.view().len() {
                    assert(a < n * SLOTS);
                    assert(block_of(a) < n) by (nonlinear_arith)
                        requires a < n * SLOTS, a == block_of(a) * SLOTS + index_of(a), 0 <= index_of(a) < SLOTS;
                    assert(self.slot_at(a) == pre.slot_at(a));
                } else {
                    assert(a == n * SLOTS);
                    lemma_pos(n as int, 0);
                }
            }
        }
    }

    /// Adds `add` to the state of the slot at index `i` of block `b`,
    /// answering the state it held.
    fn add_state(&mut self, b: usize, i: usize, add: u8) -> (prev: u8)
        requires
            b < old(self).blocks@.len(),
            i < SLOTS,
            old(self).blocks@[b as int].slots@.len() == SLOTS,
        ensures
            prev == old(self).blocks@[b as int].slots@[i as int].state,
            final(self).blocks@.len() == old(self).blocks@.len(),
            final(self).head == old(self).head,
            final(self).tail == old(self).tail,
            final(self).first == old(self).first,
            final(self).tail_block == old(self).tail_block,
            final(self).cached_tail == old(self).cached_tail,
            final(self).retired == old(self).retired,
            forall|c: int| 0 <= c < old(self).blocks@.len() && c != b ==> #[trigger] final(self).blocks@[c] == old(self).blocks@[c],
            final(self).blocks@[b as int].slots@.len() == SLOTS,
    {
        let blk = &mut self.blocks[b];
        let slot = &mut blk.slots[i];
        let prev = slot.state;
        slot.state = prev.wrapping_add(add);
        prev
    }

    /// Removes the oldest value, if any.
    pub fn pop(&mut self) -> (r: Option<T>)
        requires
            old(self).wf(),
        ensures
            final(self).wf(),
            final(self).next_id() == old(self).next_id(),
            final(self).can_grow() == old(self).can_grow(),
            final(self).retired() == 0,
            old(self).view().len() == 0 ==> r is None && final(self).view() == old(self).view(),
            old(self).view().len() > 0 ==> r == Some(old(self).view()[0]) && final(self).view()
                == old(self).view().drop_first(),
    {
        loop
            invariant
                self.wf(),
                self.view() == old(self).view(),
                self.next_id() == old(self).next_id(),
            decreases self.blocks@.len(),
        {
            if self.is_empty() {
                return None;
            }
            let ghost pre = *self;
            // take a slot
            let current = self.head;
            self.head = current + 1;
            let index = current;
            if index < SLOTS {
                proof {
                    lemma_pos(0, index as int);
                    assert(pre.slot_at(index as int) == pre.blocks@[0].slots@[index as int]);
                    assert(pre.slot_at(pre.head + 0) == pre.slot_at(index as int));
                }
                let mut spin: usize = 0;
                while spin < SPIN_READ
                    invariant
                        spin == 0,
                        index == pre.head,
                        index < SLOTS,
                        pre.wf(),
                        pre.view().len() > 0,
                        self.blocks == pre.blocks,
                        self.head == pre.head + 1,
                        self.tail == pre.tail,
                        self.first == pre.first,
                        self.tail_block == pre.tail_block,
                        self.cached_tail == pre.cached_tail,
                        self.retired == pre.retired,
                        pre.view() == old(self).view(),
                        pre.next_id() == old(self).next_id(),
                        self.blocks@[0].slots@[index as int] == pre.slot_at(pre.head as int),
                    decreases SPIN_READ - spin,
                {
                    let state = self.blocks[0].slots[index].state;
                    proof {
                        lemma_idle_word(state);
                    }
                    if state & WRITTEN == WRITTEN {
                        let slot = self.write_slot(0, index, None, state.wrapping_add(CONSUMED));
                        if state == WRITTEN {
                            proof {
                                self.lemma_after_read(pre);
                            }
                            return slot.value;
                        }
                        if state == READER_RESUME {
                            let blk = &mut self.blocks[0];
                            let _ = blk.try_reclaim(index + 1);
                            return slot.value;
                        }
                        proof {
                            assert(false);
                        }
                        return slot.value;
                    }
                    spin_hint();
                    spin = spin + 1;
                }
                // the value did not arrive: invalidate the slot
                let state = self.add_state(0, index, INVALID);
                if state == WRITTEN {
                    let slot = self.write_slot(0, index, None, (state + INVALID) as u8);
                    let prev = self.add_state(0, index, CONSUMED);
                    if prev == (INVALID | READER_RESUME) {
                        let blk = &mut self.blocks[0];
                        let _ = blk.try_reclaim(index + 1);
                    }
                    return slot.value;
                }
                if state == READER_RESUME {
                    let slot = self.write_slot(0, index, None, (state + INVALID) as u8);
                    let _ = self.add_state(0, index, CONSUMED);
                    let blk = &mut self.blocks[0];
                    let _ = blk.try_reclaim(index + 1);
                    return slot.value;
                }
                let prev = self.add_state(0, index, CONSUMED);
                if prev == (INVALID | READER_RESUME) {
                    let blk = &mut self.blocks[0];
                    let _ = blk.try_reclaim(index + 1);
                }
                continue ;
            }
            // every slot of the head block was taken
            proof {
                self.lemma_head_block_done(pre);
            }
            if index == SLOTS {
                let blk = &mut self.blocks[0];
                let _ = blk.try_reclaim(0);
            }
            if self.blocks.len() == 1 {
                let blk = &mut self.blocks[0];
                let _ = blk.try_reclaim_head_slow(None);
                return None;
            }
            // move the head to the next block
            let head_id = self.first;
            let final_count = compare_exchange(&mut self.first, &mut self.head, head_id, current + 1, head_id + 1, 0);
            assert(self.blocks@.subrange(1, self.blocks@.len() as int) =~= pre.blocks@.subrange(1, pre.blocks@.len() as int));
            let mut old_block = self.blocks.remove(0);
            proof {
                lemma_single_pass();
                lemma_count_bits(0, 0);
            }
            let released = old_block.try_reclaim_head_slow(final_count);
            proof {
                assert(released);
                self.lemma_after_advance(pre);
            }
            if !released {
                self.retired.push(old_block);
            }
        }
    }

    proof fn lemma_after_read(&self, pre: Queue<T>)
        requires
            pre.wf(),
            pre.view().len() > 0,
            pre.head < SLOTS,
            self.blocks@.len() == pre.blocks@.len(),
            self.head == pre.head + 1,
            self.tail == pre.tail,
            self.first == pre.first,
            self.tail_block == pre.tail_block,
            self.cached_tail == pre.cached_tail,
            self.retired == pre.retired,
            forall|c: int| 0 <= c < pre.blocks@.len() ==> (#[trigger] self.blocks@[c]).slots@.len() == SLOTS
                && self.blocks@[c].push_count == pre.blocks@[c].push_count
                && self.blocks@[c].pop_count == pre.blocks@[c].pop_count
                && self.blocks@[c].reclamation == pre.blocks@[c].reclamation,
            forall|a: int| #![trigger self.slot_at(a)] 0 <= a && block_of(a) < pre.blocks@.len() ==> self.slot_at(a) == (if a == 0 * SLOTS + pre.head {
                Slot { value: None::<T>, state: READ }
            } else {
                pre.slot_at(a)
            }),
        ensures
            self.wf(),
            self.view() == pre.view().drop_first(),
            self.next_id() == pre.next_id(),
    {
        let n = pre.blocks@.len();
        assert forall|a: int| 0 <= a < n * SLOTS implies {
            let s = #[trigger] self.slot_at(a);
            &&& a < self.head ==> s.state == READ && s.value is None
            &&& self.head <= a < self.end() ==> s.state == WRITTEN && s.value is Some
            &&& self.end() <= a ==> s.state == UNINIT && s.value is None
        } by {
            lemma_split(a);
            assert(block_of(a) < n) by (nonlinear_arith)
                requires a < n * SLOTS, a == block_of(a) * SLOTS + index_of(a), 0 <= index_of(a) < SLOTS;
            assert(pre.slot_at(a) == pre.slot_at(a));
        }
        assert(self.view() =~= pre.view().drop_first()) by {
            assert forall|p: int| 0 <= p < self.view().len() implies #[trigger] self.view()[p] == pre.view().drop_first()[p] by {
                let a = self.head + p;
                lemma_split(a);
                assert(block_of(a) < n) by (nonlinear_arith)
                    requires a < self.end(), self.end() <= n * SLOTS, a == block_of(a) * SLOTS + index_of(a), 0 <= index_of(a) < SLOTS;
            }
        }
    }

    proof fn lemma_head_block_done(&self, pre: Queue<T>)
        requires
            pre.wf(),
            pre.view().len() > 0,
            pre.head >= SLOTS,
            self.blocks == pre.blocks,
        ensures
            pre.head == SLOTS,
            pre.blocks@.len() > 1,
            forall|s: int| 0 <= s < SLOTS ==> (#[trigger] self.blocks@[0].slots@[s]).state == READ,
            self.blocks@[0].reclamation == TAIL_ADVANCED,
            self.blocks@[0].pop_count == 0,
            self.blocks@[0].slots@.len() == SLOTS,
    {
        assert forall|s: int| 0 <= s < SLOTS implies (#[trigger] self.blocks@[0].slots@[s]).state == READ by {
            lemma_pos(0, s);
            assert(pre.slot_at(0 * SLOTS + s).state == READ);
        }
        assert(self.blocks@[0] == pre.blocks@[0]);
    }

    proof fn lemma_after_advance(&self, pre: Queue<T>)
        requires
            pre.wf(),
            pre.head == SLOTS,
            pre.blocks@.len() > 1,
            self.blocks@ == pre.blocks@.subrange(1, pre.blocks@.len() as int),
            self.head == 0,
            self.tail == pre.tail,
            self.first == pre.first + 1,
            self.tail_block == pre.tail_block,
            self.cached_tail == pre.cached_tail,
            self.retired == pre.retired,
        ensures
            self.wf(),
            self.view() == pre.view(),
            self.next_id() == pre.next_id(),
    {
        let n = pre.blocks@.len();
        assert forall|a: int| 0 <= a < (n - 1) * SLOTS implies #[trigger] self.slot_at(a) == pre.slot_at(a + SLOTS) by {
            lemma_split(a);
            assert(block_of(a) < n - 1) by (nonlinear_arith)
                requires a < (n - 1) * SLOTS, a == block_of(a) * SLOTS + index_of(a), 0 <= index_of(a) < SLOTS;
            lemma_pos(block_of(a) + 1, index_of(a));
            assert(a + SLOTS == (block_of(a) + 1) * SLOTS + index_of(a)) by (nonlinear_arith)
                requires a == block_of(a) * SLOTS + index_of(a);
        }
        assert forall|a: int| 0 <= a < (n - 1) * SLOTS implies {
            let s = #[trigger] self.slot_at(a);
            &&& a < self.head ==> s.state == READ && s.value is None
            &&& self.head <= a < self.end() ==> s.state == WRITTEN && s.value is Some
            &&& self.end() <= a ==> s.state == UNINIT && s.value is None
        } by {
            assert(a + SLOTS < n * SLOTS) by (nonlinear_arith)
                requires a < (n - 1) * SLOTS;
        }
        assert forall|b: int| 0 <= b < n - 1 implies (#[trigger] self.blocks@[b]).slots@.len() == SLOTS by {
            assert(self.blocks@[b] == pre.blocks@[b + 1]);
        }
        assert forall|b: int| 0 <= b < n - 2 implies (#[trigger] self.blocks@[b]).reclamation == TAIL_ADVANCED
            && self.blocks@[b].push_count == 0x1_0001 && self.blocks@[b].pop_count == 0 by {
            assert(self.blocks@[b] == pre.blocks@[b + 1]);
        }
        assert(self.blocks@[n - 2] == pre.blocks@[n - 1]);
        assert(self.view() =~= pre.view()) by {
            assert forall|p: int| 0 <= p < self.view().len() implies #[trigger] self.view()[p] == pre.view()[p] by {
                assert(self.head + p < (n - 1) * SLOTS);
                assert(self.slot_at(self.head + p) == pre.slot_at(self.head + p + SLOTS));
            }
        }
    }
}

} // verus!
