//! Positions of a ring buffer of `2^k` slots, read through wrapping counters.
//!
//! A counter `p` (which may wrap around the word size) lives in slot
//! `p & (2^k - 1)`. For a head counter `h`, slot `i` is at offset
//! `(i - h) & (2^k - 1)` from the head.
use vstd::prelude::*;

verus! {

/// Index mask of a ring of `2^k` slots.
pub open spec fn ring_mask(k: usize) -> usize {
    ((1usize << k) - 1) as usize
}

/// Slot of counter `p`.
pub open spec fn ring_slot(p: usize, k: usize) -> usize {
    p & ring_mask(k)
}

/// Offset of slot `i` from the slot of head counter `h`.
pub open spec fn ring_offset(i: usize, h: usize, k: usize) -> usize {
    ((i - h) as usize) & ring_mask(k)
}

/// Number of positions from `h` up to `t`, with wrapping counters.
pub open spec fn ring_count(h: usize, t: usize) -> usize {
    (t - h) as usize
}

/// Counter `j` positions after `h`.
pub open spec fn ring_advance(h: usize, j: int) -> usize {
    (h + j) as usize
}

/// Sizes of a ring of `2^k` slots.
pub proof fn lemma_ring_size(k: usize)
    by (bit_vector)
    requires
        k < usize::BITS,
    ensures
        (1usize << k) >= 1,
        (1usize << 0usize) == 1,
        ((1usize << k) & (((1usize << k) - 1) as usize)) == 0,
        ((1usize << k) - 1) as usize + 1 == (1usize << k),
{
}

/// Offsets and slots correspond one to one.
pub proof fn lemma_ring_offset(h: usize, j: usize, i: usize, k: usize)
    by (bit_vector)
    requires
        k < usize::BITS,
        j < (1usize << k),
        i < (1usize << k),
    ensures
        ((((((h + j) as usize) & (((1usize << k) - 1) as usize)) - h) as usize) & (((1usize
            << k) - 1) as usize)) == j,
        ((h + ((((i - h) as usize) & (((1usize << k) - 1) as usize)))) as usize) & (((1usize
            << k) - 1) as usize) == i,
        (i & (((1usize << k) - 1) as usize)) == i,
        (h & (((1usize << k) - 1) as usize)) < (1usize << k),
        (((i - h) as usize) & (((1usize << k) - 1) as usize)) < (1usize << k),
{
}

/// Moving the head one step shifts every offset down by one, cyclically.
pub proof fn lemma_ring_step(h: usize, i: usize, k: usize)
    by (bit_vector)
    requires
        k < usize::BITS,
    ensures
        (((i - ((h + 1) as usize)) as usize) & (((1usize << k) - 1) as usize)) == (if (((i
            - h) as usize) & (((1usize << k) - 1) as usize)) == 0 {
            ((1usize << k) - 1) as usize
        } else {
            ((((i - h) as usize) & (((1usize << k) - 1) as usize)) - 1) as usize
        }),
{
}

/// Counting from `h` to `t` after one step of either counter.
pub proof fn lemma_ring_count(h: usize, t: usize, k: usize)
    by (bit_vector)
    requires
        k < usize::BITS,
    ensures
        ((t - h) as usize) < (1usize << k) ==> (((((t + 1) as usize) - h) as usize) == ((t - h)
            as usize) + 1),
        ((t - h) as usize) > 0 ==> ((t - ((h + 1) as usize)) as usize) == ((t - h) as usize)
            - 1,
        ((h + ((t - h) as usize)) as usize) == t,
{
}

/// Doubling a power of two.
pub proof fn lemma_ring_double(k: usize)
    by (bit_vector)
    requires
        k < usize::BITS,
        ((2 * (1usize << k)) as usize) == 2 * (1usize << k),
    ensures
        k + 1 < usize::BITS,
        (1usize << ((k + 1) as usize)) == 2 * (1usize << k),
{
}

/// A counter splits into a cycle (a multiple of `2^k`) and an index below `2^k`.
pub proof fn lemma_cycle_split(x: usize, k: usize)
    by (bit_vector)
    requires
        k < usize::BITS,
    ensures
        x == (x & !(((1usize << k) - 1) as usize)) + (x & (((1usize << k) - 1) as usize)),
        (x & (((1usize << k) - 1) as usize)) < (1usize << k),
        ((x & !(((1usize << k) - 1) as usize)) & (((1usize << k) - 1) as usize)) == 0,
{
}

/// A cycle plus an index splits back into the same cycle and index.
pub proof fn lemma_cycle_join(c: usize, i: usize, k: usize)
    by (bit_vector)
    requires
        k < usize::BITS,
        (c & (((1usize << k) - 1) as usize)) == 0,
        i < (1usize << k),
        ((c + i) as usize) == c + i,
    ensures
        (((c + i) as usize) & (((1usize << k) - 1) as usize)) == i,
        (((c + i) as usize) & !(((1usize << k) - 1) as usize)) == c,
{
}

/// The next cycle after `c` is still a cycle.
pub proof fn lemma_cycle_next(c: usize, k: usize)
    by (bit_vector)
    requires
        k < usize::BITS,
        (c & (((1usize << k) - 1) as usize)) == 0,
        ((c + (1usize << k)) as usize) == c + (1usize << k),
    ensures
        (((c + (1usize << k)) as usize) & (((1usize << k) - 1) as usize)) == 0,
{
}

/// The power of two above a power of two `c` and not above `2c + 1` is `2c`.
pub proof fn lemma_next_pow2_of_pow2(c: usize, r: usize)
    by (bit_vector)
    requires
        c > 0,
        c & ((c - 1) as usize) == 0,
        r > 0,
        r & ((r - 1) as usize) == 0,
        r > c,
        r <= 2 * c + 1,
    ensures
        r == 2 * c,
{
}

} // verus!
