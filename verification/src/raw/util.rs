use crate::raw::ring::{lemma_ring_double, lemma_ring_size};
use vstd::prelude::*;

verus! {

/// `x - y` on a 64-bit counter, wrapped, then read as a signed number.
pub open spec fn wrapping_diff(x: u64, y: u64) -> i64 {
    ((x - y) as u64) as i64
}

/// Signed distance between two wrapping counters (`x - y`).
pub fn wrapping_sub_signed(x: u64, y: u64) -> (d: i64)
    ensures
        d == wrapping_diff(x, y),
{
    let w = x.wrapping_sub(y);
    assert(w == ((x - y) as u64)) by (bit_vector)
        requires
            w == (if x - y < 0 { (x - y + 0x1_0000_0000_0000_0000) as u64 } else { (x - y) as u64 });
    w as i64
}

/// Whether `capacity` is a non-zero power of two.
pub open spec fn is_valid_capacity(capacity: usize) -> bool {
    capacity > 0 && capacity & ((capacity - 1) as usize) == 0
}

/// A power of two above `2^k` is at least `2^(k + 1)`.
proof fn lemma_pow2_above(c: usize, k: usize)
    by (bit_vector)
    requires
        c > 0,
        c & ((c - 1) as usize) == 0,
        k < usize::BITS,
        c > (1usize << k),
    ensures
        k + 1 < usize::BITS,
        c >= (1usize << ((k + 1) as usize)),
{
}

/// A valid capacity not below `2^k` is `2^r` for some `r` from `k` on.
proof fn lemma_find_exponent(c: usize, k: usize) -> (r: usize)
    requires
        is_valid_capacity(c),
        k < usize::BITS,
        (1usize << k) <= c,
    ensures
        r < usize::BITS,
        c == (1usize << r),
    decreases usize::BITS - k,
{
    if c == (1usize << k) {
        k
    } else {
        lemma_pow2_above(c, k);
        lemma_find_exponent(c, (k + 1) as usize)
    }
}

/// The valid capacities are exactly the powers of two `2^k` that fit in a
/// `usize`: every such power is valid, and every valid capacity is one.
pub proof fn lemma_valid_capacity(c: usize)
    ensures
        is_valid_capacity(c) <==> exists|k: usize| k < usize::BITS && c == (1usize << k),
{
    if is_valid_capacity(c) {
        lemma_ring_size(0);
        let k = lemma_find_exponent(c, 0);
        assert(k < usize::BITS && c == (1usize << k));
    }
    if exists|k: usize| k < usize::BITS && c == (1usize << k) {
        let k = choose|k: usize| k < usize::BITS && c == (1usize << k);
        lemma_ring_size(k);
    }
}

/// Tells whether `capacity` is a non-zero power of two.
pub fn check_capacity(capacity: usize) -> (r: bool)
    ensures
        r == is_valid_capacity(capacity),
        r <==> exists|k: usize| k < usize::BITS && capacity == (1usize << k),
{
    proof {
        lemma_valid_capacity(capacity);
    }
    capacity != 0 && capacity & (capacity - 1) == 0
}

/// The capacity of a ring buffer must be a non-zero power of two. Callers
/// meet this statically; `check_capacity` tests it at run time.
pub fn assert_valid_capacity(capacity: usize)
    requires
        is_valid_capacity(capacity),
{
}

/// A power-of-two capacity below `2^32 - 1` is at most `2^31`.
pub proof fn lemma_capacity_bound(capacity: usize)
    requires
        is_valid_capacity(capacity),
        capacity < 0xffff_ffff,
    ensures
        capacity <= 0x8000_0000,
{
    assert(capacity <= 0x8000_0000) by (bit_vector)
        requires
            capacity > 0,
            capacity & ((capacity - 1) as usize) == 0,
            capacity < 0xffff_ffff;
}

/// A value that a concurrent layout keeps on a cache line of its own.
pub struct CachePadded<T>(pub T);

/// Compare-and-swap on a word: replaces `*cell` by `new` if it holds `current`.
///
/// Returns `Ok(current)` on success, and `Err(found)` with the value found otherwise.
pub fn compare_exchange(cell: &mut u64, current: u64, new: u64) -> (r: Result<u64, u64>)
    ensures
        *old(cell) == current ==> r == Ok::<u64, u64>(current) && *final(cell) == new,
        *old(cell) != current ==> r == Err::<u64, u64>(*old(cell)) && *final(cell) == *old(cell),
{
    let found = *cell;
    if found == current {
        *cell = new;
        Ok(found)
    } else {
        Err(found)
    }
}

/// Compare-and-swap on a byte cell.
pub fn compare_exchange_u8(cell: &mut u8, current: u8, new: u8) -> (r: Result<u8, u8>)
    ensures
        *old(cell) == current ==> r == Ok::<u8, u8>(current) && *final(cell) == new,
        *old(cell) != current ==> r == Err::<u8, u8>(*old(cell)) && *final(cell) == *old(cell),
{
    let found = *cell;
    if found == current {
        *cell = new;
        Ok(found)
    } else {
        Err(found)
    }
}

/// Replaces `*cell` by `new`, returning the value it held.
pub fn swap_u8(cell: &mut u8, new: u8) -> (r: u8)
    ensures
        r == *old(cell),
        *final(cell) == new,
{
    let found = *cell;
    *cell = new;
    found
}

/// Bit facts about the flag words of the wake-up cells, for the idle word.
pub proof fn lemma_idle_flags()
    by (bit_vector)
    ensures
        0u8 & 1u8 == 0u8,
        0u8 & 2u8 == 0u8,
        0u8 & 4u8 == 0u8,
        (0u8 | 1u8) | 4u8 == 5u8,
        (0u8 | 4u8) | 1u8 == 5u8,
        5u8 & !4u8 == 1u8,
        2u8 & 1u8 == 0u8,
        (1u8 | 2u8) & 1u8 == 1u8,
        5u8 & 1u8 == 1u8,
        5u8 & 2u8 == 0u8,
        1u8 & 1u8 == 1u8,
        4u8 & 1u8 == 0u8,
        4u8 & 2u8 == 0u8,
        (4u8 | 1u8) | 4u8 == 5u8,
        (1u8 | 2u8) == 3u8,
        (0u8 | 2u8) == 2u8,
        (4u8 | 2u8) == 6u8,
        (5u8 | 2u8) == 7u8,
        1u8 & 4u8 == 0u8,
        5u8 & 4u8 == 4u8,
        4u8 & 4u8 == 4u8,
        4u8 | 1u8 == 5u8,
{
}

/// Bit facts about a flag word that is idle (zero).
pub proof fn lemma_idle_word(s: u8)
    by (bit_vector)
    ensures
        s == 0u8 ==> s & 1u8 == 0u8 && s & 2u8 == 0u8 && s & 4u8 == 0u8 && ((s | 1u8) | 4u8)
            == 5u8 && ((s | 4u8) | 1u8) == 5u8 && (s | 2u8) == 2u8,
        (s & 1u8 == 1u8) <==> (s & 1u8 != 0u8),
        (s & 4u8 == 4u8) <==> (s & 4u8 != 0u8),
        s & 1u8 != 0u8 ==> s != 0u8,
        (s | 1u8) != 0u8,
        (s | 1u8) & 1u8 == 1u8,
        ((s | 1u8) | 4u8) != 0u8,
        ((s | 4u8) | 1u8) & 1u8 == 1u8,
        (s | 2u8) & 2u8 == 2u8,
        (s | 2u8) != 0u8,
        s == 5u8 ==> s & !4u8 == 1u8,
        s == 5u8 ==> s & 5u8 == 5u8,
        s == 1u8 ==> s & 1u8 == 1u8,
{
}

/// Compare-and-swap on a `usize` cell.
pub fn compare_exchange_usize(cell: &mut usize, current: usize, new: usize) -> (r: Result<
    usize,
    usize,
>)
    ensures
        *old(cell) == current ==> r == Ok::<usize, usize>(current) && *final(cell) == new,
        *old(cell) != current ==> r == Err::<usize, usize>(*old(cell)) && *final(cell) == *old(
            cell,
        ),
{
    let found = *cell;
    if found == current {
        *cell = new;
        Ok(found)
    } else {
        Err(found)
    }
}

/// Compare-and-swap on the word at `index`.
pub fn compare_exchange_at(words: &mut Vec<u64>, index: usize, current: u64, new: u64) -> (r: Result<
    u64,
    u64,
>)
    requires
        index < old(words).len(),
    ensures
        old(words)[index as int] == current ==> r == Ok::<u64, u64>(current) && final(words)@
            == old(words)@.update(index as int, new),
        old(words)[index as int] != current ==> r == Err::<u64, u64>(old(words)[index as int])
            && final(words)@ == old(words)@,
{
    let found = words[index];
    if found == current {
        words.set(index, new);
        Ok(found)
    } else {
        Err(found)
    }
}

/// Busy-waits for `rounds * rounds` spin hints.
pub fn spin_rounds(rounds: usize)
    requires
        rounds <= 64,
{
    assert(rounds * rounds <= 64 * 64) by (nonlinear_arith)
        requires
            rounds <= 64,
    ;
    let total = rounds * rounds;
    let mut i: usize = 0;
    while i < total
        decreases total - i,
    {
        spin_hint();
        i = i + 1;
    }
}

/// Hints the processor that the caller is spinning (`std::hint::spin_loop`).
///
/// Nothing is claimed of it: it has no effect that the library observes.
#[verifier::external_body]
pub(crate) fn spin_hint() {
    std::hint::spin_loop()
}

/// The smallest power of two not below `c` (`1` for `c <= 1`).
pub open spec fn ceil_pow2(c: int) -> int
    decreases c,
{
    if c <= 1 {
        1
    } else {
        2 * ceil_pow2((c + 1) / 2)
    }
}

/// `p` is a power of two.
spec fn is_pow2(p: int) -> bool
    decreases p,
{
    if p <= 1 {
        p == 1
    } else {
        p % 2 == 0 && is_pow2(p / 2)
    }
}

/// A power of two not below `c` whose half is below `c` is `ceil_pow2(c)`.
proof fn lemma_ceil_pow2(c: int, p: int)
    requires
        is_pow2(p),
        p >= c,
        p == 1 || p / 2 < c,
    ensures
        p == ceil_pow2(c),
    decreases p,
{
    if c > 1 {
        lemma_ceil_pow2((c + 1) / 2, p / 2);
    }
}

/// The smallest power of two not below `c` (`1` for `0`), with its exponent.
pub fn next_power_of_two(c: usize) -> (r: (usize, usize))
    requires
        c <= usize::MAX / 2 + 1,
    ensures
        r.1 < usize::BITS,
        r.0 == (1usize << r.1),
        r.0 >= c,
        r.0 == 1 || r.0 / 2 < c,
        r.0 == ceil_pow2(c as int),
{
    let mut p: usize = 1;
    let mut k: usize = 0;
    proof {
        lemma_ring_size(0);
    }
    while p < c
        invariant
            k < usize::BITS,
            p == (1usize << k),
            p >= 1,
            c <= usize::MAX / 2 + 1,
            p == 1 || p / 2 < c,
            is_pow2(p as int),
        decreases usize::MAX - p,
    {
        proof {
            lemma_ring_double(k);
            assert(is_pow2((p * 2) as int));
        }
        k = k + 1;
        p = p * 2;
    }
    proof {
        lemma_ceil_pow2(c as int, p as int);
    }
    (p, k)
}

} // verus!
