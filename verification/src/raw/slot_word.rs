//! The encoding of a ring slot as a single word: a cycle number in the upper
//! bits, a "safe" flag, and an index in the lower bits.
//!
//! For a ring of `1 << k` slots the low `k` bits hold the index (all ones
//! meaning "vacant"), bit `k` is the safe flag and the bits above hold the
//! cycle. A position `p` (a head or tail counter) lives in slot
//! `p & (2^k - 1)` during cycle `p >> k`.
use vstd::prelude::*;

verus! {

/// Counters stay below this bound, so that shifting a position left by one never overflows.
pub open spec fn position_limit() -> u64 {
    0x4000_0000_0000_0000
}

/// `2^k`, the number of slots.
pub open spec fn span(k: u64) -> u64 {
    1u64 << k
}

/// Mask of the index bits of a slot word (`2^k - 1`).
pub open spec fn idx_mask(k: u64) -> u64 {
    ((1u64 << k) - 1) as u64
}

/// Mask of the index and safe bits of a slot word (`2^(k+1) - 1`).
pub open spec fn cyc_mask(k: u64) -> u64 {
    ((2u64 << k) - 1) as u64
}

/// Cycle number stored in a slot word.
pub open spec fn word_gen(v: u64, k: u64) -> u64 {
    v >> ((k + 1) as u64)
}

/// Index stored in a slot word (`idx_mask(k)` when vacant).
pub open spec fn word_idx(v: u64, k: u64) -> u64 {
    v & idx_mask(k)
}

/// Cycle of a position.
pub open spec fn pos_gen(p: u64, k: u64) -> u64 {
    p >> k
}

/// Slot of a position.
pub open spec fn pos_slot(p: u64, k: u64) -> u64 {
    p & idx_mask(k)
}

/// `(g, i)` comes before position `p` in (cycle, slot) order.
pub open spec fn lex_before(g: u64, i: u64, p: u64, k: u64) -> bool {
    g < pos_gen(p, k) || (g == pos_gen(p, k) && i < pos_slot(p, k))
}

/// The position in `[head, head + 2^k)` that lives in slot `i`.
pub open spec fn window_pos(head: u64, i: u64, k: u64) -> int {
    (head - pos_slot(head, k)) + i + (if i < pos_slot(head, k) { span(k) as int } else { 0 })
}

/// Positions in one window of `2^k` consecutive positions are found again from their slot.
pub proof fn lemma_window(head: u64, p: u64, k: u64)
    by (bit_vector)
    requires
        1 <= k <= 32,
        head <= p,
        p < head + (1u64 << k),
        p < 0x8000_0000_0000_0000u64,
    ensures
        (head - (head & (((1u64 << k) - 1) as u64))) + (p & (((1u64 << k) - 1) as u64)) + (
        if (p & (((1u64 << k) - 1) as u64)) < (head & (((1u64 << k) - 1) as u64)) {
            (1u64 << k) as int
        } else {
            0
        }) == p,
{
}

/// The window position of a slot lies in the window and lives in that slot.
pub proof fn lemma_window_slot(head: u64, i: u64, k: u64)
    by (bit_vector)
    requires
        1 <= k <= 32,
        i < (1u64 << k),
        head < 0x4000_0000_0000_0000u64,
    ensures
        head <= (head - (head & (((1u64 << k) - 1) as u64))) + i + (
        if i < (head & (((1u64 << k) - 1) as u64)) {
            (1u64 << k) as int
        } else {
            0
        }),
        (head - (head & (((1u64 << k) - 1) as u64))) + i + (
        if i < (head & (((1u64 << k) - 1) as u64)) {
            (1u64 << k) as int
        } else {
            0
        }) < head + (1u64 << k),
        (((head - (head & (((1u64 << k) - 1) as u64))) + i + (
        if i < (head & (((1u64 << k) - 1) as u64)) {
            (1u64 << k) as int
        } else {
            0
        })) as u64) & (((1u64 << k) - 1) as u64) == i,
{
}

/// A slot word and a position share a cycle exactly when their cycle words are equal.
pub proof fn lemma_cycle_word_eq(v: u64, p: u64, k: u64)
    by (bit_vector)
    requires
        1 <= k <= 32,
        p < 0x4000_0000_0000_0000u64,
    ensures
        ((v | (((2u64 << k) - 1) as u64)) == ((p << 1u64) | (((2u64 << k) - 1) as u64))) == ((v
            >> ((k + 1) as u64)) == (p >> k)),
{
}

/// The cycle word of a slot from an older cycle compares below the cycle word of `p`.
pub proof fn lemma_cycle_word_older(v: u64, p: u64, k: u64)
    by (bit_vector)
    requires
        1 <= k <= 32,
        p < 0x4000_0000_0000_0000u64,
        v == 0xffff_ffff_ffff_ffffu64 || (v >> ((k + 1) as u64)) < (p >> k),
    ensures
        ((((v | (((2u64 << k) - 1) as u64)) - ((p << 1u64) | (((2u64 << k) - 1) as u64))) as u64)
            as i64) < 0,
{
}

/// Storing index `x` for position `t` gives a word of `t`'s cycle that holds `x`.
pub proof fn lemma_store_word(t: u64, x: u64, k: u64)
    by (bit_vector)
    requires
        1 <= k <= 32,
        t < 0x4000_0000_0000_0000u64,
        x < (1u64 << k),
    ensures
        ((((t << 1u64) | (((2u64 << k) - 1) as u64)) ^ x ^ (((1u64 << k) - 1) as u64)) >> ((k
            + 1) as u64)) == (t >> k),
        ((((t << 1u64) | (((2u64 << k) - 1) as u64)) ^ x ^ (((1u64 << k) - 1) as u64)) & (((1u64
            << k) - 1) as u64)) == x,
{
}

/// Setting all index bits keeps the cycle and leaves the slot vacant.
pub proof fn lemma_clear_word(v: u64, k: u64)
    by (bit_vector)
    requires
        1 <= k <= 32,
    ensures
        ((v | (((1u64 << k) - 1) as u64)) >> ((k + 1) as u64)) == (v >> ((k + 1) as u64)),
        ((v | (((1u64 << k) - 1) as u64)) & (((1u64 << k) - 1) as u64)) == (((1u64 << k)
            - 1) as u64),
{
}

/// A vacant word is either safe or unsafe, and setting its safe bit gives its cycle word.
pub proof fn lemma_vacant_word(v: u64, k: u64)
    by (bit_vector)
    requires
        1 <= k <= 32,
        (v & (((1u64 << k) - 1) as u64)) == (((1u64 << k) - 1) as u64),
    ensures
        (v | (1u64 << k)) == (v | (((2u64 << k) - 1) as u64)),
        v == (v | (((2u64 << k) - 1) as u64)) || v == ((v | (((2u64 << k) - 1) as u64)) ^ (1u64
            << k)),
{
}

/// Moving a vacant slot to the cycle of `h`, keeping its safe bit.
pub proof fn lemma_advance_word(v: u64, h: u64, k: u64)
    by (bit_vector)
    requires
        1 <= k <= 32,
        h < 0x4000_0000_0000_0000u64,
    ensures
        ((((h << 1u64) | (((2u64 << k) - 1) as u64)) ^ (!v & (1u64 << k))) >> ((k + 1) as u64))
            == (h >> k),
        ((((h << 1u64) | (((2u64 << k) - 1) as u64)) ^ (!v & (1u64 << k))) & (((1u64 << k)
            - 1) as u64)) == (((1u64 << k) - 1) as u64),
{
}

/// Positions are ordered like their (cycle, slot) pairs.
pub proof fn lemma_lex_order(a: u64, b: u64, k: u64)
    by (bit_vector)
    requires
        1 <= k <= 32,
        a < b,
    ensures
        (a >> k) < (b >> k) || ((a >> k) == (b >> k) && (a & (((1u64 << k) - 1) as u64)) < (b
            & (((1u64 << k) - 1) as u64))),
{
}

/// A position in slot `i` is before `p` in (cycle, slot) order exactly when its cycle is older.
pub proof fn lemma_same_slot_order(g: u64, p: u64, k: u64)
    by (bit_vector)
    requires
        1 <= k <= 32,
    ensures
        (g < (p >> k) || (g == (p >> k) && (p & (((1u64 << k) - 1) as u64)) < (p & (((1u64
            << k) - 1) as u64)))) == (g < (p >> k)),
{
}

/// Positions below `2^k` are in the first cycle and are their own slot.
pub proof fn lemma_first_cycle(i: u64, k: u64)
    by (bit_vector)
    requires
        k <= 32,
        i < (1u64 << k),
    ensures
        (i >> ((k + 1) as u64)) == 0,
        (i >> k) == 0,
        (i & (((1u64 << k) - 1) as u64)) == i,
{
}

/// The all-ones word is vacant.
pub proof fn lemma_initial_word(k: u64)
    by (bit_vector)
    requires
        1 <= k <= 32,
    ensures
        (0xffff_ffff_ffff_ffffu64 & (((1u64 << k) - 1) as u64)) == (((1u64 << k) - 1) as u64),
{
}

/// For counters below the limit, the wrapping distance is the plain one.
pub proof fn lemma_small_distance(x: u64, y: u64)
    by (bit_vector)
    requires
        x < 0x4000_0000_0000_0000u64,
        y < 0x4000_0000_0000_0000u64,
    ensures
        (((x - y) as u64) as i64) == x - y,
{
}

/// Sizes of a ring of `2^k` slots.
pub proof fn lemma_span(k: u64)
    by (bit_vector)
    requires
        k <= 32,
    ensures
        1 <= (1u64 << k) <= 0x1_0000_0000u64,
        1 <= k ==> 2 <= (1u64 << k),
        (2u64 << k) == 2 * (1u64 << k),
        1 <= k ==> (1u64 << k) % 2 == 0,
        k < 32 ==> (1u64 << ((k + 1) as u64)) == (2u64 << k),
{
}

/// A power of two is `2^k` for some `k`, found by counting up from `k`.
pub proof fn lemma_find_order(c: u64, k: u64) -> (r: u64)
    requires
        c > 0,
        c & ((c - 1) as u64) == 0,
        k <= 63,
        c >= (1u64 << k),
    ensures
        k <= r <= 63,
        c == (1u64 << r),
    decreases 64 - k,
{
    if c == (1u64 << k) {
        k
    } else {
        lemma_next_order(c, k);
        lemma_find_order(c, (k + 1) as u64)
    }
}

proof fn lemma_next_order(c: u64, k: u64)
    by (bit_vector)
    requires
        c > 0,
        c & ((c - 1) as u64) == 0,
        k <= 63,
        c > (1u64 << k),
    ensures
        k < 63,
        c >= (1u64 << ((k + 1) as u64)),
{
}

/// Twice a power of two not above `2^31` is a power of two, and `2^k` bounds fix `k`.
pub proof fn lemma_double_capacity(c: u64)
    by (bit_vector)
    requires
        c > 0,
        c & ((c - 1) as u64) == 0,
        c <= 0x8000_0000u64,
    ensures
        (2 * c) as u64 & ((2 * c - 1) as u64) == 0,
        2 <= 2 * c <= 0x1_0000_0000u64,
        (1u64 << 0u64) == 1,
{
}

/// Bounds on `2^k` bound `k`.
pub proof fn lemma_order_bounds(k: u64)
    by (bit_vector)
    requires
        k <= 63,
        2 <= (1u64 << k) <= 0x1_0000_0000u64,
    ensures
        1 <= k <= 32,
{
}

/// The slot of a position is a valid slot.
pub proof fn lemma_slot_bound(p: u64, k: u64)
    by (bit_vector)
    requires
        1 <= k <= 32,
    ensures
        (p & (((1u64 << k) - 1) as u64)) < (1u64 << k),
{
}

/// Positions `2^k` apart share a slot.
pub proof fn lemma_slot_period(p: u64, k: u64)
    by (bit_vector)
    requires
        k <= 32,
        p < 0x4000_0000_0000_0000u64,
    ensures
        (((p + (1u64 << k)) as u64) & (((1u64 << k) - 1) as u64)) == (p & (((1u64 << k) - 1)
            as u64)),
{
}

/// Spreads consecutive slots over cache lines: rotates the `k` index bits
/// left by four. Fewer than four index bits are left as they are.
pub open spec fn remap(x: u64, k: u64) -> u64 {
    if 4 <= k {
        (x >> ((k - 4) as u64)) | ((x << 4u64) & idx_mask(k))
    } else {
        x
    }
}

/// Undoes `remap`: rotates the `k` index bits right by four.
pub open spec fn unmap(i: u64, k: u64) -> u64 {
    if 4 <= k {
        (i >> 4u64) | ((i << ((k - 4) as u64)) & idx_mask(k))
    } else {
        i
    }
}

/// Slot of a position when slots are spread over cache lines.
pub open spec fn rpos_slot(p: u64, k: u64) -> u64 {
    remap(pos_slot(p, k), k)
}

/// The position in `[head, head + 2^k)` that lives in spread slot `i`.
pub open spec fn rwindow_pos(head: u64, i: u64, k: u64) -> int {
    window_pos(head, unmap(i, k), k)
}

/// Rotating by four within `k` bits is a bijection on the indices below `2^k`.
pub proof fn lemma_rotate(x: u64, k: u64)
    by (bit_vector)
    requires
        4 <= k <= 32,
        x < (1u64 << k),
    ensures
        ((x >> ((k - 4) as u64)) | ((x << 4u64) & (((1u64 << k) - 1) as u64))) < (1u64 << k),
        ((x >> 4u64) | ((x << ((k - 4) as u64)) & (((1u64 << k) - 1) as u64))) < (1u64 << k),
        ((((x >> ((k - 4) as u64)) | ((x << 4u64) & (((1u64 << k) - 1) as u64))) >> 4u64) | ((((x
            >> ((k - 4) as u64)) | ((x << 4u64) & (((1u64 << k) - 1) as u64))) << ((k - 4) as u64))
            & (((1u64 << k) - 1) as u64))) == x,
        ((((x >> 4u64) | ((x << ((k - 4) as u64)) & (((1u64 << k) - 1) as u64))) >> ((k - 4) as u64))
            | ((((x >> 4u64) | ((x << ((k - 4) as u64)) & (((1u64 << k) - 1) as u64))) << 4u64) & (((
        1u64 << k) - 1) as u64))) == x,
{
}

/// `remap` and `unmap` undo each other on the indices below `2^k`.
pub proof fn lemma_remap(x: u64, k: u64)
    requires
        k <= 32,
        x < span(k),
    ensures
        remap(x, k) < span(k),
        unmap(x, k) < span(k),
        unmap(remap(x, k), k) == x,
        remap(unmap(x, k), k) == x,
{
    if 4 <= k {
        lemma_rotate(x, k);
    }
}

/// Positions in one window are found again from their spread slot.
pub proof fn lemma_rwindow(head: u64, p: u64, k: u64)
    requires
        1 <= k <= 32,
        head <= p,
        p < head + span(k),
        p < 0x8000_0000_0000_0000u64,
    ensures
        rwindow_pos(head, rpos_slot(p, k), k) == p,
        rpos_slot(p, k) < span(k),
{
    lemma_window(head, p, k);
    lemma_slot_bound(p, k);
    lemma_remap(pos_slot(p, k), k);
}

/// The window position of a spread slot lies in the window and lives in that slot.
pub proof fn lemma_rwindow_slot(head: u64, i: u64, k: u64)
    requires
        1 <= k <= 32,
        i < span(k),
        head < 0x4000_0000_0000_0000u64,
    ensures
        head <= rwindow_pos(head, i, k) < head + span(k),
        rpos_slot(rwindow_pos(head, i, k) as u64, k) == i,
{
    lemma_remap(i, k);
    lemma_window_slot(head, unmap(i, k), k);
}

/// The spread slot of a position is a valid slot.
pub proof fn lemma_rslot_bound(p: u64, k: u64)
    requires
        1 <= k <= 32,
    ensures
        rpos_slot(p, k) < span(k),
{
    lemma_slot_bound(p, k);
    lemma_remap(pos_slot(p, k), k);
}

/// Positions `2^k` apart share a spread slot.
pub proof fn lemma_rslot_period(p: u64, k: u64)
    requires
        1 <= k <= 32,
        p < 0x4000_0000_0000_0000u64,
    ensures
        rpos_slot((p + span(k)) as u64, k) == rpos_slot(p, k),
{
    lemma_slot_period(p, k);
}

} // verus!
