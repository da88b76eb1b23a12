//! How large a table is made, and how much memory it takes.

use vstd::arithmetic::div_mod::{lemma_fundamental_div_mod, lemma_mod_bound};
use vstd::arithmetic::power2::{
    is_pow2, is_pow2_equiv, lemma2_to64, lemma2_to64_rest, lemma_pow2, pow2,
};
use vstd::prelude::*;

verus! {

/// The smallest power of two that is not less than `n`.
pub open spec fn least_pow2(n: nat) -> nat
    decreases n,
{
    if n <= 1 {
        1
    } else {
        2 * least_pow2(((n + 1) / 2) as nat)
    }
}

/// The number of entries that a table is made for.
pub open spec fn effective_capacity(capacity: usize) -> int {
    if capacity == 0 {
        16
    } else {
        capacity as int
    }
}

/// The number of slots of a table made for `capacity` entries: a third more
/// than that, rounded up to a power of two.
pub open spec fn slot_count(capacity: usize) -> nat {
    least_pow2((effective_capacity(capacity) * 8 / 6) as nat)
}

/// The size of an index or a pointer in bytes.
pub open spec fn word() -> int {
    usize::BITS as int / 8
}

/// Where the pointers of a table with `slots` slots start: behind a header of
/// two words and one byte per slot, at a multiple of the word size.
pub open spec fn entries_offset(slots: int) -> int {
    (2 * word() + slots + word() - 1) / word() * word()
}

/// The number of bytes that a table with `slots` slots takes.
pub open spec fn table_bytes(slots: int) -> int {
    entries_offset(slots) + word() * slots
}

/// The alignment of the memory of a table: that of its header and of its
/// pointers, which is one word. The bytes in between can stand anywhere.
pub open spec fn table_align() -> int {
    word()
}

/// A table for `capacity` entries can be addressed.
pub open spec fn fits(capacity: usize) -> bool {
    &&& capacity * 8 <= usize::MAX
    &&& table_bytes(slot_count(capacity) as int) <= isize::MAX
}

/// `least_pow2` is a power of two, reaches its argument, and is the first to do so.
pub proof fn lemma_least_pow2(n: nat)
    ensures
        is_pow2(least_pow2(n) as int),
        least_pow2(n) >= n,
        forall|p: int| #[trigger] is_pow2(p) && p >= n ==> least_pow2(n) <= p,
    decreases n,
{
    reveal(is_pow2);
    if n > 1 {
        let m = ((n + 1) / 2) as nat;
        lemma_least_pow2(m);
        assert(2 * least_pow2(m) / 2 == least_pow2(m));
        assert forall|p: int| #[trigger] is_pow2(p) && p >= n implies least_pow2(n) <= p by {
            assert(is_pow2(p / 2) && p % 2 == 0);
        }
    }
}

/// The number of slots fits into an index if the capacity can be multiplied by eight.
pub proof fn lemma_slot_count_bound(capacity: usize)
    requires
        capacity * 8 <= usize::MAX,
    ensures
        slot_count(capacity) <= usize::MAX,
{
    let top = pow2((usize::BITS - 1) as nat) as int;
    lemma2_to64();
    lemma2_to64_rest();
    lemma_pow2((usize::BITS - 1) as nat);
    is_pow2_equiv(top);
    assert(is_pow2(top));
    lemma_least_pow2((effective_capacity(capacity) * 8 / 6) as nat);
}

/// Rounds up to a power of two.
pub fn next_power_of_two(n: usize) -> (p: usize)
    requires
        least_pow2(n as nat) <= usize::MAX,
    ensures
        p == least_pow2(n as nat),
{
    let mut p: usize = 1;
    reveal(is_pow2);
    proof {
        lemma_least_pow2(n as nat);
    }
    while p < n
        invariant
            is_pow2(p as int),
            1 <= p <= least_pow2(n as nat) <= usize::MAX,
            is_pow2(least_pow2(n as nat) as int),
            least_pow2(n as nat) >= n,
        decreases least_pow2(n as nat) - p,
    {
        proof {
            lemma_pow2_gap(p as int, least_pow2(n as nat) as int);
            assert((2 * p) / 2 == p);
        }
        reveal(is_pow2);
        p = p * 2;
    }
    proof {
        lemma_least_pow2(n as nat);
    }
    p
}

/// Between a power of two and its double lies no other one.
pub proof fn lemma_pow2_gap(p: int, q: int)
    requires
        is_pow2(p),
        is_pow2(q),
        p < q,
    ensures
        2 * p <= q,
    decreases p,
{
    reveal(is_pow2);
    if p > 1 {
        lemma_pow2_gap(p / 2, q / 2);
    }
}

/// The memory of a table with `slots` slots: its size in bytes, and where
/// in it the metadata bytes and the pointers start. There is none if the
/// table is too large to be addressed.
pub fn layout(slots: usize) -> (layout: Option<(usize, usize, usize)>)
    ensures
        layout is Some <==> table_bytes(slots as int) <= isize::MAX,
        layout matches Some((bytes, short_hash, entries)) ==> {
            &&& bytes == table_bytes(slots as int)
            &&& short_hash == 2 * word()
            &&& entries == entries_offset(slots as int)
        },
{
    let word_size: u128 = (usize::BITS / 8) as u128;
    let header: u128 = 2 * word_size;
    assert(word_size == word());
    assert(word_size == 4 || word_size == 8);
    let words: u128 = (header + slots as u128 + word_size - 1) / word_size;
    let entries: u128 = words * word_size;
    let pointers: u128 = word_size * (slots as u128);
    let bytes: u128 = entries + pointers;
    if bytes <= isize::MAX as u128 {
        Some((bytes as usize, header as usize, entries as usize))
    } else {
        None
    }
}

/// The alignment in bytes of the memory that `layout` describes, whatever the
/// number of slots.
pub fn layout_align() -> (align: usize)
    ensures
        align == table_align(),
        align == word(),
        is_pow2(align as int),
{
    let align: usize = (usize::BITS / 8) as usize;
    assert(align == 4 || align == 8);
    proof {
        reveal_with_fuel(is_pow2, 4);
    }
    align
}

/// The header and the pointers of a table stand at multiples of its alignment,
/// and its size is one, so that tables can stand side by side.
pub proof fn law_layout_is_aligned(slots: nat)
    ensures
        (2 * word()) % table_align() == 0,
        entries_offset(slots as int) % table_align() == 0,
        table_bytes(slots as int) % table_align() == 0,
        entries_offset(slots as int) >= 2 * word() + slots,
{
    assert(word() == 4 || word() == 8);
}

/// Tells whether a table for `capacity` entries can be made.
pub fn capacity_fits(capacity: usize) -> (b: bool)
    ensures
        b == fits(capacity),
{
    let wanted: usize = if capacity == 0 {
        16
    } else {
        capacity
    };
    match wanted.checked_mul(8) {
        None => false,
        Some(eighths) => {
            let n: usize = eighths / 6;
            proof {
                lemma_slot_count_bound(capacity);
            }
            layout(next_power_of_two(n)).is_some()
        },
    }
}

/// The number of slots is the first power of two that is not less than four
/// thirds of the capacity, where a capacity of zero counts as sixteen.
pub proof fn law_slot_count(capacity: usize)
    ensures
        is_pow2(slot_count(capacity) as int),
        capacity > 0 ==> capacity * 8 / 6 <= slot_count(capacity),
        capacity > 0 && slot_count(capacity) > 1 ==> slot_count(capacity) < 2 * (capacity * 8 / 6),
        capacity == 0 ==> slot_count(capacity) == 32,
        slot_count(capacity) >= capacity,
{
    let n = (effective_capacity(capacity) * 8 / 6) as nat;
    lemma_least_pow2(n);
    reveal(is_pow2);
    if capacity == 0 {
        reveal_with_fuel(least_pow2, 7);
    } else if slot_count(capacity) > 1 {
        let half = slot_count(capacity) as int / 2;
        assert(is_pow2(half));
        assert(half < n);
    }
}

/// A table can be made exactly if eight times its capacity is an index and its
/// header, its bytes and its pointers fit into what can be addressed.
pub proof fn law_capacity_fits(capacity: usize, b: bool)
    requires
        call_ensures(capacity_fits, (capacity,), b),
    ensures
        b == fits(capacity),
        b <==> {
            let w = usize::BITS as int / 8;
            let slots = slot_count(capacity) as int;
            &&& capacity * 8 <= usize::MAX
            &&& (2 * w + slots + w - 1) / w * w + w * slots <= isize::MAX
        },
{
}

/// Rounding down to a multiple stays within reach.
proof fn lemma_round_down(x: int, w: int)
    requires
        w > 0,
    ensures
        x - w < x / w * w <= x,
{
    lemma_fundamental_div_mod(x, w);
    lemma_mod_bound(x, w);
    assert(w * (x / w) == x / w * w) by (nonlinear_arith);
}

/// The bytes of a table start behind two words. Its pointers start at the
/// first multiple of a word behind the bytes, and the table ends with them.
pub proof fn law_layout(slots: usize, layout: Option<(usize, usize, usize)>)
    requires
        call_ensures(self::layout, (slots,), layout),
    ensures
        ({
            let w = usize::BITS as int / 8;
            match layout {
                Some((bytes, short_hash, entries)) => {
                    &&& short_hash == 2 * w
                    &&& entries as int % w == 0
                    &&& 2 * w + slots <= entries < 2 * w + slots + w
                    &&& bytes == entries + w * slots
                    &&& bytes <= isize::MAX
                },
                None => (2 * w + slots + w - 1) / w * w + w * slots > isize::MAX,
            }
        }),
{
    law_layout_is_aligned(slots as nat);
    if word() == 4 {
        assert((2 * word() + slots + word() - 1) / word() == (slots + 11) / 4);
        assert(word() * slots == 4 * slots);
        assert(entries_offset(slots as int) == (slots + 11) / 4 * 4);
        lemma_round_down(slots + 11, 4);
        assert(2 * word() + slots + word() == slots + 12);
    } else {
        assert(word() == 8);
        assert((2 * word() + slots + word() - 1) / word() == (slots + 23) / 8);
        assert(word() * slots == 8 * slots);
        assert(entries_offset(slots as int) == (slots + 23) / 8 * 8);
        lemma_round_down(slots + 23, 8);
        assert(2 * word() + slots + word() == slots + 24);
    }
}

} // verus!
