//! What the table keeps of a hash.
//!
//! The low bits of a hash select the slot where probing starts. Its top seven
//! bits go into a byte per slot, so that most slots can be passed over without
//! a look at the key in them.

use vstd::arithmetic::power2::{lemma2_to64, lemma2_to64_rest, pow2};
use vstd::prelude::*;

verus! {

/// The slot was never used.
pub const EMPTY_SLOT: u8 = 0;

/// The entry in the slot was removed.
pub const TOMBSTONE_SLOT: u8 = 0x80;

/// The part of a hash that an entry keeps: as many low bits as an index has.
pub open spec fn index_part(hash: u64) -> usize {
    (hash as int % (usize::MAX + 1)) as usize
}

/// The byte that stands for a hash: its top seven bits plus one, since zero
/// is taken by the empty slot.
pub open spec fn metadata(h1: usize) -> u8 {
    (h1 as nat / pow2((usize::BITS - 7) as nat) + 1) as u8
}

/// The byte for a hash is never that of an empty slot. Its largest value is
/// that of a removed entry.
pub proof fn lemma_metadata_range(h1: usize)
    ensures
        EMPTY_SLOT < metadata(h1) <= TOMBSTONE_SLOT,
        metadata(h1) as int == h1 as nat / pow2((usize::BITS - 7) as nat) + 1,
{
    lemma2_to64();
    lemma2_to64_rest();
    if usize::BITS == 64 {
        assert(pow2(57) == 0x200000000000000);
        assert(h1 as int / 0x200000000000000 <= 127);
    } else {
        assert(pow2(25) == 0x2000000);
        assert(h1 as int / 0x2000000 <= 127);
    }
}

proof fn lemma_index_part(hash: u64)
    ensures
        usize::BITS == 32 ==> index_part(hash) == hash % 0x1_0000_0000,
        usize::BITS == 64 ==> index_part(hash) == hash,
{
    if usize::BITS == 32 {
        assert(hash as int % (usize::MAX + 1) == hash as int % 0x1_0000_0000);
    } else {
        assert(hash as int % (usize::MAX + 1) == hash as int % 0x1_0000_0000_0000_0000);
    }
}

/// The part of the hash that selects slots.
pub fn h1(hash: u64) -> (h1: usize)
    ensures
        h1 == index_part(hash),
{
    proof {
        lemma_index_part(hash);
        if usize::BITS == 32 {
            assert(usize::BITS == 32 ==> (hash as usize) as u64 == hash % 0x1_0000_0000) by (bit_vector);
        }
    }
    #[verifier::truncate]
    (hash as usize)
}

/// The byte of hash metadata, used for cheap searches.
pub fn h2(hash: u64) -> (h2: u8)
    ensures
        h2 == metadata(index_part(hash)),
        EMPTY_SLOT < h2 <= TOMBSTONE_SLOT,
{
    let shift: u32 = usize::BITS - 7;
    let top7: u64 = (hash >> shift) & 0x7f;
    proof {
        lemma_metadata_range(index_part(hash));
        lemma_index_part(hash);
        lemma2_to64();
        lemma2_to64_rest();
        if usize::BITS == 64 {
            assert((hash >> 57u32) & 0x7f == hash / 0x200000000000000) by (bit_vector);
            assert(pow2(57) == 0x200000000000000);
        } else {
            assert((hash >> 25u32) & 0x7f == (hash % 0x1_0000_0000) / 0x2000000) by (bit_vector);
            assert(pow2(25) == 0x2000000);
        }
    }
    top7 as u8 + 1
}

/// The index part of a hash is what is left when the bits are dropped that an
/// index does not have. The metadata byte is one more than the top seven bits
/// of the index part.
pub proof fn law_hash_parts(hash: u64, index: usize, byte: u8)
    requires
        call_ensures(h1, (hash,), index),
        call_ensures(h2, (hash,), byte),
    ensures
        index as int == hash as int % (usize::MAX + 1),
        byte == metadata(index),
        usize::BITS == 64 ==> byte == index as int / 0x200_0000_0000_0000 + 1,
        usize::BITS == 32 ==> byte == index as int / 0x200_0000 + 1,
        1 <= byte <= 128,
{
    law_metadata(index);
    lemma_index_part(hash);
    vstd::arithmetic::div_mod::lemma_mod_bound(hash as int, usize::MAX + 1);
}

/// The metadata byte of an index hash is one more than its top seven bits.
pub proof fn law_metadata(h1: usize)
    ensures
        usize::BITS == 64 ==> metadata(h1) as int == h1 as int / 0x200_0000_0000_0000 + 1,
        usize::BITS == 32 ==> metadata(h1) as int == h1 as int / 0x200_0000 + 1,
{
    lemma_metadata_range(h1);
    lemma2_to64();
    lemma2_to64_rest();
}

} // verus!
