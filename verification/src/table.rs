//! The hash table behind the map.

use crate::borrowed::{answers, is_named};
use crate::capacity::{
    fits, lemma_least_pow2, lemma_pow2_gap, lemma_slot_count_bound, next_power_of_two, slot_count,
};
use crate::entry::{TableEntry, TrackingEntry};
use crate::guard::{ReadGuard, WriteGuard};
use crate::hash_metadata::{
    h1, h2, lemma_metadata_range, metadata, EMPTY_SLOT, TOMBSTONE_SLOT,
};
use crate::hasher::{hash_key, hashes_to};
use crate::invariants::lemma_count_uniform;
use crate::probe::{is_limit, limit, probe_slot, Probe};
use crate::state::{key_model, TableView};
use std::borrow::Borrow;
use std::hash::{BuildHasher, Hash};
use vstd::arithmetic::power2::{is_pow2, is_pow2_equiv, lemma2_to64, lemma_pow2, pow2};
use vstd::prelude::*;
use vstd::std_specs::cmp::PartialEqSpec;

verus! {

/// The slots of a table, and the removed entries that are still being read.
pub struct RawTable<K, V> {
    mask: usize,
    probe_limit: usize,
    short_hash: Vec<u8>,
    entries: Vec<Option<Box<TableEntry<K, V>>>>,
    waiting: Vec<Option<Box<TableEntry<K, V>>>>,
}

impl<K, V> View for RawTable<K, V> {
    type V = TableView<K, V>;

    closed spec fn view(&self) -> TableView<K, V> {
        TableView { meta: self.short_hash@, entries: self.entries@, waiting: self.waiting@ }
    }
}

impl<K, V> RawTable<K, V> {
    /// The mask that reduces a hash to a slot.
    pub closed spec fn mask(self) -> usize {
        self.mask
    }

    /// The number of probes after which the table counts as crowded.
    pub closed spec fn probe_limit(self) -> usize {
        self.probe_limit
    }

    /// The mask belongs to the number of slots.
    pub open spec fn sized(self) -> bool {
        &&& self@.slots() == self.mask() + 1
        &&& self@.entries.len() == self@.slots()
        &&& self@.waiting.len() == self@.slots()
        &&& is_limit(self.mask(), self.probe_limit())
    }

    /// Reads the metadata byte of a slot.
    pub fn short_hash(&self, slot: usize) -> (byte: u8)
        requires
            slot < self@.slots(),
        ensures
            byte == self@.meta[slot as int],
    {
        self.short_hash[slot]
    }

    /// Writes the metadata byte of a slot.
    pub fn store_short_hash(&mut self, slot: usize, h2: u8)
        requires
            slot < old(self)@.slots(),
        ensures
            final(self)@ == (TableView { meta: old(self)@.meta.update(slot as int, h2), ..old(self)@ }),
            final(self).mask() == old(self).mask(),
            final(self).probe_limit() == old(self).probe_limit(),
    {
        self.short_hash[slot] = h2;
    }

    /// The entry that belongs to a slot, whether it is in it or was removed from it.
    fn held(&self, slot: usize) -> (entry: &Option<Box<TableEntry<K, V>>>)
        requires
            self.sized(),
            slot < self@.slots(),
        ensures
            *entry == self@.held(slot as int),
    {
        if self.entries[slot].is_some() {
            &self.entries[slot]
        } else {
            &self.waiting[slot]
        }
    }
}

/// A table of entries with the hash function that places them.
pub struct DentTable<K, V, S> {
    len: usize,
    capacity: usize,
    hasher: S,
    inner: RawTable<K, V>,
}

impl<K, V, S> View for DentTable<K, V, S> {
    type V = TableView<K, V>;

    closed spec fn view(&self) -> TableView<K, V> {
        self.inner@
    }
}

impl<K, V, S> DentTable<K, V, S> {
    /// The hash function.
    pub closed spec fn hasher(self) -> S {
        self.hasher
    }

    /// The capacity that the table was asked for.
    pub closed spec fn capacity(self) -> usize {
        self.capacity
    }

    /// The entry counter and the mask agree with the slots.
    pub closed spec fn counted(self) -> bool {
        self.inner.sized() && self.len == self@.len()
    }
}

impl<K: PartialEq, V, S> DentTable<K, V, S> {
    /// The table is consistent.
    pub open spec fn wf(self) -> bool {
        &&& key_model::<K>()
        &&& self@.wf()
        &&& self.counted()
    }
}

impl<K, V, S> DentTable<K, V, S> {
    /// Makes a table of `capacity` unused slots.
    pub fn allocate(capacity: usize) -> (table: RawTable<K, V>)
        requires
            is_pow2(capacity as int),
        ensures
            table.sized(),
            table@.slots() == capacity,
            forall|i: int| 0 <= i < capacity ==> #[trigger] table@.meta[i] == EMPTY_SLOT,
            forall|i: int| 0 <= i < capacity ==> #[trigger] table@.entries[i] is None,
            forall|i: int| 0 <= i < capacity ==> #[trigger] table@.waiting[i] is None,
    {
        reveal(is_pow2);
        let mask: usize = capacity - 1;
        let mut short_hash: Vec<u8> = Vec::with_capacity(capacity);
        let mut entries: Vec<Option<Box<TableEntry<K, V>>>> = Vec::with_capacity(capacity);
        let mut waiting: Vec<Option<Box<TableEntry<K, V>>>> = Vec::with_capacity(capacity);
        for i in 0..capacity
            invariant
                short_hash.len() == i,
                entries.len() == i,
                waiting.len() == i,
                forall|j: int| 0 <= j < i ==> #[trigger] short_hash[j] == EMPTY_SLOT,
                forall|j: int| 0 <= j < i ==> #[trigger] entries[j] is None,
                forall|j: int| 0 <= j < i ==> #[trigger] waiting[j] is None,
        {
            short_hash.push(EMPTY_SLOT);
            entries.push(None);
            waiting.push(None);
        }
        RawTable { mask, probe_limit: limit(mask), short_hash, entries, waiting }
    }

    /// Frees all entries of a table, whether in the map or only being read.
    pub fn deallocate(table: &mut RawTable<K, V>)
        requires
            old(table).sized(),
        ensures
            final(table).sized(),
            final(table)@.meta == old(table)@.meta,
            forall|i: int|
                0 <= i < final(table)@.slots() ==> #[trigger] final(table)@.entries[i] is None,
            forall|i: int|
                0 <= i < final(table)@.slots() ==> #[trigger] final(table)@.waiting[i] is None,
    {
        let capacity: usize = table.entries.len();
        for i in 0..capacity
            invariant
                table.sized(),
                table@.meta == old(table)@.meta,
                capacity == table.entries.len(),
                forall|j: int| 0 <= j < i ==> #[trigger] table@.entries[j] is None,
                forall|j: int| 0 <= j < i ==> #[trigger] table@.waiting[j] is None,
        {
            let entry = table.entries[i].take();
            TableEntry::free_entry(entry);
            let removed = table.waiting[i].take();
            TableEntry::free_entry(removed);
        }
    }

    /// Makes an empty table for `capacity` entries.
    pub fn new(capacity: usize, hasher: S) -> (table: DentTable<K, V, S>) where K: PartialEq
        requires
            fits(capacity),
        ensures
            key_model::<K>() ==> table.wf(),
            table.hasher() == hasher,
            table.capacity() == capacity,
            table@.slots() == slot_count(capacity),
            table@.unused() == slot_count(capacity),
            table@.room() == slot_count(capacity),
            table@.len() == 0,
            forall|i: int| 0 <= i < table@.slots() ==> #[trigger] table@.entries[i] is None,
            forall|i: int| 0 <= i < table@.slots() ==> #[trigger] table@.waiting[i] is None,
    {
        let mut cap: usize = capacity;
        if cap == 0 {
            cap = 16;
        }
        proof {
            lemma_slot_count_bound(capacity);
            lemma_least_pow2((cap * 8 / 6) as nat);
        }
        let slots: usize = next_power_of_two(cap * 8 / 6);
        let inner = Self::allocate(slots);
        proof {
            lemma_count_uniform(
                inner@.entries,
                false,
                |entry: Option<Box<TableEntry<K, V>>>| entry is Some,
            );
            lemma_count_uniform(inner@.meta, true, |byte: u8| byte == EMPTY_SLOT);
            assert forall|i: int| 0 <= i < inner@.slots() implies #[trigger] inner@.usable_slots()[i] by {
                assert(inner@.entries[i] is None && inner@.waiting[i] is None);
            }
            lemma_count_uniform(inner@.usable_slots(), true, |usable: bool| usable);
            assert forall|i: int| 0 <= i < inner@.slots() implies #[trigger] inner@.slot_wf(i) by {
                assert(inner@.entries[i] is None && inner@.waiting[i] is None);
            }
            assert forall|i: int| 0 <= i < inner@.slots() implies !#[trigger] inner@.live(i) by {
                assert(inner@.entries[i] is None);
            }
        }
        DentTable { len: 0, capacity, hasher, inner }
    }

    /// The number of entries.
    pub fn len(&self) -> (len: usize) where K: PartialEq
        requires
            self.wf(),
        ensures
            len == self@.len(),
    {
        self.len
    }

    /// The two parts of the hash of a key that the table works with.
    pub fn hash<Q: Hash + ?Sized>(&self, key: &Q) -> (parts: (usize, u8)) where S: BuildHasher
        ensures
            hashes_to(self.hasher(), key, parts.0),
            parts.1 == metadata(parts.0),
    {
        let hash: u64 = hash_key(&self.hasher, key);
        (h1(hash), h2(hash))
    }

    /// The slots of the table.
    pub fn root(&self) -> (table: &RawTable<K, V>)
        ensures
            table@ == self@,
            self.counted() ==> table.sized(),
    {
        &self.inner
    }

    /// Gives the table up for its slots.
    pub fn into_raw(self) -> (table: RawTable<K, V>)
        ensures
            table@ == self@,
            self.counted() ==> table.sized(),
    {
        self.inner
    }

    /// What is in a slot.
    pub fn get_entry(&self, i: usize) -> (entry: &Option<Box<TableEntry<K, V>>>)
        requires
            i < self@.entries.len(),
        ensures
            *entry == self@.entries[i as int],
    {
        &self.inner.entries[i]
    }

    /// The mask that reduces a hash to a slot.
    pub fn mask(table: &RawTable<K, V>) -> (mask: usize)
        ensures
            mask == table.mask(),
    {
        table.mask
    }

    /// The value that a guard reads.
    pub fn read(&self, guard: &ReadGuard) -> (value: &V)
        requires
            self.counted(),
            self@.attached(*guard),
        ensures
            *value == self@.value_of(*guard),
    {
        let entry = self.inner.held(guard.get_slot()).as_ref().unwrap();
        if guard.get_left() {
            &entry.left.as_ref().unwrap().target
        } else {
            &entry.right.as_ref().unwrap().target
        }
    }

    /// Tells whether the side that a guard was made for is there.
    pub fn is_attached(&self, guard: &ReadGuard) -> (b: bool)
        requires
            self.counted(),
        ensures
            b == self@.attached(*guard),
    {
        let slot: usize = guard.get_slot();
        if slot > self.inner.mask {
            return false;
        }
        match self.inner.held(slot) {
            None => false,
            Some(entry) => if guard.get_left() {
                entry.left.is_some()
            } else {
                entry.right.is_some()
            },
        }
    }

    /// Tells whether a guard holds the write side of an entry of the table.
    pub fn is_writing(&self, guard: &WriteGuard<V>) -> (b: bool)
        requires
            self.counted(),
        ensures
            b == self@.writing(*guard),
    {
        let slot: usize = guard.get_slot();
        if slot > self.inner.mask || guard.get_readers() != 0 {
            return false;
        }
        match &self.inner.entries[slot] {
            None => false,
            Some(entry) => !entry.is_unlocked(),
        }
    }
}

impl<K: PartialEq, V> TableView<K, V> {
    /// Where probing for a hash comes upon an unused slot, or has seen all
    /// slots, it has seen every entry with that hash.
    proof fn lemma_seen_all(self, h1: usize, n: nat, j: int)
        requires
            self.wf(),
            n == self.slots() || n < self.slots() && self.meta[probe_slot(
                h1 as int,
                n,
                self.slots() as int,
            )] == EMPTY_SLOT,
            0 <= j < self.slots(),
            self.live(j),
            self.entry(j).hash == h1,
        ensures
            exists|m: nat| m < n && #[trigger] probe_slot(h1 as int, m, self.slots() as int) == j,
    {
        let m = choose|m: nat| self.reached(h1, m, j);
        assert(self.slot_wf(j));
        lemma_metadata_range(h1);
        assert(probe_slot(h1 as int, m, self.slots() as int) == j);
        if m > n {
            assert(self.meta[probe_slot(h1 as int, n, self.slots() as int)] != EMPTY_SLOT);
        }
    }
}

/// A mask can be doubled without overflow.
proof fn lemma_double_mask(mask: usize)
    requires
        mask < usize::MAX,
        is_pow2(mask + 1),
    ensures
        2 * mask <= usize::MAX,
{
    lemma2_to64();
    lemma_pow2(usize::BITS as nat);
    is_pow2_equiv(pow2(usize::BITS as nat) as int);
    lemma_pow2_gap(mask + 1, pow2(usize::BITS as nat) as int);
}

/// Where probing for a key ends.
enum Location {
    /// At the entry for the key.
    Found(usize),
    /// At the place for a new entry; the key has none.
    Vacant(usize),
    /// After all slots; the key has no entry and there is no place for one.
    Full,
}

impl<K, V> TableView<K, V> {
    /// The test may accept the key of the entry in slot `i`, which has this hash.
    spec fn accepted<F: Fn(&K) -> bool>(self, i: int, h1: usize, same: F) -> bool {
        &&& 0 <= i < self.slots()
        &&& self.live(i)
        &&& self.entry(i).hash == h1
        &&& call_ensures(same, (&self.entry(i).key,), true)
    }

    /// The test may refuse the key of the entry in slot `i`, if there is one with this hash.
    spec fn refused<F: Fn(&K) -> bool>(self, i: int, h1: usize, same: F) -> bool {
        self.live(i) && self.entry(i).hash == h1 ==> call_ensures(
            same,
            (&self.entry(i).key,),
            false,
        )
    }
}

impl<K: PartialEq, V> RawTable<K, V> {
    /// Probes for an entry whose key passes a test.
    fn locate<F: Fn(&K) -> bool>(&self, h1: usize, h2: u8, same: F) -> (location: Location)
        requires
            self@.wf(),
            self.sized(),
            h2 == metadata(h1),
            forall|key: &K| #[trigger] call_requires(same, (key,)),
        ensures
            match location {
                Location::Found(i) => self@.accepted(i as int, h1, same),
                Location::Vacant(i) => self@.vacancy(h1, i as int),
                Location::Full => self@.room() == 0,
            },
            location is Found || forall|j: int|
                0 <= j < self@.slots() ==> #[trigger] self@.refused(j, h1, same),
    {
        let mask: usize = self.mask;
        proof {
            lemma_metadata_range(h1);
            lemma_double_mask(mask);
        }
        let mut probe = Probe::start(h1, mask);
        let mut spare: Option<usize> = None;
        let ghost mut spare_len: nat = 0;
        loop
            invariant
                self@.wf(),
                self.sized(),
                mask == self.mask(),
                h2 == metadata(h1),
                EMPTY_SLOT < h2,
                forall|key: &K| #[trigger] call_requires(same, (key,)),
                2 * mask <= usize::MAX,
                probe.len <= mask,
                probe.i <= mask,
                probe.i == probe_slot(h1 as int, probe.len as nat, self@.slots() as int),
                self@.path_used(h1, probe.len as nat),
                forall|m: nat|
                    m < probe.len ==> self@.refused(
                        #[trigger] probe_slot(h1 as int, m, self@.slots() as int),
                        h1,
                        same,
                    ),
                match spare {
                    None => self@.path_taken(h1, probe.len as nat),
                    Some(i) => {
                        &&& i <= mask
                        &&& self@.usable(i as int)
                        &&& self@.path_taken(h1, spare_len)
                        &&& self@.reached(h1, spare_len, i as int)
                    },
                },
            decreases mask - probe.len,
        {
            let short_hash: u8 = self.short_hash(probe.i);
            assert(self@.slot_wf(probe.i as int));
            if short_hash == EMPTY_SLOT {
                proof {
                    self@.lemma_empty_slot(probe.i as int);
                    assert(self@.offers(h1, probe.len as nat, probe.i as int));
                    assert forall|j: int| 0 <= j < self@.slots() implies #[trigger] self@.refused(
                        j,
                        h1,
                        same,
                    ) by {
                        if self@.live(j) && self@.entry(j).hash == h1 {
                            self@.lemma_seen_all(h1, probe.len as nat, j);
                        }
                    }
                }
                return Location::Vacant(probe.i);
            }
            match &self.entries[probe.i] {
                Some(entry) => {
                    if short_hash == h2 && same(&entry.key) && entry.hash == h1 {
                        return Location::Found(probe.i);
                    }
                },
                None => {
                    if spare.is_none() && self.waiting[probe.i].is_none() {
                        proof {
                            spare_len = probe.len as nat;
                        }
                        spare = Some(probe.i);
                    }
                },
            }
            assert(self@.refused(probe.i as int, h1, same));
            if probe.len == mask {
                proof {
                    self@.lemma_all_used(h1);
                    assert forall|j: int| 0 <= j < self@.slots() implies #[trigger] self@.refused(
                        j,
                        h1,
                        same,
                    ) by {
                        if self@.live(j) && self@.entry(j).hash == h1 {
                            self@.lemma_seen_all(h1, self@.slots(), j);
                        }
                    }
                }
                match spare {
                    Some(slot) => {
                        assert(self@.offers(h1, spare_len, slot as int));
                        return Location::Vacant(slot);
                    },
                    None => {
                        proof {
                            self@.lemma_no_room(h1);
                        }
                        return Location::Full;
                    },
                }
            }
            probe.next(mask);
        }
    }

    /// Probes for a key.
    fn locate_key(&self, h1: usize, h2: u8, key: &K) -> (location: Location)
        requires
            key_model::<K>(),
            self@.wf(),
            self.sized(),
            h2 == metadata(h1),
        ensures
            match location {
                Location::Found(i) => self@.holds(i as int, h1, *key),
                Location::Vacant(i) => !self@.contains(h1, *key) && self@.vacancy(h1, i as int),
                Location::Full => !self@.contains(h1, *key) && self@.room() == 0,
            },
    {
        let same = |k: &K| -> (b: bool)
            ensures
                b == k.eq_spec(key),
            { *k == *key };
        let location = self.locate(h1, h2, same);
        assert(location is Found || forall|j: int| !self@.holds(j, h1, *key)) by {
            if !(location is Found) {
                assert forall|j: int| !self@.holds(j, h1, *key) by {
                    assert(0 <= j < self@.slots() ==> self@.refused(j, h1, same));
                }
            }
        }
        location
    }

    /// The slot of the entry for a key.
    pub fn find(&self, h1: usize, h2: u8, key: &K) -> (slot: Option<usize>)
        requires
            key_model::<K>(),
            self@.wf(),
            self.sized(),
            h2 == metadata(h1),
        ensures
            match slot {
                Some(i) => self@.holds(i as int, h1, *key),
                None => !self@.contains(h1, *key),
            },
    {
        match self.locate_key(h1, h2, key) {
            Location::Found(slot) => Some(slot),
            Location::Vacant(_) => None,
            Location::Full => None,
        }
    }

    /// The slot of the entry for a key that is given in borrowed form.
    pub fn find_borrowed<Q: PartialEq + ?Sized>(&self, h1: usize, h2: u8, name: &Q) -> (slot:
        Option<usize>) where K: Borrow<Q>
        requires
            self@.wf(),
            self.sized(),
            h2 == metadata(h1),
        ensures
            match slot {
                Some(i) => self@.named(i as int, h1, name),
                None => self@.lacks(h1, name),
            },
    {
        let same = |k: &K| -> (b: bool)
            ensures
                answers(*k, name, b),
            { is_named(k, name) };
        match self.locate(h1, h2, same) {
            Location::Found(slot) => Some(slot),
            Location::Vacant(_) | Location::Full => {
                assert forall|j: int|
                    0 <= j < self@.slots() && #[trigger] self@.live(j) && self@.entry(j).hash
                        == h1 implies answers(self@.entry(j).key, name, false) by {
                    assert(self@.refused(j, h1, same));
                }
                None
            },
        }
    }

    /// Tells whether the entry in a slot can be written right now.
    pub fn is_writable(&self, slot: usize) -> (b: bool)
        requires
            self.sized(),
            slot < self@.slots(),
            self@.live(slot as int),
        ensures
            b == self@.entry(slot as int).writable(),
    {
        match &self.entries[slot] {
            Some(entry) => entry.is_writable(),
            None => false,
        }
    }

    /// Tells whether the entry in a slot can be removed right now.
    pub fn is_unlocked(&self, slot: usize) -> (b: bool)
        requires
            self.sized(),
            slot < self@.slots(),
            self@.live(slot as int),
        ensures
            b == self@.entry(slot as int).unlocked(),
    {
        match &self.entries[slot] {
            Some(entry) => entry.is_unlocked(),
            None => false,
        }
    }
}

impl<K: PartialEq, V, S> DentTable<K, V, S> {
    /// Lets a reader in on the entry in a slot.
    pub fn read_entry(&mut self, slot: usize) -> (guard: ReadGuard)
        requires
            old(self).wf(),
            slot < old(self)@.slots(),
            old(self)@.live(slot as int),
        ensures
            final(self).wf(),
            final(self).hasher() == old(self).hasher(),
            final(self).capacity() == old(self).capacity(),
            old(self)@.read_at(final(self)@, slot as int, guard),
    {
        proof {
            assert(self@.slot_wf(slot as int));
            self@.lemma_with_entry(slot as int, self@.entry(slot as int).with_reader());
        }
        let left = match &mut self.inner.entries[slot] {
            Some(entry) => entry.acquire_read(),
            None => false,
        };
        assert(self@ =~= old(self)@.with_entry(
            slot as int,
            old(self)@.entry(slot as int).with_reader(),
        ));
        ReadGuard::new(slot, left)
    }

    /// Takes up writing on the entry in a slot.
    pub fn write_entry(&mut self, slot: usize) -> (guard: WriteGuard<V>)
        requires
            old(self).wf(),
            slot < old(self)@.slots(),
            old(self)@.live(slot as int),
            old(self)@.entry(slot as int).writable(),
        ensures
            final(self).wf(),
            final(self).hasher() == old(self).hasher(),
            final(self).capacity() == old(self).capacity(),
            old(self)@.written_at(final(self)@, slot as int, guard),
    {
        proof {
            assert(self@.slot_wf(slot as int));
            self@.lemma_with_entry(slot as int, self@.entry(slot as int).locked());
        }
        let side = match &mut self.inner.entries[slot] {
            Some(entry) => entry.acquire_write(),
            None => None,
        };
        assert(self@ =~= old(self)@.with_entry(slot as int, old(self)@.entry(slot as int).locked()));
        WriteGuard::new(side.unwrap(), slot)
    }

    /// Reads a key: lets a reader in on its entry.
    pub fn get(&mut self, h1: usize, h2: u8, key: &K) -> (guard: Option<ReadGuard>)
        requires
            old(self).wf(),
            h2 == metadata(h1),
        ensures
            final(self).wf(),
            final(self).hasher() == old(self).hasher(),
            final(self).capacity() == old(self).capacity(),
            old(self)@.get_outcome(final(self)@, h1, *key, guard),
    {
        match self.inner.find(h1, h2, key) {
            None => None,
            Some(slot) => {
                proof {
                    self@.lemma_lookup(slot as int, h1, *key);
                }
                Some(self.read_entry(slot))
            },
        }
    }

    /// Reads a key that is given in borrowed form.
    pub fn get_borrowed<Q: PartialEq + ?Sized>(&mut self, h1: usize, h2: u8, name: &Q) -> (guard:
        Option<ReadGuard>) where K: Borrow<Q>
        requires
            old(self).wf(),
            h2 == metadata(h1),
        ensures
            final(self).wf(),
            final(self).hasher() == old(self).hasher(),
            final(self).capacity() == old(self).capacity(),
            old(self)@.get_outcome_as(final(self)@, h1, name, guard),
    {
        match self.inner.find_borrowed(h1, h2, name) {
            None => None,
            Some(slot) => Some(self.read_entry(slot)),
        }
    }

    /// Takes up writing on the entry for a key.
    pub fn get_mut(&mut self, h1: usize, h2: u8, key: &K) -> (guard: Option<WriteGuard<V>>)
        requires
            old(self).wf(),
            h2 == metadata(h1),
            old(self)@.write_ready(h1, *key),
        ensures
            final(self).wf(),
            final(self).hasher() == old(self).hasher(),
            final(self).capacity() == old(self).capacity(),
            old(self)@.get_mut_outcome(final(self)@, h1, *key, guard),
    {
        match self.inner.find(h1, h2, key) {
            None => None,
            Some(slot) => {
                proof {
                    self@.lemma_lookup(slot as int, h1, *key);
                }
                Some(self.write_entry(slot))
            },
        }
    }

    /// Takes up writing on the entry for a key that is given in borrowed form.
    pub fn get_mut_borrowed<Q: PartialEq + ?Sized>(&mut self, h1: usize, h2: u8, name: &Q) -> (guard:
        Option<WriteGuard<V>>) where K: Borrow<Q>
        requires
            old(self).wf(),
            h2 == metadata(h1),
            old(self)@.write_ready_as(h1, name),
        ensures
            final(self).wf(),
            final(self).hasher() == old(self).hasher(),
            final(self).capacity() == old(self).capacity(),
            old(self)@.get_mut_outcome_as(final(self)@, h1, name, guard),
    {
        match self.inner.find_borrowed(h1, h2, name) {
            None => None,
            Some(slot) => Some(self.write_entry(slot)),
        }
    }

    /// Gives a reader up. The last reader of a removed entry frees it.
    pub fn release_read(&mut self, guard: ReadGuard)
        requires
            old(self).wf(),
            old(self)@.attached(guard),
        ensures
            final(self).wf(),
            final(self).hasher() == old(self).hasher(),
            final(self).capacity() == old(self).capacity(),
            final(self)@ == old(self)@.with_reader_gone(guard.slot(), guard.left()),
    {
        let slot: usize = guard.get_slot();
        let left = guard.get_left();
        proof {
            self@.lemma_with_reader_gone(slot as int, left);
        }
        if self.inner.entries[slot].is_some() {
            match &mut self.inner.entries[slot] {
                Some(entry) => entry.release_read(left),
                None => {},
            }
        } else {
            let last = match &mut self.inner.waiting[slot] {
                Some(entry) => {
                    entry.release_read(left);
                    !entry.is_read()
                },
                None => false,
            };
            if last {
                let entry = self.inner.waiting[slot].take();
                TableEntry::free_entry(entry);
            }
        }
        assert(self@ =~= old(self)@.with_reader_gone(slot as int, left));
    }

    /// Ends writing: from now on readers get what the writer left behind.
    pub fn release_write(&mut self, guard: WriteGuard<V>)
        requires
            old(self).wf(),
            old(self)@.writing(guard),
        ensures
            final(self).wf(),
            final(self).hasher() == old(self).hasher(),
            final(self).capacity() == old(self).capacity(),
            final(self)@ == old(self)@.with_entry(
                guard.slot(),
                old(self)@.entry(guard.slot()).published(guard.side()),
            ),
    {
        let slot: usize = guard.get_slot();
        let side = guard.into_side();
        proof {
            self@.lemma_with_entry(slot as int, self@.entry(slot as int).published(side));
        }
        match &mut self.inner.entries[slot] {
            Some(entry) => entry.publish(side),
            None => {},
        }
        assert(self@ =~= old(self)@.with_entry(
            slot as int,
            old(self)@.entry(slot as int).published(side),
        ));
    }
}

/// What came of storing a value.
pub enum InsertResult<V> {
    /// The key got a new entry.
    Inserted,
    /// The key had an entry; this is what was in its write side.
    Replaced(V),
    /// The key had an entry, which was not to be replaced.
    Error,
}

/// What came of putting a new entry into a slot.
pub enum InsertNew<K, V> {
    /// It is in the slot.
    Inserted,
    /// The slot holds an entry; these are the key and the value of the new one.
    Found { k: K, v: V },
}

/// What came of replacing the value of the entry in a slot.
pub enum InsertReplace<V> {
    /// This is what was in its write side.
    Replaced { value: V },
    /// The entry is not that of the key; this is the value that was to be stored.
    Failed { v: V },
    /// The value was not to be replaced.
    Found,
}

impl<K: PartialEq, V: Clone> RawTable<K, V> {
    /// Puts a new entry into a slot, unless the slot holds one already. Then
    /// the key and a clone of the value come back.
    pub fn insert_new(&mut self, slot: usize, key: K, value: V, h1: usize, h2: u8) -> (result: InsertNew<K, V>)
        requires
            old(self).sized(),
            slot < old(self)@.slots(),
            h2 == metadata(h1),
        ensures
            final(self).sized(),
            match result {
                InsertNew::Inserted => {
                    &&& old(self)@.entries[slot as int] is None
                    &&& final(self)@.entry(slot as int).fresh(key, h1, value)
                    &&& final(self)@ == old(self)@.with_added(slot as int, final(self)@.entry(slot as int))
                },
                InsertNew::Found { k, v } => {
                    &&& old(self)@.entries[slot as int] is Some
                    &&& k == key
                    &&& cloned(value, v)
                    &&& final(self)@ == old(self)@
                },
            },
    {
        let entry = TableEntry::new(key, h1, value);
        if self.entries[slot].is_none() {
            self.entries[slot] = Some(entry);
            self.store_short_hash(slot, h2);
            InsertNew::Inserted
        } else {
            let (k, v) = TableEntry::reclaim_entry(entry);
            InsertNew::Found { k, v }
        }
    }

    /// Replaces the value of the entry in a slot, provided that it belongs to the key.
    pub fn insert_replace(&mut self, slot: usize, key: &K, value: V, replace: bool, h1: usize) -> (result:
        InsertReplace<V>)
        requires
            key_model::<K>(),
            old(self).sized(),
            old(self)@.wf(),
            slot < old(self)@.slots(),
            replace && old(self)@.holds(slot as int, h1, *key) ==> old(self)@.entry(
                slot as int,
            ).writable(),
        ensures
            final(self).sized(),
            match result {
                InsertReplace::Failed { v } => {
                    &&& !old(self)@.holds(slot as int, h1, *key)
                    &&& v == value
                    &&& final(self)@ == old(self)@
                },
                InsertReplace::Found => {
                    &&& old(self)@.holds(slot as int, h1, *key)
                    &&& !replace
                    &&& final(self)@ == old(self)@
                },
                InsertReplace::Replaced { value: old_value } => {
                    let entry = old(self)@.entry(slot as int);
                    &&& old(self)@.holds(slot as int, h1, *key)
                    &&& replace
                    &&& old_value == entry.write()->0.target
                    &&& final(self)@ == old(self)@.with_entry(slot as int, entry.replaced(value))
                },
            },
    {
        match &mut self.entries[slot] {
            None => InsertReplace::Failed { v: value },
            Some(entry) => {
                if entry.key != *key || entry.hash != h1 {
                    return InsertReplace::Failed { v: value };
                }
                if !replace {
                    return InsertReplace::Found;
                }
                match entry.acquire_write() {
                    None => InsertReplace::Failed { v: value },
                    Some(side) => {
                        let old_value = side.target;
                        entry.publish(TrackingEntry { target: value, readers: side.readers });
                        InsertReplace::Replaced { value: old_value }
                    },
                }
            },
        }
    }
}

impl<K: PartialEq, V: Clone, S> DentTable<K, V, S> {
    /// Stores a value under a key with the hash `h1`, whose metadata byte is
    /// `h2`. An entry that is there goes on to the new value in any case.
    pub fn insert(&mut self, h1: usize, h2: u8, key: K, value: V, _replace: bool) -> (result:
        InsertResult<V>)
        requires
            old(self).wf(),
            h2 == metadata(h1),
            old(self)@.insert_ready(h1, key),
        ensures
            final(self).wf(),
            final(self).hasher() == old(self).hasher(),
            final(self).capacity() == old(self).capacity(),
            match result {
                InsertResult::Inserted => old(self)@.insert_outcome(
                    final(self)@,
                    h1,
                    key,
                    value,
                    None,
                ),
                InsertResult::Replaced(old_value) => old(self)@.insert_outcome(
                    final(self)@,
                    h1,
                    key,
                    value,
                    Some(old_value),
                ),
                InsertResult::Error => false,
            },
    {
        let ghost pre = self@;
        match self.inner.locate_key(h1, h2, &key) {
            Location::Found(slot) => {
                proof {
                    pre.lemma_lookup(slot as int, h1, key);
                    assert(pre.slot_wf(slot as int));
                    pre.lemma_with_entry(slot as int, pre.entry(slot as int).replaced(value));
                }
                match self.inner.insert_replace(slot, &key, value, true, h1) {
                    InsertReplace::Replaced { value: old_value } => InsertResult::Replaced(old_value),
                    InsertReplace::Failed { .. } => unreached(),
                    InsertReplace::Found => InsertResult::Error,
                }
            },
            Location::Vacant(slot) => {
                match self.inner.insert_new(slot, key, value, h1, h2) {
                    InsertNew::Inserted => {
                        proof {
                            let entry = self.inner@.entry(slot as int);
                            pre.lemma_with_added(slot as int, entry);
                            self.inner@.lemma_len_bound();
                        }
                        self.len = self.len + 1;
                        InsertResult::Inserted
                    },
                    InsertNew::Found { .. } => unreached(),
                }
            },
            Location::Full => unreached(),
        }
    }
}

impl<K, V: Clone> RawTable<K, V> {
    /// Takes the entry out of a slot and gives a clone of the value in its
    /// write side. The entry itself is freed unless somebody reads it; then
    /// it is kept apart until the last reader leaves.
    fn take_entry(&mut self, slot: usize) -> (value: V)
        requires
            old(self).sized(),
            slot < old(self)@.slots(),
            old(self)@.live(slot as int),
            old(self)@.entry(slot as int).unlocked(),
            old(self)@.waiting[slot as int] is None,
        ensures
            final(self).sized(),
            final(self)@.entries[slot as int] is None,
            cloned(old(self)@.entry(slot as int).write()->0.target, value),
            final(self)@ == (TableView {
                meta: old(self)@.meta,
                ..old(self)@.with_removed(slot as int)
            }),
    {
        let ghost pre = self@;
        let mut entry = self.entries[slot].take().unwrap();
        let side = entry.acquire_write().unwrap();
        let value = side.target.clone();
        entry.restore_write(side);
        assert(*entry == pre.entry(slot as int));
        if entry.is_read() {
            self.waiting[slot] = Some(entry);
        } else {
            TableEntry::free_entry(Some(entry));
        }
        assert(self@ =~= (TableView { meta: pre.meta, ..pre.with_removed(slot as int) }));
        value
    }

    /// Removes the entry in a slot, provided that it belongs to the key, and
    /// gives a clone of the value in its write side. A slot that is empty,
    /// that holds another key, or that holds the key under another hash stays
    /// as it is.
    pub fn remove_entry(&mut self, slot: usize, key: &K, h1: usize) -> (value: Option<V>) where
        K: PartialEq,

        requires
            key_model::<K>(),
            old(self).sized(),
            slot < old(self)@.slots(),
            old(self)@.holds(slot as int, h1, *key) ==> old(self)@.entry(slot as int).unlocked()
                && old(self)@.waiting[slot as int] is None,
        ensures
            final(self).sized(),
            value is None <==> !old(self)@.holds(slot as int, h1, *key),
            match value {
                None => final(self)@ == old(self)@,
                Some(value) => {
                    &&& final(self)@.entries[slot as int] is None
                    &&& cloned(old(self)@.entry(slot as int).write()->0.target, value)
                    &&& final(self)@ == (TableView {
                        meta: old(self)@.meta,
                        ..old(self)@.with_removed(slot as int)
                    })
                },
            },
    {
        match &self.entries[slot] {
            None => {
                return None;
            },
            Some(entry) => {
                if entry.key != *key || entry.hash != h1 {
                    return None;
                }
            },
        }
        Some(self.take_entry(slot))
    }
}

impl<K: PartialEq, V: Clone, S> DentTable<K, V, S> {
    /// Removes the entry in a slot. The slot is marked and can be used again.
    pub fn remove_at(&mut self, slot: usize) -> (value: V)
        requires
            old(self).wf(),
            slot < old(self)@.slots(),
            old(self)@.live(slot as int),
            old(self)@.entry(slot as int).unlocked(),
        ensures
            final(self).wf(),
            final(self).hasher() == old(self).hasher(),
            final(self).capacity() == old(self).capacity(),
            final(self)@.entries[slot as int] is None,
            old(self)@.removed_at(final(self)@, slot as int, value),
    {
        proof {
            assert(self@.slot_wf(slot as int));
            self@.lemma_with_removed(slot as int);
        }
        let value = self.inner.take_entry(slot);
        self.len = self.len - 1;
        self.inner.store_short_hash(slot, TOMBSTONE_SLOT);
        assert(self@ =~= old(self)@.with_removed(slot as int));
        value
    }

    /// Removes the entry for a key.
    pub fn remove(&mut self, h1: usize, h2: u8, key: &K) -> (value: Option<V>)
        requires
            old(self).wf(),
            h2 == metadata(h1),
            old(self)@.remove_ready(h1, *key),
        ensures
            final(self).wf(),
            final(self).hasher() == old(self).hasher(),
            final(self).capacity() == old(self).capacity(),
            old(self)@.remove_outcome(final(self)@, h1, *key, value),
    {
        match self.inner.find(h1, h2, key) {
            None => None,
            Some(slot) => {
                proof {
                    self@.lemma_lookup(slot as int, h1, *key);
                    assert(self@.slot_wf(slot as int));
                    self@.lemma_with_removed(slot as int);
                }
                let value = self.inner.remove_entry(slot, key, h1);
                self.len = self.len - 1;
                self.inner.store_short_hash(slot, TOMBSTONE_SLOT);
                assert(self@ =~= old(self)@.with_removed(slot as int));
                value
            },
        }
    }

    /// Removes the entry for a key that is given in borrowed form.
    pub fn remove_borrowed<Q: PartialEq + ?Sized>(&mut self, h1: usize, h2: u8, name: &Q) -> (value:
        Option<V>) where K: Borrow<Q>
        requires
            old(self).wf(),
            h2 == metadata(h1),
            old(self)@.remove_ready_as(h1, name),
        ensures
            final(self).wf(),
            final(self).hasher() == old(self).hasher(),
            final(self).capacity() == old(self).capacity(),
            old(self)@.remove_outcome_as(final(self)@, h1, name, value),
    {
        match self.inner.find_borrowed(h1, h2, name) {
            None => None,
            Some(slot) => Some(self.remove_at(slot)),
        }
    }
}

impl<K: PartialEq, V, S> DentTable<K, V, S> {
    /// Tells whether a value can be stored under a key right now.
    pub fn can_insert(&self, h1: usize, h2: u8, key: &K) -> (b: bool)
        requires
            self.wf(),
            h2 == metadata(h1),
        ensures
            b == self@.insert_ready(h1, *key),
    {
        match self.inner.locate_key(h1, h2, key) {
            Location::Found(slot) => {
                proof {
                    self@.lemma_lookup(slot as int, h1, *key);
                }
                self.inner.is_writable(slot)
            },
            Location::Vacant(_) => {
                proof {
                    self@.lemma_room();
                }
                true
            },
            Location::Full => false,
        }
    }

    /// Tells whether the entry for a key, if there is one, can be written right now.
    pub fn can_write(&self, h1: usize, h2: u8, key: &K) -> (b: bool)
        requires
            self.wf(),
            h2 == metadata(h1),
        ensures
            b == self@.write_ready(h1, *key),
    {
        match self.inner.find(h1, h2, key) {
            Some(slot) => {
                proof {
                    self@.lemma_lookup(slot as int, h1, *key);
                }
                self.inner.is_writable(slot)
            },
            None => true,
        }
    }

    /// Tells whether the entry for a key, if there is one, can be removed right now.
    pub fn can_remove(&self, h1: usize, h2: u8, key: &K) -> (b: bool)
        requires
            self.wf(),
            h2 == metadata(h1),
        ensures
            b == self@.remove_ready(h1, *key),
    {
        match self.inner.find(h1, h2, key) {
            Some(slot) => {
                proof {
                    self@.lemma_lookup(slot as int, h1, *key);
                }
                self.inner.is_unlocked(slot)
            },
            None => true,
        }
    }
}

} // verus!
