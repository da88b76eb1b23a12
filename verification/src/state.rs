//! What a table holds, as a mathematical value.

use crate::borrowed::answers;
use crate::entry::TableEntry;
use crate::guard::{ReadGuard, WriteGuard};
use crate::hash_metadata::{metadata, EMPTY_SLOT, TOMBSTONE_SLOT};
use crate::probe::probe_slot;
use std::borrow::Borrow;
use vstd::arithmetic::power2::is_pow2;
use vstd::laws_eq::obeys_eq;
use vstd::prelude::*;
use vstd::std_specs::cmp::PartialEqSpec;

verus! {

/// Equality of keys can be relied on: comparing two keys gives what its
/// specification says, and that is an equivalence relation.
pub open spec fn key_model<K: PartialEq>() -> bool {
    &&& obeys_eq::<K>()
    &&& forall|key: K| #[trigger] key.eq_spec(&key)
}

/// The number of elements that satisfy `p`.
pub open spec fn count_where<A>(s: Seq<A>, p: spec_fn(A) -> bool) -> nat
    decreases s.len(),
{
    if s.len() == 0 {
        0
    } else {
        count_where(s.drop_last(), p) + if p(s.last()) {
            1nat
        } else {
            0nat
        }
    }
}

/// The slots of a table: a metadata byte and at most one entry each. Apart
/// from the slots, entries that were removed wait for their last readers,
/// each under the number of the slot that it was in.
#[verifier::ext_equal]
pub struct TableView<K, V> {
    pub meta: Seq<u8>,
    pub entries: Seq<Option<Box<TableEntry<K, V>>>>,
    pub waiting: Seq<Option<Box<TableEntry<K, V>>>>,
}

impl<K, V> TableView<K, V> {
    /// The number of slots.
    pub open spec fn slots(self) -> nat {
        self.meta.len()
    }

    /// The entry in a slot.
    pub open spec fn entry(self, i: int) -> TableEntry<K, V> {
        *self.entries[i]->0
    }

    /// The slot holds an entry.
    pub open spec fn live(self, i: int) -> bool {
        self.entries[i] is Some
    }

    /// The number of entries in the slots.
    pub open spec fn len(self) -> nat {
        count_where(self.entries, |entry: Option<Box<TableEntry<K, V>>>| entry is Some)
    }

    /// The number of removed entries that wait for their readers.
    pub open spec fn waiting_len(self) -> nat {
        count_where(self.waiting, |entry: Option<Box<TableEntry<K, V>>>| entry is Some)
    }

    /// The number of slots that were never used.
    pub open spec fn unused(self) -> nat {
        count_where(self.meta, |byte: u8| byte == EMPTY_SLOT)
    }

    /// The slot can take a new entry: it holds none, and none that was in it
    /// waits for its readers.
    pub open spec fn usable(self, i: int) -> bool {
        self.entries[i] is None && self.waiting[i] is None
    }

    /// Which slots can take a new entry.
    pub open spec fn usable_slots(self) -> Seq<bool> {
        Seq::new(self.slots(), |i: int| self.usable(i))
    }

    /// The number of slots that can take a new entry.
    pub open spec fn room(self) -> nat {
        count_where(self.usable_slots(), |usable: bool| usable)
    }

    /// None of the first `n` slots that are tried for this hash was left unused.
    pub open spec fn path_used(self, h1: usize, n: nat) -> bool {
        forall|m: nat|
            m < n ==> self.meta[#[trigger] probe_slot(h1 as int, m, self.slots() as int)]
                != EMPTY_SLOT
    }

    /// None of the first `n` slots that are tried for this hash can take a new entry.
    pub open spec fn path_taken(self, h1: usize, n: nat) -> bool {
        forall|m: nat|
            m < n ==> !self.usable(#[trigger] probe_slot(h1 as int, m, self.slots() as int))
    }

    /// Slot `i` is the `n`-th one tried for this hash, with no unused slot before it.
    pub open spec fn reached(self, h1: usize, n: nat, i: int) -> bool {
        &&& n < self.slots()
        &&& probe_slot(h1 as int, n, self.slots() as int) == i
        &&& self.path_used(h1, n)
    }

    /// Slot `i`, the `n`-th one tried for this hash, is the one that a new
    /// entry goes into: the first unused slot on the way or, if no slot is
    /// unused, the first one on the way whose entry was removed.
    pub open spec fn offers(self, h1: usize, n: nat, i: int) -> bool {
        &&& self.reached(h1, n, i)
        &&& self.meta[i] == EMPTY_SLOT || self.unused() == 0 && self.path_taken(h1, n)
    }

    /// Slot `i` is the one that a new entry with this hash goes into.
    pub open spec fn vacancy(self, h1: usize, i: int) -> bool {
        &&& 0 <= i < self.slots()
        &&& self.usable(i)
        &&& exists|n: nat| self.offers(h1, n, i)
    }

    /// The metadata byte of a slot agrees with what is in it. A removed entry
    /// is kept only while somebody reads it.
    pub open spec fn slot_wf(self, i: int) -> bool {
        &&& match self.entries[i] {
            None => self.meta[i] == EMPTY_SLOT || self.meta[i] == TOMBSTONE_SLOT,
            Some(e) => e.wf() && self.meta[i] == metadata(e.hash) && self.waiting[i] is None,
        }
        &&& self.waiting[i] matches Some(e) ==> {
            &&& e.wf()
            &&& e.has_readers()
            &&& self.meta[i] == TOMBSTONE_SLOT
        }
    }

    /// The entry that belongs to a slot: the one in it, or the one that was
    /// removed from it and waits for its readers.
    pub open spec fn held(self, i: int) -> Option<Box<TableEntry<K, V>>> {
        if self.entries[i] is Some {
            self.entries[i]
        } else {
            self.waiting[i]
        }
    }

    /// The side of an entry that a guard was made for is there.
    pub open spec fn attached(self, guard: ReadGuard) -> bool {
        &&& 0 <= guard.slot() < self.slots()
        &&& self.held(guard.slot()) matches Some(entry) && entry.side(guard.left()) is Some
    }

    /// The number of readers on one side of the entry that belongs to a slot.
    pub open spec fn readers_on(self, i: int, left: bool) -> int {
        match self.held(i) {
            None => 0,
            Some(entry) => match entry.side(left) {
                None => 0,
                Some(side) => side.readers as int,
            },
        }
    }

    /// A guard that stands for a reader the table knows of.
    pub open spec fn reading(self, guard: ReadGuard) -> bool {
        &&& self.attached(guard)
        &&& self.readers_on(guard.slot(), guard.left()) > 0
    }

    /// The value that a guard reads.
    pub open spec fn value_of(self, guard: ReadGuard) -> V {
        self.held(guard.slot())->0.side(guard.left())->0.target
    }

    /// A guard that holds the write side of an entry.
    pub open spec fn writing(self, guard: WriteGuard<V>) -> bool {
        &&& 0 <= guard.slot() < self.slots()
        &&& self.live(guard.slot())
        &&& !self.entry(guard.slot()).unlocked()
        &&& guard.side().readers == 0
    }

    /// The table with the entry in slot `i` exchanged.
    pub open spec fn with_entry(self, i: int, entry: TableEntry<K, V>) -> Self {
        TableView { entries: self.entries.update(i, Some(Box::new(entry))), ..self }
    }

    /// The table with a new entry in slot `i`.
    pub open spec fn with_added(self, i: int, entry: TableEntry<K, V>) -> Self {
        TableView {
            meta: self.meta.update(i, metadata(entry.hash)),
            entries: self.entries.update(i, Some(Box::new(entry))),
            ..self
        }
    }

    /// The table after the removal of the entry in slot `i`. The slot holds
    /// no entry any more; an entry with readers waits for them elsewhere.
    pub open spec fn with_removed(self, i: int) -> Self {
        TableView {
            meta: self.meta.update(i, TOMBSTONE_SLOT),
            entries: self.entries.update(i, None),
            waiting: self.waiting.update(
                i,
                if self.entry(i).has_readers() {
                    self.entries[i]
                } else {
                    None
                },
            ),
        }
    }

    /// The table after a reader has left one side of the entry that belongs
    /// to slot `i`. The last reader of a removed entry takes it along.
    pub open spec fn with_reader_gone(self, i: int, left: bool) -> Self {
        let entry = self.held(i)->0.without_reader(left);
        if self.entries[i] is Some {
            self.with_entry(i, entry)
        } else {
            TableView {
                waiting: self.waiting.update(
                    i,
                    if entry.has_readers() {
                        Some(Box::new(entry))
                    } else {
                        None
                    },
                ),
                ..self
            }
        }
    }

    /// What letting a reader in on the entry in slot `i` does: the entry
    /// counts one more reader, which the guard stands for.
    pub open spec fn read_at(self, post: Self, i: int, guard: ReadGuard) -> bool {
        &&& guard.slot() == i
        &&& guard.left() == self.entry(i).read_left
        &&& post == self.with_entry(i, self.entry(i).with_reader())
    }

    /// What taking up writing on the entry in slot `i` does: its write side,
    /// which nobody else works on, moves into the guard.
    pub open spec fn written_at(self, post: Self, i: int, guard: WriteGuard<V>) -> bool {
        &&& self.entry(i).writable()
        &&& guard.slot() == i
        &&& Some(guard.side()) == self.entry(i).write()
        &&& post == self.with_entry(i, self.entry(i).locked())
    }

    /// What removing the entry in slot `i`, which nobody writes, does: it
    /// leaves the slot, and a clone of the value in its write side comes back.
    pub open spec fn removed_at(self, post: Self, i: int, value: V) -> bool where V: Clone {
        &&& self.entry(i).unlocked()
        &&& cloned(self.entry(i).write()->0.target, value)
        &&& post == self.with_removed(i)
    }
}

impl<K: PartialEq, V> TableView<K, V> {
    /// Slot `i` holds the entry for this hash and key.
    pub open spec fn holds(self, i: int, h1: usize, key: K) -> bool {
        &&& 0 <= i < self.slots()
        &&& self.live(i)
        &&& self.entry(i).hash == h1
        &&& self.entry(i).key.eq_spec(&key)
    }

    /// There is an entry for this hash and key.
    pub open spec fn contains(self, h1: usize, key: K) -> bool {
        exists|i: int| self.holds(i, h1, key)
    }

    /// The slot of the entry for this hash and key.
    pub open spec fn slot_of(self, h1: usize, key: K) -> int {
        choose|i: int| self.holds(i, h1, key)
    }

    /// The entry for this hash and key.
    pub open spec fn lookup(self, h1: usize, key: K) -> Option<TableEntry<K, V>> {
        if self.contains(h1, key) {
            Some(self.entry(self.slot_of(h1, key)))
        } else {
            None
        }
    }

    /// Every slot is consistent, every entry is found by probing for its
    /// hash, and no key has two entries.
    pub open spec fn wf(self) -> bool {
        &&& self.entries.len() == self.meta.len()
        &&& self.waiting.len() == self.meta.len()
        &&& is_pow2(self.slots() as int)
        &&& self.slots() <= usize::MAX
        &&& forall|i: int| 0 <= i < self.slots() ==> #[trigger] self.slot_wf(i)
        &&& forall|i: int|
            0 <= i < self.slots() && #[trigger] self.live(i) ==> exists|n: nat|
                self.reached(self.entry(i).hash, n, i)
        &&& forall|i: int, j: int|
            0 <= i < self.slots() && 0 <= j < self.slots() && i != j && #[trigger] self.live(i)
                && #[trigger] self.live(j) && self.entry(i).hash == self.entry(j).hash
                ==> !self.entry(i).key.eq_spec(&self.entry(j).key)
    }

    /// Nothing keeps the entry for a key, if there is one, from being written.
    pub open spec fn write_ready(self, h1: usize, key: K) -> bool {
        self.lookup(h1, key) matches Some(entry) ==> entry.writable()
    }

    /// Nothing keeps the entry for a key, if there is one, from being removed.
    pub open spec fn remove_ready(self, h1: usize, key: K) -> bool {
        self.lookup(h1, key) matches Some(entry) ==> entry.unlocked()
    }

    /// A value can be stored under a key: its entry can be written, or there
    /// is none and there is room for one.
    pub open spec fn insert_ready(self, h1: usize, key: K) -> bool {
        match self.lookup(h1, key) {
            Some(entry) => entry.writable(),
            None => self.room() > 0,
        }
    }

    /// What reading a key does.
    pub open spec fn get_outcome(
        self,
        post: Self,
        h1: usize,
        key: K,
        guard: Option<ReadGuard>,
    ) -> bool {
        match guard {
            None => !self.contains(h1, key) && post == self,
            Some(guard) => self.contains(h1, key) && self.read_at(post, self.slot_of(h1, key), guard),
        }
    }

    /// What taking up writing on a key does.
    pub open spec fn get_mut_outcome(
        self,
        post: Self,
        h1: usize,
        key: K,
        guard: Option<WriteGuard<V>>,
    ) -> bool {
        match guard {
            None => !self.contains(h1, key) && post == self,
            Some(guard) => {
                self.contains(h1, key) && self.written_at(post, self.slot_of(h1, key), guard)
            },
        }
    }

    /// What removing a key does.
    pub open spec fn remove_outcome(self, post: Self, h1: usize, key: K, value: Option<V>) -> bool where
        V: Clone,
     {
        match value {
            None => !self.contains(h1, key) && post == self,
            Some(value) => {
                self.contains(h1, key) && self.removed_at(post, self.slot_of(h1, key), value)
            },
        }
    }

    /// A new entry for a key was put into its place.
    pub open spec fn added(self, post: Self, h1: usize, key: K, value: V) -> bool where V: Clone {
        exists|i: int|
            {
                &&& #[trigger] self.vacancy(h1, i)
                &&& post.entry(i).fresh(key, h1, value)
                &&& post == self.with_added(i, post.entry(i))
            }
    }

    /// What storing a value does: a key that has no entry gets one, and the
    /// entry of a key that has one goes on to the new value. In that case the
    /// value that its write side held before comes back.
    pub open spec fn insert_outcome(
        self,
        post: Self,
        h1: usize,
        key: K,
        value: V,
        old_value: Option<V>,
    ) -> bool where V: Clone {
        match old_value {
            None => !self.contains(h1, key) && self.added(post, h1, key, value),
            Some(old_value) => {
                let i = self.slot_of(h1, key);
                &&& self.contains(h1, key)
                &&& self.entry(i).writable()
                &&& old_value == self.entry(i).write()->0.target
                &&& post == self.with_entry(i, self.entry(i).replaced(value))
            },
        }
    }
}

impl<K, V> TableView<K, V> {
    /// Slot `i` holds an entry with this hash whose key, when borrowed, may
    /// compare equal to `name`.
    pub open spec fn named<Q: PartialEq + ?Sized>(self, i: int, h1: usize, name: &Q) -> bool where
        K: Borrow<Q>,
     {
        &&& 0 <= i < self.slots()
        &&& self.live(i)
        &&& self.entry(i).hash == h1
        &&& answers(self.entry(i).key, name, true)
    }

    /// Every key with this hash may, when borrowed, compare unequal to `name`.
    pub open spec fn lacks<Q: PartialEq + ?Sized>(self, h1: usize, name: &Q) -> bool where
        K: Borrow<Q>,
     {
        forall|i: int|
            0 <= i < self.slots() && #[trigger] self.live(i) && self.entry(i).hash == h1
                ==> answers(self.entry(i).key, name, false)
    }

    /// No entry that `name` may pick out is kept from being written.
    pub open spec fn write_ready_as<Q: PartialEq + ?Sized>(self, h1: usize, name: &Q) -> bool where
        K: Borrow<Q>,
     {
        forall|i: int| #[trigger] self.named(i, h1, name) ==> self.entry(i).writable()
    }

    /// No entry that `name` may pick out is kept from being removed.
    pub open spec fn remove_ready_as<Q: PartialEq + ?Sized>(self, h1: usize, name: &Q) -> bool where
        K: Borrow<Q>,
     {
        forall|i: int| #[trigger] self.named(i, h1, name) ==> self.entry(i).unlocked()
    }

    /// What reading by a borrowed key does.
    pub open spec fn get_outcome_as<Q: PartialEq + ?Sized>(
        self,
        post: Self,
        h1: usize,
        name: &Q,
        guard: Option<ReadGuard>,
    ) -> bool where K: Borrow<Q> {
        match guard {
            None => self.lacks(h1, name) && post == self,
            Some(guard) => {
                self.named(guard.slot(), h1, name) && self.read_at(post, guard.slot(), guard)
            },
        }
    }

    /// What taking up writing by a borrowed key does.
    pub open spec fn get_mut_outcome_as<Q: PartialEq + ?Sized>(
        self,
        post: Self,
        h1: usize,
        name: &Q,
        guard: Option<WriteGuard<V>>,
    ) -> bool where K: Borrow<Q> {
        match guard {
            None => self.lacks(h1, name) && post == self,
            Some(guard) => {
                self.named(guard.slot(), h1, name) && self.written_at(post, guard.slot(), guard)
            },
        }
    }

    /// What removing by a borrowed key does.
    pub open spec fn remove_outcome_as<Q: PartialEq + ?Sized>(
        self,
        post: Self,
        h1: usize,
        name: &Q,
        value: Option<V>,
    ) -> bool where K: Borrow<Q>, V: Clone {
        match value {
            None => self.lacks(h1, name) && post == self,
            Some(value) => exists|i: int|
                #[trigger] self.named(i, h1, name) && self.removed_at(post, i, value),
        }
    }
}

} // verus!
