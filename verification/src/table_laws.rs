//! What the functions of the table and of its entries do, told slot by slot
//! and field by field.

use crate::borrowed::answers;
use crate::capacity::slot_count;
use crate::entry::{TableEntry, TrackingEntry};
use crate::guard::{ReadGuard, WriteGuard};
use crate::hash_metadata::{law_metadata, metadata};
use crate::hasher::{hash_one_gives, law_index_hash};
use crate::invariants::lemma_count_all;
use crate::probe::probe_slot;
use crate::state::{key_model, TableView};
use crate::table::{DentTable, InsertNew, InsertReplace, InsertResult, RawTable};
use std::borrow::Borrow;
use std::hash::{BuildHasher, Hash};
use vstd::laws_eq::obeys_eq;
use vstd::prelude::*;
use vstd::std_specs::cmp::PartialEqSpec;

verus! {

/// The slot holds an entry with this hash and key.
pub open spec fn is_for<K: PartialEq, V>(
    slot: Option<Box<TableEntry<K, V>>>,
    h1: usize,
    key: K,
) -> bool {
    slot is Some && slot->0.hash == h1 && slot->0.key.eq_spec(&key)
}

/// The slot holds an entry with this hash whose borrowed key may equal `name`.
pub open spec fn may_be_for<K: Borrow<Q>, Q: PartialEq + ?Sized, V>(
    slot: Option<Box<TableEntry<K, V>>>,
    h1: usize,
    name: &Q,
) -> bool {
    slot is Some && slot->0.hash == h1 && answers(slot->0.key, name, true)
}

/// The side of the entry in a slot that readers look at.
pub open spec fn side_to_read<K, V>(slot: Option<Box<TableEntry<K, V>>>) -> Option<
    TrackingEntry<V>,
> {
    if slot->0.read_left {
        slot->0.left
    } else {
        slot->0.right
    }
}

/// The other side of the entry in a slot.
pub open spec fn side_to_write<K, V>(slot: Option<Box<TableEntry<K, V>>>) -> Option<
    TrackingEntry<V>,
> {
    if slot->0.read_left {
        slot->0.right
    } else {
        slot->0.left
    }
}

/// The entry in a slot has its write side, and nobody reads that.
pub open spec fn can_be_written<K, V>(slot: Option<Box<TableEntry<K, V>>>) -> bool {
    side_to_write(slot) is Some && side_to_write(slot)->0.readers == 0
}

impl<K: PartialEq, V> TableView<K, V> {
    /// The entry that is looked up is the only one for its hash and key.
    pub proof fn law_lookup(self, h1: usize, key: K)
        requires
            key_model::<K>(),
            self.wf(),
        ensures
            match self.lookup(h1, key) {
                None => forall|i: int|
                    0 <= i < self.meta.len() ==> !is_for(#[trigger] self.entries[i], h1, key),
                Some(entry) => {
                    let i = self.slot_of(h1, key);
                    &&& 0 <= i < self.meta.len()
                    &&& is_for(self.entries[i], h1, key)
                    &&& *self.entries[i]->0 == entry
                    &&& forall|j: int|
                        0 <= j < self.meta.len() && is_for(#[trigger] self.entries[j], h1, key)
                            ==> j == i
                },
            },
    {
        if self.contains(h1, key) {
            self.lemma_lookup(self.slot_of(h1, key), h1, key);
        }
        assert forall|j: int|
            0 <= j < self.meta.len() && is_for(
                #[trigger] self.entries[j],
                h1,
                key,
            ) implies self.holds(j, h1, key) by {}
    }

    /// A value can be stored under a key exactly if the write side of its
    /// entry is there and nobody reads it, or the key has no entry and there
    /// is a slot without one, neither in it nor waiting for readers.
    pub proof fn law_insert_ready(self, h1: usize, key: K)
        requires
            key_model::<K>(),
            self.wf(),
        ensures
            self.insert_ready(h1, key) <==> if exists|i: int|
                0 <= i < self.meta.len() && is_for(#[trigger] self.entries[i], h1, key) {
                forall|i: int|
                    0 <= i < self.meta.len() && is_for(#[trigger] self.entries[i], h1, key)
                        ==> can_be_written(self.entries[i])
            } else {
                exists|i: int|
                    0 <= i < self.meta.len() && #[trigger] self.entries[i] is None
                        && self.waiting[i] is None
            },
    {
        self.law_lookup(h1, key);
        self.lemma_room();
        if self.contains(h1, key) {
            assert(is_for(self.entries[self.slot_of(h1, key)], h1, key));
        } else {
            if self.room() > 0 {
                let i = choose|i: int| 0 <= i < self.slots() && #[trigger] self.usable(i);
                assert(self.entries[i] is None);
            }
            assert forall|i: int|
                0 <= i < self.meta.len() && #[trigger] self.entries[i] is None
                    && self.waiting[i] is None implies self.usable(i) by {}
        }
    }

    /// A key can be written exactly if the write side of its entry, where it
    /// has one, is there and nobody reads it.
    pub proof fn law_write_ready(self, h1: usize, key: K)
        requires
            key_model::<K>(),
            self.wf(),
        ensures
            self.write_ready(h1, key) <==> forall|i: int|
                0 <= i < self.meta.len() && is_for(#[trigger] self.entries[i], h1, key)
                    ==> can_be_written(self.entries[i]),
    {
        self.law_lookup(h1, key);
    }

    /// A key can be removed exactly if the write side of its entry, where it
    /// has one, is there.
    pub proof fn law_remove_ready(self, h1: usize, key: K)
        requires
            key_model::<K>(),
            self.wf(),
        ensures
            self.remove_ready(h1, key) <==> forall|i: int|
                0 <= i < self.meta.len() && is_for(#[trigger] self.entries[i], h1, key)
                    ==> side_to_write(self.entries[i]) is Some,
    {
        self.law_lookup(h1, key);
    }
}

impl<K, V> TableView<K, V> {
    /// A borrowed key can be used for writing exactly if the write side of
    /// every entry that it may pick out is there and nobody reads it.
    pub proof fn law_write_ready_as<Q: PartialEq + ?Sized>(self, h1: usize, name: &Q) where
        K: Borrow<Q>,

        ensures
            self.write_ready_as(h1, name) <==> forall|i: int|
                0 <= i < self.meta.len() && may_be_for(#[trigger] self.entries[i], h1, name)
                    ==> can_be_written(self.entries[i]),
    {
        if self.write_ready_as(h1, name) {
            assert forall|i: int|
                0 <= i < self.meta.len() && may_be_for(
                    #[trigger] self.entries[i],
                    h1,
                    name,
                ) implies can_be_written(self.entries[i]) by {
                assert(self.named(i, h1, name));
            }
        } else {
            let i = choose|i: int|
                #[trigger] self.named(i, h1, name) && !self.entry(i).writable();
            assert(may_be_for(self.entries[i], h1, name));
        }
    }

    /// A borrowed key can be used for removing exactly if the write side of
    /// every entry that it may pick out is there.
    pub proof fn law_remove_ready_as<Q: PartialEq + ?Sized>(self, h1: usize, name: &Q) where
        K: Borrow<Q>,

        ensures
            self.remove_ready_as(h1, name) <==> forall|i: int|
                0 <= i < self.meta.len() && may_be_for(#[trigger] self.entries[i], h1, name)
                    ==> side_to_write(self.entries[i]) is Some,
    {
        if self.remove_ready_as(h1, name) {
            assert forall|i: int|
                0 <= i < self.meta.len() && may_be_for(
                    #[trigger] self.entries[i],
                    h1,
                    name,
                ) implies side_to_write(self.entries[i]) is Some by {
                assert(self.named(i, h1, name));
            }
        } else {
            let i = choose|i: int|
                #[trigger] self.named(i, h1, name) && !self.entry(i).unlocked();
            assert(may_be_for(self.entries[i], h1, name));
        }
    }
}

/// The same entry with one side, and only that, another one.
pub open spec fn differs_in_side<K, V>(
    before: Option<Box<TableEntry<K, V>>>,
    after: Option<Box<TableEntry<K, V>>>,
    left: bool,
) -> bool {
    &&& before is Some && after is Some
    &&& after->0.key == before->0.key
    &&& after->0.hash == before->0.hash
    &&& after->0.read_left == before->0.read_left
    &&& left ==> after->0.right == before->0.right
    &&& !left ==> after->0.left == before->0.left
}

/// The left or the right side of the entry in a slot.
pub open spec fn one_side<K, V>(slot: Option<Box<TableEntry<K, V>>>, left: bool) -> Option<
    TrackingEntry<V>,
> {
    if left {
        slot->0.left
    } else {
        slot->0.right
    }
}

/// One reader more on a side; the count goes around at the end.
pub open spec fn reader_came<V>(
    before: Option<TrackingEntry<V>>,
    after: Option<TrackingEntry<V>>,
) -> bool {
    &&& before is Some && after is Some
    &&& after->0.target == before->0.target
    &&& after->0.readers as int == (before->0.readers + 1) % 0x1_0000
}

/// One reader less on a side; the count goes around at the start.
pub open spec fn reader_left<V>(
    before: Option<TrackingEntry<V>>,
    after: Option<TrackingEntry<V>>,
) -> bool {
    &&& before is Some && after is Some
    &&& after->0.target == before->0.target
    &&& after->0.readers as int == (before->0.readers + 0xffff) % 0x1_0000
}

/// Somebody reads the entry, on whichever side.
pub open spec fn has_any_reader<K, V>(slot: Option<Box<TableEntry<K, V>>>) -> bool {
    ||| slot->0.left is Some && slot->0.left->0.readers > 0
    ||| slot->0.right is Some && slot->0.right->0.readers > 0
}

impl<K, V> TableView<K, V> {
    /// Nothing changed but what is in slot `i`.
    pub open spec fn same_but_slot(self, post: Self, i: int) -> bool {
        &&& 0 <= i < self.meta.len()
        &&& post.meta == self.meta
        &&& post.waiting == self.waiting
        &&& post.entries.len() == self.entries.len()
        &&& forall|j: int|
            0 <= j < self.entries.len() && j != i ==> #[trigger] post.entries[j]
                == self.entries[j]
    }

    /// A reader was let in on the entry in slot `i`.
    pub open spec fn let_in(self, post: Self, i: int, guard: ReadGuard) -> bool {
        let left = self.entries[i]->0.read_left;
        &&& guard.slot() == i
        &&& guard.left() == left
        &&& self.same_but_slot(post, i)
        &&& differs_in_side(self.entries[i], post.entries[i], left)
        &&& reader_came(one_side(self.entries[i], left), one_side(post.entries[i], left))
    }

    /// The write side of the entry in slot `i` went to a writer.
    pub open spec fn handed_out(self, post: Self, i: int, guard: WriteGuard<V>) -> bool {
        let left = !self.entries[i]->0.read_left;
        &&& guard.slot() == i
        &&& one_side(self.entries[i], left) == Some(guard.side())
        &&& guard.side().readers == 0
        &&& self.same_but_slot(post, i)
        &&& differs_in_side(self.entries[i], post.entries[i], left)
        &&& one_side(post.entries[i], left) is None
    }

    proof fn lemma_lacks<Q: PartialEq + ?Sized>(self, h1: usize, name: &Q) where K: Borrow<Q>
        requires
            self.lacks(h1, name),
        ensures
            forall|i: int|
                0 <= i < self.meta.len() && #[trigger] self.entries[i] is Some
                    && self.entries[i]->0.hash == h1 ==> answers(
                    self.entries[i]->0.key,
                    name,
                    false,
                ),
    {
        assert forall|i: int|
            0 <= i < self.meta.len() && #[trigger] self.entries[i] is Some
                && self.entries[i]->0.hash == h1 implies answers(
            self.entries[i]->0.key,
            name,
            false,
        ) by {
            assert(self.live(i));
        }
    }

    /// A reader left the side that it read, of the entry in its slot or of
    /// the one that was removed from it and waits. The last reader of an entry
    /// that waits took it along.
    pub open spec fn given_up(self, post: Self, guard: ReadGuard) -> bool {
        let i = guard.slot();
        let left = guard.left();
        if self.entries[i] is Some {
            &&& self.same_but_slot(post, i)
            &&& differs_in_side(self.entries[i], post.entries[i], left)
            &&& reader_left(one_side(self.entries[i], left), one_side(post.entries[i], left))
        } else {
            let before = self.waiting[i];
            let after = post.waiting[i];
            let other = one_side(before, !left);
            &&& post.meta == self.meta
            &&& post.entries == self.entries
            &&& post.waiting == self.waiting.update(i, after)
            &&& if one_side(before, left)->0.readers == 1 && (other is None || other->0.readers
                == 0) {
                after is None
            } else {
                &&& differs_in_side(before, after, left)
                &&& reader_left(one_side(before, left), one_side(after, left))
            }
        }
    }

    /// What a writer gave back became the side to read, and the side that was
    /// read the one to write.
    pub open spec fn given_back(self, post: Self, guard: WriteGuard<V>) -> bool {
        let before = self.entries[guard.slot()];
        let after = post.entries[guard.slot()];
        &&& self.same_but_slot(post, guard.slot())
        &&& after is Some
        &&& after->0.key == before->0.key
        &&& after->0.hash == before->0.hash
        &&& after->0.read_left == !before->0.read_left
        &&& side_to_read(after) == Some(guard.side())
        &&& side_to_write(after) == side_to_read(before)
    }

    /// The side that a guard was made for is there, in its slot or waiting.
    pub open spec fn has_side_of(self, guard: ReadGuard) -> bool {
        let i = guard.slot();
        let slot = if self.entries[i] is Some {
            self.entries[i]
        } else {
            self.waiting[i]
        };
        0 <= i < self.meta.len() && slot is Some && one_side(slot, guard.left()) is Some
    }

    /// The slot of a guard holds an entry that lacks its write side.
    pub open spec fn lacks_side_of(self, guard: WriteGuard<V>) -> bool {
        let i = guard.slot();
        &&& 0 <= i < self.meta.len()
        &&& self.entries[i] is Some
        &&& side_to_write(self.entries[i]) is None
        &&& guard.side().readers == 0
    }

    /// The entry in slot `i` was taken out of it, and a clone of the value in
    /// its write side handed out. Readers, if there are any, keep the entry.
    pub open spec fn taken_out(self, post: Self, i: int, value: V) -> bool where V: Clone {
        let left = !self.entries[i]->0.read_left;
        &&& one_side(self.entries[i], left) is Some
        &&& cloned(one_side(self.entries[i], left)->0.target, value)
        &&& 0 <= i < self.meta.len()
        &&& post.meta == self.meta.update(i, 0x80)
        &&& post.entries == self.entries.update(i, None)
        &&& has_any_reader(self.entries[i]) ==> post.waiting == self.waiting.update(
            i,
            self.entries[i],
        )
        &&& !has_any_reader(self.entries[i]) ==> post.waiting == self.waiting.update(i, None)
    }
}

/// `can_insert` tells whether a value can be stored, and where it says so the
/// value can be.
pub proof fn law_can_insert<K: PartialEq, V: Clone, S>(
    t: &DentTable<K, V, S>,
    h1: usize,
    h2: u8,
    key: K,
    b: bool,
    m: &mut DentTable<K, V, S>,
    value: V,
)
    requires
        t.wf(),
        call_ensures(DentTable::<K, V, S>::can_insert, (t, h1, h2, &key), b),
        *old(m) == *t,
        h2 == metadata(h1),
    ensures
        b <==> if exists|i: int|
            0 <= i < t@.meta.len() && is_for(#[trigger] t@.entries[i], h1, key) {
            forall|i: int|
                0 <= i < t@.meta.len() && is_for(#[trigger] t@.entries[i], h1, key)
                    ==> can_be_written(t@.entries[i])
        } else {
            exists|i: int|
                0 <= i < t@.meta.len() && #[trigger] t@.entries[i] is None
                    && t@.waiting[i] is None
        },
        b ==> call_requires(DentTable::<K, V, S>::insert, (m, h1, h2, key, value, true)),
{
    t@.law_insert_ready(h1, key);
}

/// `can_write` tells whether a key can be written, and where it says so it can be.
pub proof fn law_can_write<K: PartialEq, V, S>(
    t: &DentTable<K, V, S>,
    h1: usize,
    h2: u8,
    key: K,
    b: bool,
    m: &mut DentTable<K, V, S>,
)
    requires
        t.wf(),
        call_ensures(DentTable::<K, V, S>::can_write, (t, h1, h2, &key), b),
        *old(m) == *t,
        h2 == metadata(h1),
    ensures
        b <==> forall|i: int|
            0 <= i < t@.meta.len() && is_for(#[trigger] t@.entries[i], h1, key) ==> can_be_written(
                t@.entries[i],
            ),
        b ==> call_requires(DentTable::<K, V, S>::get_mut, (m, h1, h2, &key)),
{
    t@.law_write_ready(h1, key);
}

/// `can_remove` tells whether a key can be removed, and where it says so it can be.
pub proof fn law_can_remove<K: PartialEq, V: Clone, S>(
    t: &DentTable<K, V, S>,
    h1: usize,
    h2: u8,
    key: K,
    b: bool,
    m: &mut DentTable<K, V, S>,
)
    requires
        t.wf(),
        call_ensures(DentTable::<K, V, S>::can_remove, (t, h1, h2, &key), b),
        *old(m) == *t,
        h2 == metadata(h1),
    ensures
        b <==> forall|i: int|
            0 <= i < t@.meta.len() && is_for(#[trigger] t@.entries[i], h1, key) ==> side_to_write(
                t@.entries[i],
            ) is Some,
        b ==> call_requires(DentTable::<K, V, S>::remove, (m, h1, h2, &key)),
{
    t@.law_remove_ready(h1, key);
}

/// Reading a key lets a reader in on its entry, or finds that it has none.
pub proof fn law_get<K: PartialEq, V, S>(
    t: &mut DentTable<K, V, S>,
    h1: usize,
    h2: u8,
    key: K,
    guard: Option<ReadGuard>,
)
    requires
        old(t).wf(),
        call_ensures(DentTable::<K, V, S>::get, (t, h1, h2, &key), guard),
    ensures
        final(t).wf(),
        final(t).hasher() == old(t).hasher(),
        final(t).capacity() == old(t).capacity(),
        match guard {
            None => {
                &&& final(t)@ == old(t)@
                &&& forall|i: int|
                    0 <= i < old(t)@.meta.len() ==> !is_for(
                        #[trigger] old(t)@.entries[i],
                        h1,
                        key,
                    )
            },
            Some(reader) => {
                &&& is_for(old(t)@.entries[reader.slot()], h1, key)
                &&& old(t)@.let_in(final(t)@, reader.slot(), reader)
            },
        },
{
    old(t)@.law_lookup(h1, key);
    if old(t)@.contains(h1, key) {
        assert(old(t)@.slot_wf(old(t)@.slot_of(h1, key)));
    }
}

/// Reading by a borrowed key lets a reader in on an entry that it picks out.
pub proof fn law_get_borrowed<K: PartialEq + Borrow<Q>, Q: PartialEq + ?Sized, V, S>(
    t: &mut DentTable<K, V, S>,
    h1: usize,
    h2: u8,
    name: &Q,
    guard: Option<ReadGuard>,
)
    requires
        old(t).wf(),
        call_ensures(DentTable::<K, V, S>::get_borrowed::<Q>, (t, h1, h2, name), guard),
    ensures
        final(t).wf(),
        final(t).hasher() == old(t).hasher(),
        final(t).capacity() == old(t).capacity(),
        match guard {
            None => {
                &&& final(t)@ == old(t)@
                &&& forall|i: int|
                    0 <= i < old(t)@.meta.len() && #[trigger] old(t)@.entries[i] is Some
                        && old(t)@.entries[i]->0.hash == h1 ==> answers(
                        old(t)@.entries[i]->0.key,
                        name,
                        false,
                    )
            },
            Some(reader) => {
                &&& may_be_for(old(t)@.entries[reader.slot()], h1, name)
                &&& old(t)@.let_in(final(t)@, reader.slot(), reader)
            },
        },
{
    if guard is Some {
        assert(old(t)@.slot_wf(guard->0.slot()));
    } else {
        old(t)@.lemma_lacks(h1, name);
    }
}

/// Taking up writing hands the write side of the entry out, or finds that the
/// key has none.
pub proof fn law_get_mut<K: PartialEq, V, S>(
    t: &mut DentTable<K, V, S>,
    h1: usize,
    h2: u8,
    key: K,
    guard: Option<WriteGuard<V>>,
)
    requires
        old(t).wf(),
        call_ensures(DentTable::<K, V, S>::get_mut, (t, h1, h2, &key), guard),
    ensures
        final(t).wf(),
        final(t).hasher() == old(t).hasher(),
        final(t).capacity() == old(t).capacity(),
        match guard {
            None => {
                &&& final(t)@ == old(t)@
                &&& forall|i: int|
                    0 <= i < old(t)@.meta.len() ==> !is_for(
                        #[trigger] old(t)@.entries[i],
                        h1,
                        key,
                    )
            },
            Some(writer) => {
                &&& is_for(old(t)@.entries[writer.slot()], h1, key)
                &&& old(t)@.handed_out(final(t)@, writer.slot(), writer)
            },
        },
{
    old(t)@.law_lookup(h1, key);
    if old(t)@.contains(h1, key) {
        assert(old(t)@.slot_wf(old(t)@.slot_of(h1, key)));
    }
}

/// Taking up writing by a borrowed key hands out the write side of an entry that
/// it picks out.
pub proof fn law_get_mut_borrowed<K: PartialEq + Borrow<Q>, Q: PartialEq + ?Sized, V, S>(
    t: &mut DentTable<K, V, S>,
    h1: usize,
    h2: u8,
    name: &Q,
    guard: Option<WriteGuard<V>>,
)
    requires
        old(t).wf(),
        call_ensures(DentTable::<K, V, S>::get_mut_borrowed::<Q>, (t, h1, h2, name), guard),
    ensures
        final(t).wf(),
        final(t).hasher() == old(t).hasher(),
        final(t).capacity() == old(t).capacity(),
        match guard {
            None => {
                &&& final(t)@ == old(t)@
                &&& forall|i: int|
                    0 <= i < old(t)@.meta.len() && #[trigger] old(t)@.entries[i] is Some
                        && old(t)@.entries[i]->0.hash == h1 ==> answers(
                        old(t)@.entries[i]->0.key,
                        name,
                        false,
                    )
            },
            Some(writer) => {
                &&& may_be_for(old(t)@.entries[writer.slot()], h1, name)
                &&& old(t)@.handed_out(final(t)@, writer.slot(), writer)
            },
        },
{
    if guard is None {
        old(t)@.lemma_lacks(h1, name);
    }
}

/// Removing a key takes its entry out of its slot, or finds that it has none.
pub proof fn law_remove<K: PartialEq, V: Clone, S>(
    t: &mut DentTable<K, V, S>,
    h1: usize,
    h2: u8,
    key: K,
    removed: Option<V>,
)
    requires
        old(t).wf(),
        call_ensures(DentTable::<K, V, S>::remove, (t, h1, h2, &key), removed),
    ensures
        final(t).wf(),
        final(t).hasher() == old(t).hasher(),
        final(t).capacity() == old(t).capacity(),
        match removed {
            None => {
                &&& final(t)@ == old(t)@
                &&& forall|i: int|
                    0 <= i < old(t)@.meta.len() ==> !is_for(
                        #[trigger] old(t)@.entries[i],
                        h1,
                        key,
                    )
            },
            Some(value) => {
                exists|i: int|
                    {
                        &&& 0 <= i < old(t)@.meta.len()
                        &&& is_for(#[trigger] old(t)@.entries[i], h1, key)
                        &&& old(t)@.taken_out(final(t)@, i, value)
                    }
            },
        },
{
    old(t)@.law_lookup(h1, key);
    if old(t)@.contains(h1, key) {
        assert(old(t)@.slot_wf(old(t)@.slot_of(h1, key)));
    }
    if removed is Some {
        assert(old(t)@.taken_out(final(t)@, old(t)@.slot_of(h1, key), removed->0));
    }
}

/// Removing by a borrowed key takes an entry that it picks out out of its slot.
pub proof fn law_remove_borrowed<K: PartialEq + Borrow<Q>, Q: PartialEq + ?Sized, V: Clone, S>(
    t: &mut DentTable<K, V, S>,
    h1: usize,
    h2: u8,
    name: &Q,
    removed: Option<V>,
)
    requires
        old(t).wf(),
        call_ensures(DentTable::<K, V, S>::remove_borrowed::<Q>, (t, h1, h2, name), removed),
    ensures
        final(t).wf(),
        final(t).hasher() == old(t).hasher(),
        final(t).capacity() == old(t).capacity(),
        match removed {
            None => {
                &&& final(t)@ == old(t)@
                &&& forall|i: int|
                    0 <= i < old(t)@.meta.len() && #[trigger] old(t)@.entries[i] is Some
                        && old(t)@.entries[i]->0.hash == h1 ==> answers(
                        old(t)@.entries[i]->0.key,
                        name,
                        false,
                    )
            },
            Some(value) => {
                exists|i: int|
                    {
                        &&& 0 <= i < old(t)@.meta.len()
                        &&& may_be_for(#[trigger] old(t)@.entries[i], h1, name)
                        &&& old(t)@.taken_out(final(t)@, i, value)
                    }
            },
        },
{
    if removed is Some {
        let i = choose|i: int|
            #[trigger] old(t)@.named(i, h1, name) && old(t)@.removed_at(
                final(t)@,
                i,
                removed->0,
            );
        assert(may_be_for(old(t)@.entries[i], h1, name));
        assert(old(t)@.taken_out(final(t)@, i, removed->0));
    } else {
        old(t)@.lemma_lacks(h1, name);
    }
}

/// A reader is let in on the entry in a slot.
pub proof fn law_read_entry<K: PartialEq, V, S>(
    t: &mut DentTable<K, V, S>,
    slot: usize,
    guard: ReadGuard,
)
    requires
        old(t).wf(),
        slot < old(t)@.meta.len(),
        old(t)@.entries[slot as int] is Some,
        call_ensures(DentTable::<K, V, S>::read_entry, (t, slot), guard),
    ensures
        final(t).wf(),
        final(t).hasher() == old(t).hasher(),
        final(t).capacity() == old(t).capacity(),
        old(t)@.let_in(final(t)@, slot as int, guard),
{
    assert(old(t)@.slot_wf(slot as int));
}

/// The write side of the entry in a slot is handed out.
pub proof fn law_write_entry<K: PartialEq, V, S>(
    t: &mut DentTable<K, V, S>,
    slot: usize,
    guard: WriteGuard<V>,
)
    requires
        old(t).wf(),
        slot < old(t)@.meta.len(),
        old(t)@.entries[slot as int] is Some,
        call_ensures(DentTable::<K, V, S>::write_entry, (t, slot), guard),
    ensures
        final(t).wf(),
        final(t).hasher() == old(t).hasher(),
        final(t).capacity() == old(t).capacity(),
        old(t)@.handed_out(final(t)@, slot as int, guard),
{
    assert(old(t)@.slot_wf(slot as int));
}

/// The entry in a slot is taken out of it.
pub proof fn law_remove_at<K: PartialEq, V: Clone, S>(
    t: &mut DentTable<K, V, S>,
    slot: usize,
    value: V,
)
    requires
        old(t).wf(),
        slot < old(t)@.meta.len(),
        old(t)@.entries[slot as int] is Some,
        call_ensures(DentTable::<K, V, S>::remove_at, (t, slot), value),
    ensures
        final(t).wf(),
        final(t).hasher() == old(t).hasher(),
        final(t).capacity() == old(t).capacity(),
        old(t)@.taken_out(final(t)@, slot as int, value),
{
    assert(old(t)@.slot_wf(slot as int));
}

/// Storing a value gives a key that has no entry a new one: in the first unused
/// slot on its way, or in the first slot on its way without an entry where no
/// slot is unused. An entry that is there gets the value to read, keeps what
/// was read to be written, and hands out what was to be written.
pub proof fn law_insert<K: PartialEq, V: Clone, S>(
    t: &mut DentTable<K, V, S>,
    h1: usize,
    h2: u8,
    key: K,
    value: V,
    replace: bool,
    result: InsertResult<V>,
)
    requires
        old(t).wf(),
        call_ensures(DentTable::<K, V, S>::insert, (t, h1, h2, key, value, replace), result),
    ensures
        final(t).wf(),
        final(t).hasher() == old(t).hasher(),
        final(t).capacity() == old(t).capacity(),
        match result {
            InsertResult::Inserted => {
                &&& forall|i: int|
                    0 <= i < old(t)@.meta.len() ==> !is_for(
                        #[trigger] old(t)@.entries[i],
                        h1,
                        key,
                    )
                &&& exists|i: int| old(t)@.put_in(final(t)@, i, h1, key, value)
            },
            InsertResult::Replaced(old_value) => exists|i: int|
                {
                    &&& 0 <= i < old(t)@.meta.len()
                    &&& is_for(#[trigger] old(t)@.entries[i], h1, key)
                    &&& old(t)@.swapped(final(t)@, i, value, old_value)
                },
            InsertResult::Error => false,
        },
{
    old(t)@.law_lookup(h1, key);
    match result {
        InsertResult::Inserted => {
            let i = choose|i: int|
                {
                    &&& #[trigger] old(t)@.vacancy(h1, i)
                    &&& final(t)@.entry(i).fresh(key, h1, value)
                    &&& final(t)@ == old(t)@.with_added(i, final(t)@.entry(i))
                };
            old(t)@.lemma_put_in(final(t)@, i, h1, key, value);
        },
        InsertResult::Replaced(old_value) => {
            let i = old(t)@.slot_of(h1, key);
            assert(old(t)@.slot_wf(i));
            assert(old(t)@.swapped(final(t)@, i, value, old_value));
        },
        InsertResult::Error => {},
    }
}

impl<K, V> TableView<K, V> {
    /// The entry in slot `i` went on to a new value.
    pub open spec fn swapped(self, post: Self, i: int, value: V, old_value: V) -> bool {
        let before = self.entries[i];
        let after = post.entries[i];
        &&& self.same_but_slot(post, i)
        &&& can_be_written(before)
        &&& old_value == side_to_write(before)->0.target
        &&& after is Some
        &&& after->0.key == before->0.key
        &&& after->0.hash == before->0.hash
        &&& after->0.read_left == !before->0.read_left
        &&& side_to_read(after) is Some
        &&& side_to_read(after)->0.target == value
        &&& side_to_read(after)->0.readers == 0
        &&& side_to_write(after) == side_to_read(before)
    }

    /// A new entry was put into slot `i`, which is where it belongs.
    pub open spec fn put_in(self, post: Self, i: int, h1: usize, key: K, value: V) -> bool where
        V: Clone,
     {
        let after = post.entries[i];
        &&& 0 <= i < self.meta.len()
        &&& self.entries[i] is None
        &&& self.waiting[i] is None
        &&& after is Some
        &&& after->0.key == key
        &&& after->0.hash == h1
        &&& side_to_read(after) is Some
        &&& cloned(value, side_to_read(after)->0.target)
        &&& side_to_read(after)->0.readers == 0
        &&& side_to_write(after) is Some
        &&& side_to_write(after)->0.target == value
        &&& side_to_write(after)->0.readers == 0
        &&& post.meta == self.meta.update(i, metadata(h1))
        &&& post.entries == self.entries.update(i, after)
        &&& post.waiting == self.waiting
        &&& self.is_first_on_the_way(h1, i)
    }

    /// Probing for the hash comes upon slot `i` before all other unused slots
    /// or, where no slot is unused, before all other slots that have no entry.
    pub open spec fn is_first_on_the_way(self, h1: usize, i: int) -> bool {
        exists|n: nat|
            {
                &&& n < self.meta.len()
                &&& #[trigger] probe_slot(h1 as int, n, self.meta.len() as int) == i
                &&& if exists|j: int| 0 <= j < self.meta.len() && #[trigger] self.meta[j] == 0 {
                    &&& self.meta[i] == 0
                    &&& forall|m: nat|
                        m < n ==> self.meta[#[trigger] probe_slot(
                            h1 as int,
                            m,
                            self.meta.len() as int,
                        )] != 0
                } else {
                    forall|m: nat|
                        m < n ==> {
                            let j = #[trigger] probe_slot(h1 as int, m, self.meta.len() as int);
                            self.entries[j] is Some || self.waiting[j] is Some
                        }
                }
            }
    }
}

impl<K: PartialEq, V: Clone> TableView<K, V> {
    proof fn lemma_put_in(self, post: Self, i: int, h1: usize, key: K, value: V)
        requires
            self.vacancy(h1, i),
            post.entry(i).fresh(key, h1, value),
            post == self.with_added(i, post.entry(i)),
            post.entries.len() == post.meta.len(),
            post.entries[i] is Some,
        ensures
            self.put_in(post, i, h1, key, value),
    {
        self.lemma_unused();
        let n = choose|n: nat| self.offers(h1, n, i);
        assert(probe_slot(h1 as int, n, self.meta.len() as int) == i);
        if exists|j: int| 0 <= j < self.meta.len() && #[trigger] self.meta[j] == 0 {
            assert(self.unused() > 0);
        } else {
            assert(self.unused() == 0);
            assert(self.meta[i] != 0);
            assert forall|m: nat| m < n implies {
                let j = #[trigger] probe_slot(h1 as int, m, self.meta.len() as int);
                self.entries[j] is Some || self.waiting[j] is Some
            } by {
                assert(!self.usable(probe_slot(h1 as int, m, self.slots() as int)));
            }
        }
        assert(self.is_first_on_the_way(h1, i));
        assert(post.entries =~= self.entries.update(i, post.entries[i]));
    }
}

/// A reader that is given up leaves the side that it read, of the entry in its
/// slot or of the one that was removed from it. The last reader of a removed
/// entry takes it along.
pub proof fn law_release_read<K: PartialEq, V, S>(
    t: &mut DentTable<K, V, S>,
    guard: ReadGuard,
)
    requires
        old(t).wf(),
        old(t)@.attached(guard),
        call_ensures(DentTable::<K, V, S>::release_read, (t, guard), ()),
    ensures
        final(t).wf(),
        final(t).hasher() == old(t).hasher(),
        final(t).capacity() == old(t).capacity(),
        old(t)@.given_up(final(t)@, guard),
{
    assert(old(t)@.slot_wf(guard.slot()));
}

/// What a writer gives back becomes the side to read, and the side that was read
/// the one to write.
pub proof fn law_release_write<K: PartialEq, V, S>(
    t: &mut DentTable<K, V, S>,
    guard: WriteGuard<V>,
)
    requires
        old(t).wf(),
        old(t)@.writing(guard),
        call_ensures(DentTable::<K, V, S>::release_write, (t, guard), ()),
    ensures
        final(t).wf(),
        final(t).hasher() == old(t).hasher(),
        final(t).capacity() == old(t).capacity(),
        old(t)@.given_back(final(t)@, guard),
{
}

/// A guard reads the side that it was made for, of the entry in its slot or of
/// the one that was removed from it.
pub proof fn law_read<K: PartialEq, V, S>(
    t: &DentTable<K, V, S>,
    guard: &ReadGuard,
    value: &V,
)
    requires
        t@.attached(*guard),
        call_ensures(DentTable::<K, V, S>::read, (t, guard), value),
    ensures
        *value == one_side(
            if t@.entries[guard.slot()] is Some {
                t@.entries[guard.slot()]
            } else {
                t@.waiting[guard.slot()]
            },
            guard.left(),
        )->0.target,
{
}

/// `is_attached` tells whether the side that a guard was made for is there, and
/// where it says so the guard can be given back and reads.
pub proof fn law_is_attached<K: PartialEq, V, S>(
    t: &DentTable<K, V, S>,
    guard: &ReadGuard,
    b: bool,
    m: &mut DentTable<K, V, S>,
)
    requires
        t.wf(),
        *old(m) == *t,
        call_ensures(DentTable::<K, V, S>::is_attached, (t, guard), b),
    ensures
        b == t@.has_side_of(*guard),
        b ==> call_requires(DentTable::<K, V, S>::release_read, (m, *guard)),
        b ==> call_requires(DentTable::<K, V, S>::read, (t, guard)),
{
}

/// `is_writing` tells whether the entry in the slot of a guard is there without
/// its write side, and where it says so the guard can be given back.
pub proof fn law_is_writing<K: PartialEq, V, S>(
    t: &DentTable<K, V, S>,
    guard: &WriteGuard<V>,
    b: bool,
    m: &mut DentTable<K, V, S>,
)
    requires
        t.wf(),
        *old(m) == *t,
        call_ensures(DentTable::<K, V, S>::is_writing, (t, guard), b),
    ensures
        b == t@.lacks_side_of(*guard),
        b ==> call_requires(DentTable::<K, V, S>::release_write, (m, *guard)),
{
}

/// The two parts of the hash of a key come from one hash of `hash_one`.
pub proof fn law_table_hash<K, Q: Hash + ?Sized, V, S: BuildHasher>(
    t: &DentTable<K, V, S>,
    key: &Q,
    parts: (usize, u8),
)
    requires
        call_ensures(DentTable::<K, V, S>::hash::<Q>, (t, key), parts),
    ensures
        exists|hash: u64|
            {
                &&& #[trigger] hash_one_gives(t.hasher(), key, hash)
                &&& parts.0 as int == hash as int % (usize::MAX + 1)
            },
        usize::BITS == 64 ==> parts.1 == parts.0 as int / 0x200_0000_0000_0000 + 1,
        usize::BITS == 32 ==> parts.1 == parts.0 as int / 0x200_0000 + 1,
{
    law_index_hash(t.hasher(), key, parts.0);
    law_metadata(parts.0);
}

/// A new table has unused slots only.
pub proof fn law_table_new<K: PartialEq, V, S>(
    capacity: usize,
    hasher: S,
    t: DentTable<K, V, S>,
)
    requires
        key_model::<K>(),
        call_ensures(DentTable::<K, V, S>::new, (capacity, hasher), t),
    ensures
        t.wf(),
        t.hasher() == hasher,
        t.capacity() == capacity,
        t@.meta.len() == slot_count(capacity),
        forall|i: int| 0 <= i < t@.meta.len() ==> #[trigger] t@.meta[i] == 0,
        forall|i: int| 0 <= i < t@.meta.len() ==> #[trigger] t@.entries[i] is None,
        forall|i: int| 0 <= i < t@.meta.len() ==> #[trigger] t@.waiting[i] is None,
{
    let p = |byte: u8| byte == 0;
    lemma_count_all(t@.meta, p);
    assert(forall|i: int| 0 <= i < t@.meta.len() ==> p(#[trigger] t@.meta[i]));
}

/// The slot of a key is the one that holds its entry.
pub proof fn law_find<K: PartialEq, V>(
    t: &RawTable<K, V>,
    h1: usize,
    h2: u8,
    key: K,
    slot: Option<usize>,
)
    requires
        key_model::<K>(),
        t@.wf(),
        call_ensures(RawTable::<K, V>::find, (t, h1, h2, &key), slot),
    ensures
        match slot {
            Some(i) => i < t@.meta.len() && is_for(t@.entries[i as int], h1, key),
            None => forall|i: int|
                0 <= i < t@.meta.len() ==> !is_for(#[trigger] t@.entries[i], h1, key),
        },
{
    t@.law_lookup(h1, key);
}

/// The slot of a borrowed key is one that holds an entry that it picks out.
pub proof fn law_find_borrowed<K: PartialEq + Borrow<Q>, Q: PartialEq + ?Sized, V>(
    t: &RawTable<K, V>,
    h1: usize,
    h2: u8,
    name: &Q,
    slot: Option<usize>,
)
    requires
        call_ensures(RawTable::<K, V>::find_borrowed::<Q>, (t, h1, h2, name), slot),
    ensures
        match slot {
            Some(i) => i < t@.meta.len() && may_be_for(t@.entries[i as int], h1, name),
            None => forall|i: int|
                0 <= i < t@.meta.len() && #[trigger] t@.entries[i] is Some
                    && t@.entries[i]->0.hash == h1 ==> answers(
                    t@.entries[i]->0.key,
                    name,
                    false,
                ),
        },
{
    if slot is None {
        t@.lemma_lacks(h1, name);
    }
}

/// Whether the entry in a slot can be written is up to its write side.
pub proof fn law_is_writable<K: PartialEq, V>(
    t: &RawTable<K, V>,
    slot: usize,
    b: bool,
)
    requires
        call_ensures(RawTable::<K, V>::is_writable, (t, slot), b),
    ensures
        b == can_be_written(t@.entries[slot as int]),
{
}

/// Whether the entry in a slot can be removed is up to its write side.
pub proof fn law_is_unlocked<K: PartialEq, V>(
    t: &RawTable<K, V>,
    slot: usize,
    b: bool,
)
    requires
        call_ensures(RawTable::<K, V>::is_unlocked, (t, slot), b),
    ensures
        b == side_to_write(t@.entries[slot as int]) is Some,
{
}

/// A new entry goes into a slot exactly if there is none in it.
pub proof fn law_insert_new<K: PartialEq, V: Clone>(
    t: &mut RawTable<K, V>,
    slot: usize,
    key: K,
    value: V,
    h1: usize,
    h2: u8,
    result: InsertNew<K, V>,
)
    requires
        old(t).sized(),
        slot < old(t)@.meta.len(),
        call_ensures(RawTable::<K, V>::insert_new, (t, slot, key, value, h1, h2), result),
    ensures
        match result {
            InsertNew::Inserted => {
                let after = final(t)@.entries[slot as int];
                &&& old(t)@.entries[slot as int] is None
                &&& after is Some
                &&& after->0.key == key
                &&& after->0.hash == h1
                &&& side_to_read(after) is Some
                &&& cloned(value, side_to_read(after)->0.target)
                &&& side_to_read(after)->0.readers == 0
                &&& side_to_write(after) is Some
                &&& side_to_write(after)->0.target == value
                &&& side_to_write(after)->0.readers == 0
                &&& final(t)@.entries == old(t)@.entries.update(slot as int, after)
                &&& final(t)@.meta == old(t)@.meta.update(slot as int, metadata(h1))
                &&& final(t)@.waiting == old(t)@.waiting
            },
            InsertNew::Found { k, v } => {
                &&& old(t)@.entries[slot as int] is Some
                &&& k == key
                &&& cloned(value, v)
                &&& final(t)@ == old(t)@
            },
        },
{
    assert(final(t)@.entries =~= old(t)@.entries.update(
        slot as int,
        final(t)@.entries[slot as int],
    ));
}

/// The value of the entry in a slot is replaced exactly if the entry belongs to
/// the key and its value is to be replaced.
pub proof fn law_insert_replace<K: PartialEq, V: Clone>(
    t: &mut RawTable<K, V>,
    slot: usize,
    key: K,
    value: V,
    replace: bool,
    h1: usize,
    result: InsertReplace<V>,
)
    requires
        key_model::<K>(),
        old(t).sized(),
        old(t)@.wf(),
        slot < old(t)@.meta.len(),
        replace && is_for(old(t)@.entries[slot as int], h1, key) ==> can_be_written(
            old(t)@.entries[slot as int],
        ),
        call_ensures(RawTable::<K, V>::insert_replace, (t, slot, &key, value, replace, h1), result),
    ensures
        match result {
            InsertReplace::Failed { v } => {
                &&& !is_for(old(t)@.entries[slot as int], h1, key)
                &&& v == value
                &&& final(t)@ == old(t)@
            },
            InsertReplace::Found => {
                &&& is_for(old(t)@.entries[slot as int], h1, key)
                &&& !replace
                &&& final(t)@ == old(t)@
            },
            InsertReplace::Replaced { value: old_value } => {
                &&& is_for(old(t)@.entries[slot as int], h1, key)
                &&& replace
                &&& old(t)@.swapped(final(t)@, slot as int, value, old_value)
            },
        },
{
    assert(old(t)@.slot_wf(slot as int));
}

/// The entry in a slot is taken out exactly if it belongs to the key, and a clone
/// of the value in its write side comes back.
pub proof fn law_remove_entry<K: PartialEq, V: Clone>(
    t: &mut RawTable<K, V>,
    slot: usize,
    key: K,
    h1: usize,
    value: Option<V>,
)
    requires
        old(t).sized(),
        slot < old(t)@.meta.len(),
        call_ensures(RawTable::<K, V>::remove_entry, (t, slot, &key, h1), value),
    ensures
        value is Some == is_for(old(t)@.entries[slot as int], h1, key),
        match value {
            None => final(t)@ == old(t)@,
            Some(value) => {
                let before = old(t)@.entries[slot as int];
                &&& cloned(side_to_write(before)->0.target, value)
                &&& final(t)@.meta == old(t)@.meta
                &&& final(t)@.entries == old(t)@.entries.update(slot as int, None)
                &&& final(t)@.waiting == old(t)@.waiting.update(
                    slot as int,
                    if has_any_reader(before) {
                        before
                    } else {
                        None
                    },
                )
            },
        },
{
}

/// A table that is taken down holds no entries, in its slots or apart from them.
pub proof fn law_deallocate<K, V, S>(
    t: &mut RawTable<K, V>,
)
    requires
        old(t).sized(),
        call_ensures(DentTable::<K, V, S>::deallocate, (t,), ()),
    ensures
        final(t)@.meta == old(t)@.meta,
        final(t)@.entries.len() == old(t)@.meta.len(),
        final(t)@.waiting.len() == old(t)@.meta.len(),
        forall|i: int| 0 <= i < old(t)@.meta.len() ==> #[trigger] final(t)@.entries[i] is None,
        forall|i: int| 0 <= i < old(t)@.meta.len() ==> #[trigger] final(t)@.waiting[i] is None,
{
}

/// The slots of a new table are unused.
pub proof fn law_allocate<K, V, S>(
    capacity: usize,
    t: RawTable<K, V>,
)
    requires
        call_ensures(DentTable::<K, V, S>::allocate, (capacity,), t),
    ensures
        t.mask() + 1 == capacity,
        t@.meta.len() == capacity,
        t@.entries.len() == capacity,
        t@.waiting.len() == capacity,
        forall|i: int| 0 <= i < capacity ==> #[trigger] t@.meta[i] == 0,
        forall|i: int| 0 <= i < capacity ==> #[trigger] t@.entries[i] is None,
        forall|i: int| 0 <= i < capacity ==> #[trigger] t@.waiting[i] is None,
{
}

/// What can be looked at in a table is what is in it.
pub proof fn law_access<K: PartialEq, V, S>(
    t: &DentTable<K, V, S>,
    i: usize,
    slot: &Option<Box<TableEntry<K, V>>>,
    raw: &RawTable<K, V>,
    mask: usize,
    byte: u8,
    len: usize,
)
    requires
        t.wf(),
        call_ensures(DentTable::<K, V, S>::get_entry, (t, i), slot),
        call_ensures(DentTable::<K, V, S>::root, (t,), raw),
        call_ensures(DentTable::<K, V, S>::mask, (raw,), mask),
        call_ensures(RawTable::<K, V>::short_hash, (raw, i), byte),
        call_ensures(DentTable::<K, V, S>::len, (t,), len),
    ensures
        *slot == t@.entries[i as int],
        raw@ == t@,
        mask + 1 == t@.meta.len(),
        byte == t@.meta[i as int],
        len == 0 <==> forall|j: int| 0 <= j < t@.meta.len() ==> #[trigger] t@.entries[j] is None,
{
    t@.lemma_empty();
    if len == 0 {
        assert forall|j: int| 0 <= j < t@.meta.len() implies #[trigger] t@.entries[j] is None by {
            if t@.live(j) {
                assert(t@.holds(j, t@.entry(j).hash, t@.entry(j).key));
                assert(t@.contains(t@.entry(j).hash, t@.entry(j).key));
            }
        }
    } else {
        let (h1, key) = choose|h1: usize, key: K| #[trigger] t@.contains(h1, key);
        assert(t@.entries[t@.slot_of(h1, key)] is Some);
    }
}

/// Writing a metadata byte changes that byte and nothing else.
pub proof fn law_store_short_hash<K, V>(
    t: &mut RawTable<K, V>,
    slot: usize,
    byte: u8,
)
    requires
        slot < old(t)@.meta.len(),
        call_ensures(RawTable::<K, V>::store_short_hash, (t, slot, byte), ()),
    ensures
        final(t)@.meta == old(t)@.meta.update(slot as int, byte),
        final(t)@.entries == old(t)@.entries,
        final(t)@.waiting == old(t)@.waiting,
        final(t).mask() == old(t).mask(),
{
}

/// Equality of keys can be relied on where it is an equivalence that comparing follows.
pub proof fn law_key_model<K: PartialEq>()
    requires
        obeys_eq::<K>(),
        forall|k: K| #[trigger] k.eq_spec(&k),
    ensures
        key_model::<K>(),
{
}

impl<K, V> TableEntry<K, V> {
    /// Nothing changed but one side.
    pub open spec fn differs_in(self, post: Self, left: bool) -> bool {
        &&& post.key == self.key
        &&& post.hash == self.hash
        &&& post.read_left == self.read_left
        &&& left ==> post.right == self.right
        &&& !left ==> post.left == self.left
    }
}

/// A new entry has a clone of the value to read and the value itself to write,
/// with no reader on either side.
pub proof fn law_new_entry<K, V: Clone>(
    key: K,
    hash: usize,
    value: V,
    entry: Box<TableEntry<K, V>>,
)
    requires
        call_ensures(TableEntry::<K, V>::new, (key, hash, value), entry),
    ensures
        entry.key == key,
        entry.hash == hash,
        side_to_read(Some(entry)) is Some,
        cloned(value, side_to_read(Some(entry))->0.target),
        side_to_read(Some(entry))->0.readers == 0,
        side_to_write(Some(entry)) is Some,
        side_to_write(Some(entry))->0.target == value,
        side_to_write(Some(entry))->0.readers == 0,
{
}

/// An entry that is taken apart gives its key back, and what was to be read on its left.
pub proof fn law_entry_parts<K, V>(
    entry: Box<TableEntry<K, V>>,
    parts: (K, V),
    slot: Option<Box<TableEntry<K, V>>>,
    key: Option<K>,
)
    requires
        call_ensures(TableEntry::<K, V>::reclaim_entry, (entry,), parts),
        call_ensures(TableEntry::<K, V>::free_entry, (slot,), key),
    ensures
        parts.0 == entry.key,
        parts.1 == entry.left->0.target,
        key is Some == slot is Some,
        slot is Some ==> key->0 == slot->0.key,
{
}

/// A reader comes in on the side that is read.
pub proof fn law_acquire_read<K, V>(
    e: &mut TableEntry<K, V>,
    left: bool,
)
    requires
        one_side(Some(Box::new(*old(e))), old(e).read_left) is Some,
        call_ensures(TableEntry::<K, V>::acquire_read, (e,), left),
    ensures
        left == old(e).read_left,
        old(e).differs_in(*final(e), left),
        reader_came(
            one_side(Some(Box::new(*old(e))), left),
            one_side(Some(Box::new(*final(e))), left),
        ),
{
}

/// A reader leaves the side that it read.
pub proof fn law_entry_release_read<K, V>(
    e: &mut TableEntry<K, V>,
    left: bool,
)
    requires
        one_side(Some(Box::new(*old(e))), left) is Some,
        call_ensures(TableEntry::<K, V>::release_read, (e, left), ()),
    ensures
        old(e).differs_in(*final(e), left),
        reader_left(
            one_side(Some(Box::new(*old(e))), left),
            one_side(Some(Box::new(*final(e))), left),
        ),
{
}

/// A writer takes the side that is not read, if it is there.
pub proof fn law_acquire_write<K, V>(
    e: &mut TableEntry<K, V>,
    side: Option<TrackingEntry<V>>,
)
    requires
        call_ensures(TableEntry::<K, V>::acquire_write, (e,), side),
    ensures
        side == side_to_write(Some(Box::new(*old(e)))),
        old(e).differs_in(*final(e), !old(e).read_left),
        side_to_write(Some(Box::new(*final(e)))) is None,
{
}

/// A write side that is brought back unused is where it was.
pub proof fn law_restore_write<K, V>(
    e: &mut TableEntry<K, V>,
    side: TrackingEntry<V>,
)
    requires
        call_ensures(TableEntry::<K, V>::restore_write, (e, side), ()),
    ensures
        old(e).differs_in(*final(e), !old(e).read_left),
        side_to_write(Some(Box::new(*final(e)))) == Some(side),
{
}

/// A write side that was written becomes the one to read, and the one that was
/// read the next to be written.
pub proof fn law_publish<K, V>(
    e: &mut TableEntry<K, V>,
    side: TrackingEntry<V>,
)
    requires
        call_ensures(TableEntry::<K, V>::publish, (e, side), ()),
    ensures
        final(e).key == old(e).key,
        final(e).hash == old(e).hash,
        final(e).read_left == !old(e).read_left,
        side_to_read(Some(Box::new(*final(e)))) == Some(side),
        side_to_write(Some(Box::new(*final(e)))) == side_to_read(Some(Box::new(*old(e)))),
{
}

/// What an entry tells of itself.
pub proof fn law_entry_tells<K, V>(
    e: &TableEntry<K, V>,
    unlocked: bool,
    writable: bool,
    read: bool,
)
    requires
        call_ensures(TableEntry::<K, V>::is_unlocked, (e,), unlocked),
        call_ensures(TableEntry::<K, V>::is_writable, (e,), writable),
        call_ensures(TableEntry::<K, V>::is_read, (e,), read),
    ensures
        unlocked == side_to_write(Some(Box::new(*e))) is Some,
        writable == can_be_written(Some(Box::new(*e))),
        read == has_any_reader(Some(Box::new(*e))),
{
}

/// Readers are counted one by one.
pub proof fn law_reader_count<V>(
    e: &mut TrackingEntry<V>,
    f: &mut TrackingEntry<V>,
)
    requires
        call_ensures(TrackingEntry::<V>::add_reader, (e,), ()),
        call_ensures(TrackingEntry::<V>::drop_reader, (f,), ()),
    ensures
        reader_came(Some(*old(e)), Some(*final(e))),
        reader_left(Some(*old(f)), Some(*final(f))),
{
}

} // verus!
