//! The map.

use crate::capacity::{fits, least_pow2, slot_count, table_bytes, word};
use crate::guard::{ReadGuard, WriteGuard};
use crate::hasher::hashes_to;
use crate::state::{key_model, TableView};
use crate::table::{DentTable, InsertResult};
use std::borrow::Borrow;
use std::hash::{BuildHasher, Hash, RandomState};
use vstd::prelude::*;

verus! {

/// A hash map whose entries can be read while they are written.
///
/// Reading and writing go by guards. A guard is taken from the map and given
/// back to it; in between the map can be used in every other way. Where an
/// operation would have to wait for a guard to be given back, the functions
/// whose names end in `_now` say so and leave the map as it is.
pub struct JanusMap<K, V, S = RandomState> {
    base: DentTable<K, V, S>,
}

/// Why a value was not stored.
#[derive(Debug)]
pub enum TryInsertError {
    /// The key has an entry already.
    AlreadyExists,
}

impl<K, V, S> View for JanusMap<K, V, S> {
    type V = TableView<K, V>;

    closed spec fn view(&self) -> TableView<K, V> {
        self.base@
    }
}

impl<K, V, S> JanusMap<K, V, S> {
    /// The hash function.
    pub closed spec fn hasher(self) -> S {
        self.base.hasher()
    }

    /// The capacity that the map was asked for.
    pub closed spec fn capacity(self) -> usize {
        self.base.capacity()
    }

    /// The entry counter agrees with the entries.
    pub closed spec fn counted(self) -> bool {
        self.base.counted()
    }
}

impl<K: Hash, V> TableView<K, V> {
    /// Every entry carries a hash that the hasher may give for its key.
    pub open spec fn hashed_by<S: BuildHasher>(self, hasher: S) -> bool {
        forall|i: int|
            0 <= i < self.slots() && #[trigger] self.live(i) ==> hashes_to(
                hasher,
                &self.entry(i).key,
                self.entry(i).hash,
            )
    }

    /// Entries that stay, and new ones with the right hash, keep this up.
    proof fn lemma_hashed_by<S: BuildHasher>(self, post: Self, hasher: S)
        requires
            self.hashed_by(hasher),
            post.slots() == self.slots(),
            forall|i: int|
                0 <= i < post.slots() && #[trigger] post.live(i) ==> {
                    ||| hashes_to(hasher, &post.entry(i).key, post.entry(i).hash)
                    ||| {
                        &&& self.live(i)
                        &&& post.entry(i).key == self.entry(i).key
                        &&& post.entry(i).hash == self.entry(i).hash
                    }
                },
        ensures
            post.hashed_by(hasher),
    {
    }
}

impl<K: Eq + Hash, V, S: BuildHasher> JanusMap<K, V, S> {
    /// The map is consistent.
    pub open spec fn wf(self) -> bool {
        &&& key_model::<K>()
        &&& self@.wf()
        &&& self@.hashed_by(self.hasher())
        &&& self.counted()
    }

    /// An empty map that was made for `capacity` entries.
    pub open spec fn empty(self, capacity: usize) -> bool {
        &&& key_model::<K>() ==> self.wf()
        &&& self.capacity() == capacity
        &&& self@.slots() == slot_count(capacity)
        &&& self@.unused() == slot_count(capacity)
        &&& self@.room() == slot_count(capacity)
        &&& self@.len() == 0
        &&& forall|i: int| 0 <= i < self@.slots() ==> #[trigger] self@.entries[i] is None
        &&& forall|i: int| 0 <= i < self@.slots() ==> #[trigger] self@.waiting[i] is None
    }

    /// Nothing but the entries changed.
    pub open spec fn same_map(self, other: Self) -> bool {
        &&& self.hasher() == other.hasher()
        &&& self.capacity() == other.capacity()
    }
}

impl<K: Eq + Hash, V: Clone, S: BuildHasher> JanusMap<K, V, S> {
    /// What `insert` does, for some hash of the key.
    pub open spec fn insert_effect(self, post: Self, key: K, value: V, old_value: Option<V>) -> bool {
        exists|h1: usize|
            {
                &&& #[trigger] hashes_to(self.hasher(), &key, h1)
                &&& self@.insert_outcome(post@, h1, key, value, old_value)
            }
    }

    /// What `get` does, for some hash of the key.
    pub open spec fn get_effect<Q: Hash + Eq + ?Sized>(
        self,
        post: Self,
        key: &Q,
        guard: Option<ReadGuard>,
    ) -> bool where K: Borrow<Q> {
        exists|h1: usize|
            {
                &&& #[trigger] hashes_to(self.hasher(), key, h1)
                &&& self@.get_outcome_as(post@, h1, key, guard)
            }
    }

    /// What `get_mut` does, for some hash of the key.
    pub open spec fn get_mut_effect<Q: Hash + Eq + ?Sized>(
        self,
        post: Self,
        key: &Q,
        guard: Option<WriteGuard<V>>,
    ) -> bool where K: Borrow<Q> {
        exists|h1: usize|
            {
                &&& #[trigger] hashes_to(self.hasher(), key, h1)
                &&& self@.get_mut_outcome_as(post@, h1, key, guard)
            }
    }

    /// What `remove` does, for some hash of the key.
    pub open spec fn remove_effect<Q: Hash + Eq + ?Sized>(
        self,
        post: Self,
        key: &Q,
        value: Option<V>,
    ) -> bool where K: Borrow<Q> {
        exists|h1: usize|
            {
                &&& #[trigger] hashes_to(self.hasher(), key, h1)
                &&& self@.remove_outcome_as(post@, h1, key, value)
            }
    }

    /// A value can be stored under the key, whatever its hash.
    pub open spec fn insert_ready(self, key: K) -> bool {
        forall|h1: usize| #[trigger]
            hashes_to(self.hasher(), &key, h1) ==> self@.insert_ready(h1, key)
    }

    /// Every entry that the key may pick out can be written, whatever its hash.
    pub open spec fn write_ready<Q: Hash + Eq + ?Sized>(self, key: &Q) -> bool where K: Borrow<Q> {
        forall|h1: usize| #[trigger]
            hashes_to(self.hasher(), key, h1) ==> self@.write_ready_as(h1, key)
    }

    /// Every entry that the key may pick out can be removed, whatever its hash.
    pub open spec fn remove_ready<Q: Hash + Eq + ?Sized>(self, key: &Q) -> bool where K: Borrow<Q> {
        forall|h1: usize| #[trigger]
            hashes_to(self.hasher(), key, h1) ==> self@.remove_ready_as(h1, key)
    }
}

impl<K: Eq + Hash, V: Clone, S: Default + BuildHasher + Clone> Default for JanusMap<K, V, S> {
    fn default() -> (map: Self)
        ensures
            map.empty(16),
            call_ensures(S::default, (), map.hasher()),
    {
        proof {
            lemma_small_capacities();
        }
        Self::new_inner(16, S::default())
    }
}

impl<K: Eq + Hash, V: Clone> JanusMap<K, V, RandomState> {
    /// Makes a map for `capacity` entries with a random hash function.
    pub fn with_capacity(capacity: usize) -> (map: Self)
        requires
            fits(capacity),
        ensures
            map.empty(capacity),
    {
        Self::new_inner(capacity, RandomState::new())
    }
}

impl<K: Eq + Hash, V: Clone, S: BuildHasher + Clone> JanusMap<K, V, S> {
    fn new_inner(capacity: usize, hasher: S) -> (map: JanusMap<K, V, S>)
        requires
            fits(capacity),
        ensures
            map.empty(capacity),
            map.hasher() == hasher,
    {
        let base = DentTable::<K, V, S>::new(capacity, hasher);
        JanusMap { base }
    }

    /// Makes a map with the given hash function.
    pub fn with_hasher(hasher: S) -> (map: Self)
        ensures
            map.empty(32),
            map.hasher() == hasher,
    {
        proof {
            lemma_small_capacities();
        }
        JanusMap::with_capacity_and_hasher(32, hasher)
    }

    /// Makes a map for `capacity` entries with the given hash function.
    pub fn with_capacity_and_hasher(capacity: usize, hasher: S) -> (map: Self)
        requires
            fits(capacity),
        ensures
            map.empty(capacity),
            map.hasher() == hasher,
    {
        Self::new_inner(capacity, hasher)
    }

    /// The number of entries.
    pub fn len(&self) -> (len: usize)
        requires
            self.wf(),
        ensures
            len == self@.len(),
    {
        self.base.len()
    }

    /// Tells whether there are no entries.
    pub fn is_empty(&self) -> (b: bool)
        requires
            self.wf(),
        ensures
            b == (self@.len() == 0),
    {
        self.base.len() == 0
    }

    /// Stores a value. If the key was there, the value that the write side of
    /// its entry held comes back. The entry must not be held up by a writer or
    /// by readers of its write side, and a new key needs a slot that is free.
    pub fn insert(&mut self, key: K, value: V) -> (old_value: Option<V>)
        requires
            old(self).wf(),
            old(self).insert_ready(key),
        ensures
            final(self).wf(),
            final(self).same_map(*old(self)),
            old(self).insert_effect(*final(self), key, value, old_value),
    {
        let (h1, h2): (usize, u8) = self.base.hash(&key);
        assert(hashes_to(old(self).hasher(), &key, h1));
        let old_value = match self.base.insert(h1, h2, key, value, true) {
            InsertResult::Inserted => None,
            InsertResult::Replaced(old_value) => Some(old_value),
            InsertResult::Error => unreached(),
        };
        proof {
            old(self)@.lemma_hashed_by(self@, self.hasher());
        }
        old_value
    }

    /// Reads a key, which may be given in borrowed form. Other readers and a
    /// writer of its entry do not get in the way. A key without an entry gives
    /// nothing, also if no slot is unused.
    pub fn get<Q: Hash + Eq + ?Sized>(&mut self, key: &Q) -> (guard: Option<ReadGuard>) where
        K: Borrow<Q>,

        requires
            old(self).wf(),
        ensures
            final(self).wf(),
            final(self).same_map(*old(self)),
            old(self).get_effect(*final(self), key, guard),
    {
        let (h1, h2): (usize, u8) = self.base.hash(key);
        assert(hashes_to(old(self).hasher(), key, h1));
        let guard = self.base.get_borrowed(h1, h2, key);
        proof {
            old(self)@.lemma_hashed_by(self@, self.hasher());
        }
        guard
    }

    /// Takes up writing on the entry for a key, which may be given in borrowed
    /// form. The entry must not be held up by another writer or by readers of
    /// its write side.
    pub fn get_mut<Q: Hash + Eq + ?Sized>(&mut self, key: &Q) -> (guard: Option<WriteGuard<V>>) where
        K: Borrow<Q>,

        requires
            old(self).wf(),
            old(self).write_ready(key),
        ensures
            final(self).wf(),
            final(self).same_map(*old(self)),
            old(self).get_mut_effect(*final(self), key, guard),
    {
        let (h1, h2): (usize, u8) = self.base.hash(key);
        assert(hashes_to(old(self).hasher(), key, h1));
        let guard = self.base.get_mut_borrowed(h1, h2, key);
        proof {
            old(self)@.lemma_hashed_by(self@, self.hasher());
        }
        guard
    }

    /// Removes the entry for a key, which may be given in borrowed form. The
    /// entry must not be held up by a writer. Guards that read it stay good.
    pub fn remove<Q: Hash + Eq + ?Sized>(&mut self, key: &Q) -> (value: Option<V>) where K: Borrow<Q>
        requires
            old(self).wf(),
            old(self).remove_ready(key),
        ensures
            final(self).wf(),
            final(self).same_map(*old(self)),
            old(self).remove_effect(*final(self), key, value),
    {
        let (h1, h2): (usize, u8) = self.base.hash(key);
        assert(hashes_to(old(self).hasher(), key, h1));
        let value = self.base.remove_borrowed(h1, h2, key);
        proof {
            old(self)@.lemma_hashed_by(self@, self.hasher());
        }
        value
    }
}

impl<K: Eq + Hash, V: Clone, S: BuildHasher + Clone> JanusMap<K, V, S> {
    /// Stores a value like `insert`, unless that has to wait: for the writer
    /// of the entry, for readers on its write side, or for a slot. Then key
    /// and value come back.
    pub fn insert_now(&mut self, key: K, value: V) -> (result: Result<Option<V>, (K, V)>)
        requires
            old(self).wf(),
        ensures
            final(self).wf(),
            final(self).same_map(*old(self)),
            exists|h1: usize|
                {
                    &&& #[trigger] hashes_to(old(self).hasher(), &key, h1)
                    &&& match result {
                        Ok(old_value) => {
                            &&& old(self)@.insert_ready(h1, key)
                            &&& old(self)@.insert_outcome(final(self)@, h1, key, value, old_value)
                        },
                        Err((k, v)) => {
                            &&& !old(self)@.insert_ready(h1, key)
                            &&& k == key
                            &&& v == value
                            &&& final(self)@ == old(self)@
                        },
                    }
                },
    {
        let (h1, h2): (usize, u8) = self.base.hash(&key);
        assert(hashes_to(old(self).hasher(), &key, h1));
        if !self.base.can_insert(h1, h2, &key) {
            return Err((key, value));
        }
        let old_value = match self.base.insert(h1, h2, key, value, true) {
            InsertResult::Inserted => None,
            InsertResult::Replaced(old_value) => Some(old_value),
            InsertResult::Error => unreached(),
        };
        proof {
            old(self)@.lemma_hashed_by(self@, self.hasher());
        }
        Ok(old_value)
    }

    /// Takes up writing like `get_mut`, unless that has to wait for the writer
    /// of the entry or for readers on its write side. Then the result is an error.
    pub fn get_mut_now<Q: Hash + Eq + ?Sized>(&mut self, key: &Q) -> (result: Result<
        Option<WriteGuard<V>>,
        (),
    >) where K: Borrow<Q>
        requires
            old(self).wf(),
        ensures
            final(self).wf(),
            final(self).same_map(*old(self)),
            exists|h1: usize|
                {
                    &&& #[trigger] hashes_to(old(self).hasher(), key, h1)
                    &&& match result {
                        Ok(guard) => old(self)@.get_mut_outcome_as(final(self)@, h1, key, guard),
                        Err(_) => {
                            &&& !old(self)@.write_ready_as(h1, key)
                            &&& final(self)@ == old(self)@
                        },
                    }
                },
    {
        let (h1, h2): (usize, u8) = self.base.hash(key);
        assert(hashes_to(old(self).hasher(), key, h1));
        match self.base.root().find_borrowed(h1, h2, key) {
            None => Ok(None),
            Some(slot) => {
                if !self.base.root().is_writable(slot) {
                    return Err(());
                }
                let guard = self.base.write_entry(slot);
                proof {
                    old(self)@.lemma_hashed_by(self@, self.hasher());
                }
                Ok(Some(guard))
            },
        }
    }

    /// Removes an entry like `remove`, unless that has to wait for the writer
    /// of the entry. Then the result is an error.
    pub fn remove_now<Q: Hash + Eq + ?Sized>(&mut self, key: &Q) -> (result: Result<Option<V>, ()>) where
        K: Borrow<Q>,

        requires
            old(self).wf(),
        ensures
            final(self).wf(),
            final(self).same_map(*old(self)),
            exists|h1: usize|
                {
                    &&& #[trigger] hashes_to(old(self).hasher(), key, h1)
                    &&& match result {
                        Ok(value) => old(self)@.remove_outcome_as(final(self)@, h1, key, value),
                        Err(_) => {
                            &&& !old(self)@.remove_ready_as(h1, key)
                            &&& final(self)@ == old(self)@
                        },
                    }
                },
    {
        let (h1, h2): (usize, u8) = self.base.hash(key);
        assert(hashes_to(old(self).hasher(), key, h1));
        match self.base.root().find_borrowed(h1, h2, key) {
            None => Ok(None),
            Some(slot) => {
                if !self.base.root().is_unlocked(slot) {
                    return Err(());
                }
                let value = self.base.remove_at(slot);
                proof {
                    old(self)@.lemma_hashed_by(self@, self.hasher());
                }
                Ok(Some(value))
            },
        }
    }

    /// Tells whether the side that a guard was made for is there.
    pub fn is_attached(&self, guard: &ReadGuard) -> (b: bool)
        requires
            self.wf(),
        ensures
            b == self@.attached(*guard),
    {
        self.base.is_attached(guard)
    }

    /// Tells whether a guard holds the write side of an entry of the map.
    pub fn is_writing(&self, guard: &WriteGuard<V>) -> (b: bool)
        requires
            self.wf(),
        ensures
            b == self@.writing(*guard),
    {
        self.base.is_writing(guard)
    }

    /// Gives a guard back that was reading. The last one on a removed entry frees it.
    pub fn release_read(&mut self, guard: ReadGuard)
        requires
            old(self).wf(),
            old(self)@.attached(guard),
        ensures
            final(self).wf(),
            final(self).same_map(*old(self)),
            final(self)@ == old(self)@.with_reader_gone(guard.slot(), guard.left()),
    {
        self.base.release_read(guard);
        proof {
            old(self)@.lemma_hashed_by(self@, self.hasher());
        }
    }

    /// Gives a guard back that was writing. What it leaves shows to readers from now on.
    pub fn release_write(&mut self, guard: WriteGuard<V>)
        requires
            old(self).wf(),
            old(self)@.writing(guard),
        ensures
            final(self).wf(),
            final(self).same_map(*old(self)),
            final(self)@ == old(self)@.with_entry(
                guard.slot(),
                old(self)@.entry(guard.slot()).published(guard.side()),
            ),
    {
        self.base.release_write(guard);
        proof {
            old(self)@.lemma_hashed_by(self@, self.hasher());
        }
    }
}

impl ReadGuard {
    /// Looks at the value that the guard reads.
    pub fn as_ref<'m, K: Eq + Hash, V, S: BuildHasher>(&self, map: &'m JanusMap<K, V, S>) -> (value: &'m V)
        requires
            map.wf(),
            map@.attached(*self),
        ensures
            *value == map@.value_of(*self),
    {
        map.base.read(self)
    }
}

/// Maps for sixteen and for thirty-two entries can be made everywhere.
proof fn lemma_small_capacities()
    ensures
        fits(16),
        fits(32),
{
    reveal_with_fuel(least_pow2, 7);
    assert(slot_count(16) == 32);
    assert(slot_count(32) == 64);
    if word() == 8 {
        assert(table_bytes(32) == (2 * 8 + 32 + 8 - 1) / 8 * 8 + 8 * 32);
        assert(table_bytes(64) == (2 * 8 + 64 + 8 - 1) / 8 * 8 + 8 * 64);
    } else {
        assert(table_bytes(32) == (2 * 4 + 32 + 4 - 1) / 4 * 4 + 4 * 32);
        assert(table_bytes(64) == (2 * 4 + 64 + 4 - 1) / 4 * 4 + 4 * 64);
    }
}

} // verus!
