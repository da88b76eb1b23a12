//! What calls of the map give, told by their arguments and results.
//!
//! Each law speaks of calls on maps. Where two calls follow each other, the
//! second one is made on the map that the first one leaves; where they are
//! compared, both are made on the same map. A key is given as itself to
//! `insert` and by a name to the others.

use crate::borrowed::{borrows_as, law_borrowed_form_names_key, law_names, names};
use crate::capacity::{capacity_fits, law_capacity_fits, law_slot_count};
use crate::entry::TableEntry;
use crate::guard::{ReadGuard, WriteGuard};
use crate::hash_metadata::index_part;
use crate::hasher::{hash_is, hash_one_gives, hashes_to, law_hash_decides_index};
use crate::invariants::{lemma_count_all, lemma_count_uniform};
use crate::laws::Operation;
use crate::map::JanusMap;
use crate::state::{key_model, TableView};
use crate::table_laws::{can_be_written, is_for, one_side, side_to_read, side_to_write};
use std::borrow::Borrow;
use std::hash::{BuildHasher, Hash, RandomState};
use vstd::arithmetic::power2::is_pow2;
use vstd::laws_eq::obeys_eq_spec_properties;
use vstd::prelude::*;
use vstd::std_specs::cmp::PartialEqSpec;

verus! {

impl<K: Eq + Hash, V: Clone, S: BuildHasher> JanusMap<K, V, S> {
    proof fn lemma_insert_by_hash(
        self,
        post: Self,
        key: K,
        value: V,
        old_value: Option<V>,
        hash: u64,
    )
        requires
            self.insert_effect(post, key, value, old_value),
            hash_is(self.hasher(), &key, hash),
        ensures
            self@.insert_outcome(post@, index_part(hash), key, value, old_value),
    {
        let h1 = choose|h1: usize|
            {
                &&& #[trigger] hashes_to(self.hasher(), &key, h1)
                &&& self@.insert_outcome(post@, h1, key, value, old_value)
            };
        law_hash_decides_index(self.hasher(), &key, hash, h1);
    }

    proof fn lemma_get_by_hash<Q: Hash + Eq + ?Sized>(
        self,
        post: Self,
        name: &Q,
        key: K,
        result: Option<ReadGuard>,
        hash: u64,
    ) where K: Borrow<Q>
        requires
            self.wf(),
            self.get_effect(post, name, result),
            hash_is(self.hasher(), name, hash),
            names(name, key),
        ensures
            self@.get_outcome(post@, index_part(hash), key, result),
    {
        let h1 = choose|h1: usize|
            {
                &&& #[trigger] hashes_to(self.hasher(), name, h1)
                &&& self@.get_outcome_as(post@, h1, name, result)
            };
        law_hash_decides_index(self.hasher(), name, hash, h1);
        law_names(name, key);
        self@.law_get_borrowed(post@, h1, name, key, result);
    }

    proof fn lemma_get_mut_by_hash<Q: Hash + Eq + ?Sized>(
        self,
        post: Self,
        name: &Q,
        key: K,
        result: Option<WriteGuard<V>>,
        hash: u64,
    ) where K: Borrow<Q>
        requires
            self.wf(),
            self.get_mut_effect(post, name, result),
            hash_is(self.hasher(), name, hash),
            names(name, key),
        ensures
            self@.get_mut_outcome(post@, index_part(hash), key, result),
    {
        let h1 = choose|h1: usize|
            {
                &&& #[trigger] hashes_to(self.hasher(), name, h1)
                &&& self@.get_mut_outcome_as(post@, h1, name, result)
            };
        law_hash_decides_index(self.hasher(), name, hash, h1);
        law_names(name, key);
        self@.law_get_mut_borrowed(post@, h1, name, key, result);
    }

    proof fn lemma_remove_by_hash<Q: Hash + Eq + ?Sized>(
        self,
        post: Self,
        name: &Q,
        key: K,
        result: Option<V>,
        hash: u64,
    ) where K: Borrow<Q>
        requires
            self.wf(),
            self.remove_effect(post, name, result),
            hash_is(self.hasher(), name, hash),
            names(name, key),
        ensures
            self@.remove_outcome(post@, index_part(hash), key, result),
    {
        let h1 = choose|h1: usize|
            {
                &&& #[trigger] hashes_to(self.hasher(), name, h1)
                &&& self@.remove_outcome_as(post@, h1, name, result)
            };
        law_hash_decides_index(self.hasher(), name, hash, h1);
        law_names(name, key);
        self@.law_remove_borrowed(post@, h1, name, key, result);
    }
}

impl<K: PartialEq, V: Clone> TableView<K, V> {
    /// A reader that was let in reads what the entry had to read.
    proof fn lemma_get_reads(self, post: Self, h1: usize, key: K, guard: Option<ReadGuard>)
        requires
            key_model::<K>(),
            self.wf(),
            self.get_outcome(post, h1, key, guard),
        ensures
            guard is Some == self.lookup(h1, key) is Some,
            guard is Some ==> {
                &&& post.attached(guard->0)
                &&& post.value_of(guard->0) == self.lookup(h1, key)->0.read().target
                &&& post.lookup(h1, key) == Some(self.lookup(h1, key)->0.with_reader())
            },
            guard is None ==> post == self,
    {
        if guard is Some {
            let i = self.slot_of(h1, key);
            self.lemma_lookup(i, h1, key);
            assert(self.slot_wf(i));
            self.lemma_with_entry(i, self.entry(i).with_reader());
            assert(post.holds(i, h1, key));
            post.lemma_lookup(i, h1, key);
        }
    }

    /// A writer gets the write side of the entry.
    proof fn lemma_get_mut_takes(
        self,
        post: Self,
        h1: usize,
        key: K,
        guard: Option<WriteGuard<V>>,
    )
        requires
            key_model::<K>(),
            self.wf(),
            self.get_mut_outcome(post, h1, key, guard),
        ensures
            guard is Some == self.lookup(h1, key) is Some,
            guard is Some ==> {
                &&& self.lookup(h1, key)->0.write() == Some(guard->0.side())
                &&& post.lookup(h1, key) == Some(self.lookup(h1, key)->0.locked())
            },
            guard is None ==> post == self,
    {
        if guard is Some {
            let i = self.slot_of(h1, key);
            self.lemma_lookup(i, h1, key);
            assert(self.slot_wf(i));
            self.lemma_with_entry(i, self.entry(i).locked());
            assert(post.holds(i, h1, key));
            post.lemma_lookup(i, h1, key);
        }
    }

    /// What removing gives, in terms of the entry that there was.
    proof fn lemma_remove_gives(self, post: Self, h1: usize, key: K, removed: Option<V>)
        requires
            key_model::<K>(),
            self.wf(),
            self.remove_outcome(post, h1, key, removed),
        ensures
            removed is Some == self.lookup(h1, key) is Some,
            removed is Some ==> {
                &&& self.lookup(h1, key)->0.write() is Some
                &&& cloned(self.lookup(h1, key)->0.write()->0.target, removed->0)
            },
            post.lookup(h1, key) is None,
            removed is None ==> post == self,
    {
        if removed is Some {
            self.lemma_lookup(self.slot_of(h1, key), h1, key);
            self.law_removed(post, h1, key, removed->0, key);
        }
    }
}

/// A key that was stored is found, by itself and by every name for it that
/// hashes like it, and what is read is what was stored: the value itself where
/// it replaced another one, a clone of it where the key is new.
pub proof fn law_stored_key_is_found<
    K: Eq + Hash + Borrow<Q>,
    Q: Hash + Eq + ?Sized,
    V: Clone,
    S: BuildHasher + Clone,
>(
    m: &mut JanusMap<K, V, S>,
    key: K,
    value: V,
    old_value: Option<V>,
    n: &mut JanusMap<K, V, S>,
    name: &Q,
    guard: Option<ReadGuard>,
    read: &V,
    hash: u64,
)
    requires
        old(m).wf(),
        call_ensures(JanusMap::<K, V, S>::insert, (m, key, value), old_value),
        *old(n) == *final(m),
        call_ensures(JanusMap::<K, V, S>::get::<Q>, (n, name), guard),
        guard is Some ==> call_ensures(
            ReadGuard::as_ref::<K, V, S>,
            (&guard->0, &*final(n)),
            read,
        ),
        hash_is(old(m).hasher(), &key, hash),
        hash_is(old(m).hasher(), name, hash),
        names(name, key),
    ensures
        guard is Some,
        call_requires(ReadGuard::as_ref::<K, V, S>, (&guard->0, &*final(n))),
        old_value is None ==> cloned(value, *read),
        old_value is Some ==> *read == value,
{
    let h1 = index_part(hash);
    old(m).lemma_insert_by_hash(*final(m), key, value, old_value, hash);
    old(n).lemma_get_by_hash(*final(n), name, key, guard, hash);
    old(m)@.law_entry_after_insert(final(m)@, h1, key, value, old_value, key);
    old(n)@.lemma_get_reads(final(n)@, h1, key, guard);
}

/// A key that was stored is found by its borrowed form whenever `hash_one`
/// gives the same hash for both and keys are equal exactly if their borrowed
/// forms are. The same goes for writing and for removing.
pub proof fn law_stored_key_is_found_by_its_borrowed_form<
    K: Eq + Hash + Borrow<Q>,
    Q: Hash + Eq + ?Sized,
    V: Clone,
    S: BuildHasher + Clone,
>(
    m: &mut JanusMap<K, V, S>,
    key: K,
    value: V,
    old_value: Option<V>,
    n: &mut JanusMap<K, V, S>,
    form: &Q,
    guard: Option<ReadGuard>,
    read: &V,
    p: &mut JanusMap<K, V, S>,
    writer: Option<WriteGuard<V>>,
    q: &mut JanusMap<K, V, S>,
    removed: Option<V>,
    hash: u64,
)
    requires
        old(m).wf(),
        call_ensures(JanusMap::<K, V, S>::insert, (m, key, value), old_value),
        *old(n) == *final(m),
        *old(p) == *final(m),
        *old(q) == *final(m),
        call_ensures(JanusMap::<K, V, S>::get::<Q>, (n, form), guard),
        guard is Some ==> call_ensures(
            ReadGuard::as_ref::<K, V, S>,
            (&guard->0, &*final(n)),
            read,
        ),
        call_ensures(JanusMap::<K, V, S>::get_mut::<Q>, (p, form), writer),
        call_ensures(JanusMap::<K, V, S>::remove::<Q>, (q, form), removed),
        forall|given: u64| #[trigger]
            hash_one_gives(old(m).hasher(), &key, given) ==> given == hash,
        forall|given: u64| #[trigger]
            hash_one_gives(old(m).hasher(), form, given) ==> given == hash,
        Q::obeys_eq_spec(),
        forall|a: K, b: K, a_form: &Q, b_form: &Q| #[trigger]
            borrows_as(a, a_form) && #[trigger] borrows_as(b, b_form) ==> a_form.eq_spec(b_form)
                == a.eq_spec(&b),
        borrows_as(key, form),
    ensures
        guard is Some,
        old_value is None ==> cloned(value, *read),
        old_value is Some ==> *read == value,
        writer is Some,
        removed is Some,
{
    law_borrowed_form_names_key(key, form);
    let h1 = index_part(hash);
    old(m).lemma_insert_by_hash(*final(m), key, value, old_value, hash);
    old(n).lemma_get_by_hash(*final(n), form, key, guard, hash);
    old(p).lemma_get_mut_by_hash(*final(p), form, key, writer, hash);
    old(q).lemma_remove_by_hash(*final(q), form, key, removed, hash);
    old(m)@.law_entry_after_insert(final(m)@, h1, key, value, old_value, key);
    old(n)@.lemma_get_reads(final(n)@, h1, key, guard);
}

/// Storing gives back what a writer would have found: the value in the write
/// side, or nothing where the key has no entry.
pub proof fn law_insert_gives_what_a_writer_finds<
    K: Eq + Hash + Borrow<Q>,
    Q: Hash + Eq + ?Sized,
    V: Clone,
    S: BuildHasher + Clone,
>(
    m: &mut JanusMap<K, V, S>,
    key: K,
    value: V,
    old_value: Option<V>,
    n: &mut JanusMap<K, V, S>,
    name: &Q,
    writer: Option<WriteGuard<V>>,
    found: &V,
    hash: u64,
)
    requires
        old(m).wf(),
        *old(n) == *old(m),
        call_ensures(JanusMap::<K, V, S>::insert, (m, key, value), old_value),
        call_ensures(JanusMap::<K, V, S>::get_mut::<Q>, (n, name), writer),
        writer is Some ==> call_ensures(WriteGuard::<V>::as_ref, (&writer->0,), found),
        hash_is(old(m).hasher(), &key, hash),
        hash_is(old(m).hasher(), name, hash),
        names(name, key),
    ensures
        old_value is Some == writer is Some,
        old_value is Some ==> old_value->0 == *found,
{
    let h1 = index_part(hash);
    old(m).lemma_insert_by_hash(*final(m), key, value, old_value, hash);
    old(n).lemma_get_mut_by_hash(*final(n), name, key, writer, hash);
    old(n)@.lemma_get_mut_takes(final(n)@, h1, key, writer);
    if old_value is Some {
        old(m)@.lemma_lookup(old(m)@.slot_of(h1, key), h1, key);
    }
}

/// Storing gives something back exactly if reading the key finds it.
pub proof fn law_insert_tells_whether_the_key_is_there<
    K: Eq + Hash + Borrow<Q>,
    Q: Hash + Eq + ?Sized,
    V: Clone,
    S: BuildHasher + Clone,
>(
    m: &mut JanusMap<K, V, S>,
    key: K,
    value: V,
    old_value: Option<V>,
    n: &mut JanusMap<K, V, S>,
    name: &Q,
    guard: Option<ReadGuard>,
    hash: u64,
)
    requires
        old(m).wf(),
        *old(n) == *old(m),
        call_ensures(JanusMap::<K, V, S>::insert, (m, key, value), old_value),
        call_ensures(JanusMap::<K, V, S>::get::<Q>, (n, name), guard),
        hash_is(old(m).hasher(), &key, hash),
        hash_is(old(m).hasher(), name, hash),
        names(name, key),
    ensures
        old_value is Some == guard is Some,
{
    let h1 = index_part(hash);
    old(m).lemma_insert_by_hash(*final(m), key, value, old_value, hash);
    old(n).lemma_get_by_hash(*final(n), name, key, guard, hash);
}

/// After a value was replaced, removing the key gives a clone of what reading
/// it gave before.
pub proof fn law_remove_after_replacing<
    K: Eq + Hash + Borrow<Q>,
    Q: Hash + Eq + ?Sized,
    V: Clone,
    S: BuildHasher + Clone,
>(
    m: &mut JanusMap<K, V, S>,
    key: K,
    value: V,
    old_value: V,
    a: &mut JanusMap<K, V, S>,
    name: &Q,
    before: Option<ReadGuard>,
    read: &V,
    n: &mut JanusMap<K, V, S>,
    removed: Option<V>,
    hash: u64,
)
    requires
        old(m).wf(),
        *old(a) == *old(m),
        call_ensures(JanusMap::<K, V, S>::get::<Q>, (a, name), before),
        before is Some ==> call_ensures(
            ReadGuard::as_ref::<K, V, S>,
            (&before->0, &*final(a)),
            read,
        ),
        call_ensures(JanusMap::<K, V, S>::insert, (m, key, value), Some(old_value)),
        *old(n) == *final(m),
        hash_is(old(m).hasher(), &key, hash),
        hash_is(old(m).hasher(), name, hash),
        names(name, key),
        call_ensures(JanusMap::<K, V, S>::remove::<Q>, (n, name), removed),
    ensures
        before is Some,
        removed is Some,
        cloned(*read, removed->0),
{
    let h1 = index_part(hash);
    old(m).lemma_insert_by_hash(*final(m), key, value, Some(old_value), hash);
    old(a).lemma_get_by_hash(*final(a), name, key, before, hash);
    old(a)@.lemma_get_reads(final(a)@, h1, key, before);
    old(m)@.law_entry_after_insert(final(m)@, h1, key, value, Some(old_value), key);
    old(n).lemma_remove_by_hash(*final(n), name, key, removed, hash);
    old(n)@.lemma_remove_gives(final(n)@, h1, key, removed);
}

/// After a value was replaced, the next writer finds what reading gave before.
pub proof fn law_write_after_replacing<
    K: Eq + Hash + Borrow<Q>,
    Q: Hash + Eq + ?Sized,
    V: Clone,
    S: BuildHasher + Clone,
>(
    m: &mut JanusMap<K, V, S>,
    key: K,
    value: V,
    old_value: V,
    a: &mut JanusMap<K, V, S>,
    name: &Q,
    before: Option<ReadGuard>,
    read: &V,
    n: &mut JanusMap<K, V, S>,
    writer: Option<WriteGuard<V>>,
    found: &V,
    hash: u64,
)
    requires
        old(m).wf(),
        *old(a) == *old(m),
        call_ensures(JanusMap::<K, V, S>::get::<Q>, (a, name), before),
        before is Some ==> call_ensures(
            ReadGuard::as_ref::<K, V, S>,
            (&before->0, &*final(a)),
            read,
        ),
        call_ensures(JanusMap::<K, V, S>::insert, (m, key, value), Some(old_value)),
        *old(n) == *final(m),
        hash_is(old(m).hasher(), &key, hash),
        hash_is(old(m).hasher(), name, hash),
        names(name, key),
        call_ensures(JanusMap::<K, V, S>::get_mut::<Q>, (n, name), writer),
        writer is Some ==> call_ensures(WriteGuard::<V>::as_ref, (&writer->0,), found),
    ensures
        before is Some,
        writer is Some,
        *found == *read,
{
    let h1 = index_part(hash);
    old(m).lemma_insert_by_hash(*final(m), key, value, Some(old_value), hash);
    old(a).lemma_get_by_hash(*final(a), name, key, before, hash);
    old(a)@.lemma_get_reads(final(a)@, h1, key, before);
    old(m)@.law_entry_after_insert(final(m)@, h1, key, value, Some(old_value), key);
    old(n).lemma_get_mut_by_hash(*final(n), name, key, writer, hash);
    old(n)@.lemma_get_mut_takes(final(n)@, h1, key, writer);
}

/// After a value was replaced, the next one to be stored gives back what
/// reading gave before.
pub proof fn law_insert_after_replacing<
    K: Eq + Hash + Borrow<Q>,
    Q: Hash + Eq + ?Sized,
    V: Clone,
    S: BuildHasher + Clone,
>(
    m: &mut JanusMap<K, V, S>,
    key: K,
    value: V,
    old_value: V,
    a: &mut JanusMap<K, V, S>,
    name: &Q,
    before: Option<ReadGuard>,
    read: &V,
    n: &mut JanusMap<K, V, S>,
    second: V,
    second_old: Option<V>,
    hash: u64,
)
    requires
        old(m).wf(),
        *old(a) == *old(m),
        call_ensures(JanusMap::<K, V, S>::get::<Q>, (a, name), before),
        before is Some ==> call_ensures(
            ReadGuard::as_ref::<K, V, S>,
            (&before->0, &*final(a)),
            read,
        ),
        call_ensures(JanusMap::<K, V, S>::insert, (m, key, value), Some(old_value)),
        *old(n) == *final(m),
        hash_is(old(m).hasher(), &key, hash),
        hash_is(old(m).hasher(), name, hash),
        names(name, key),
        call_ensures(JanusMap::<K, V, S>::insert, (n, key, second), second_old),
    ensures
        before is Some,
        second_old == Some(*read),
{
    let h1 = index_part(hash);
    old(m).lemma_insert_by_hash(*final(m), key, value, Some(old_value), hash);
    old(a).lemma_get_by_hash(*final(a), name, key, before, hash);
    old(a)@.lemma_get_reads(final(a)@, h1, key, before);
    old(m)@.law_entry_after_insert(final(m)@, h1, key, value, Some(old_value), key);
    old(n).lemma_insert_by_hash(*final(n), key, second, second_old, hash);
    if second_old is Some {
        old(n)@.lemma_lookup(old(n)@.slot_of(h1, key), h1, key);
    }
}

/// After a key was stored for the first time, removing it gives a clone of the
/// value.
pub proof fn law_remove_after_storing<
    K: Eq + Hash + Borrow<Q>,
    Q: Hash + Eq + ?Sized,
    V: Clone,
    S: BuildHasher + Clone,
>(
    m: &mut JanusMap<K, V, S>,
    key: K,
    value: V,
    n: &mut JanusMap<K, V, S>,
    name: &Q,
    removed: Option<V>,
    hash: u64,
)
    requires
        old(m).wf(),
        call_ensures(JanusMap::<K, V, S>::insert, (m, key, value), None::<V>),
        *old(n) == *final(m),
        hash_is(old(m).hasher(), &key, hash),
        hash_is(old(m).hasher(), name, hash),
        names(name, key),
        call_ensures(JanusMap::<K, V, S>::remove::<Q>, (n, name), removed),
    ensures
        removed is Some,
        cloned(value, removed->0),
{
    let h1 = index_part(hash);
    old(m).lemma_insert_by_hash(*final(m), key, value, None, hash);
    old(m)@.law_entry_after_insert(final(m)@, h1, key, value, None, key);
    old(n).lemma_remove_by_hash(*final(n), name, key, removed, hash);
    old(n)@.lemma_remove_gives(final(n)@, h1, key, removed);
}

/// After a key was stored for the first time, a writer finds the value.
pub proof fn law_write_after_storing<
    K: Eq + Hash + Borrow<Q>,
    Q: Hash + Eq + ?Sized,
    V: Clone,
    S: BuildHasher + Clone,
>(
    m: &mut JanusMap<K, V, S>,
    key: K,
    value: V,
    n: &mut JanusMap<K, V, S>,
    name: &Q,
    writer: Option<WriteGuard<V>>,
    found: &V,
    hash: u64,
)
    requires
        old(m).wf(),
        call_ensures(JanusMap::<K, V, S>::insert, (m, key, value), None::<V>),
        *old(n) == *final(m),
        hash_is(old(m).hasher(), &key, hash),
        hash_is(old(m).hasher(), name, hash),
        names(name, key),
        call_ensures(JanusMap::<K, V, S>::get_mut::<Q>, (n, name), writer),
        writer is Some ==> call_ensures(WriteGuard::<V>::as_ref, (&writer->0,), found),
    ensures
        writer is Some,
        *found == value,
{
    let h1 = index_part(hash);
    old(m).lemma_insert_by_hash(*final(m), key, value, None, hash);
    old(m)@.law_entry_after_insert(final(m)@, h1, key, value, None, key);
    old(n).lemma_get_mut_by_hash(*final(n), name, key, writer, hash);
    old(n)@.lemma_get_mut_takes(final(n)@, h1, key, writer);
}

/// After a key was stored for the first time, storing another value gives the
/// first one back.
pub proof fn law_insert_after_storing<K: Eq + Hash, V: Clone, S: BuildHasher + Clone>(
    m: &mut JanusMap<K, V, S>,
    key: K,
    value: V,
    n: &mut JanusMap<K, V, S>,
    second: V,
    second_old: Option<V>,
    hash: u64,
)
    requires
        old(m).wf(),
        call_ensures(JanusMap::<K, V, S>::insert, (m, key, value), None::<V>),
        *old(n) == *final(m),
        hash_is(old(m).hasher(), &key, hash),
        call_ensures(JanusMap::<K, V, S>::insert, (n, key, second), second_old),
    ensures
        second_old == Some(value),
{
    let h1 = index_part(hash);
    old(m).lemma_insert_by_hash(*final(m), key, value, None, hash);
    old(m)@.law_entry_after_insert(final(m)@, h1, key, value, None, key);
    old(n).lemma_insert_by_hash(*final(n), key, second, second_old, hash);
    if second_old is Some {
        old(n)@.lemma_lookup(old(n)@.slot_of(h1, key), h1, key);
    }
}

/// Removing gives a clone of what a writer would have found, whatever was done
/// to the key before.
pub proof fn law_remove_gives_what_a_writer_finds<
    K: Eq + Hash + Borrow<Q>,
    Q: Hash + Eq + ?Sized,
    V: Clone,
    S: BuildHasher + Clone,
>(
    m: &mut JanusMap<K, V, S>,
    n: &mut JanusMap<K, V, S>,
    name: &Q,
    key: K,
    removed: Option<V>,
    writer: Option<WriteGuard<V>>,
    found: &V,
    hash: u64,
)
    requires
        old(m).wf(),
        *old(n) == *old(m),
        call_ensures(JanusMap::<K, V, S>::remove::<Q>, (m, name), removed),
        call_ensures(JanusMap::<K, V, S>::get_mut::<Q>, (n, name), writer),
        writer is Some ==> call_ensures(WriteGuard::<V>::as_ref, (&writer->0,), found),
        hash_is(old(m).hasher(), name, hash),
        names(name, key),
    ensures
        removed is Some == writer is Some,
        removed is Some ==> cloned(*found, removed->0),
{
    let h1 = index_part(hash);
    old(m).lemma_remove_by_hash(*final(m), name, key, removed, hash);
    old(m)@.lemma_remove_gives(final(m)@, h1, key, removed);
    old(n).lemma_get_mut_by_hash(*final(n), name, key, writer, hash);
    old(n)@.lemma_get_mut_takes(final(n)@, h1, key, writer);
}

/// Removing finds a key exactly if reading does.
pub proof fn law_remove_finds_what_reading_finds<
    K: Eq + Hash + Borrow<Q>,
    Q: Hash + Eq + ?Sized,
    V: Clone,
    S: BuildHasher + Clone,
>(
    m: &mut JanusMap<K, V, S>,
    n: &mut JanusMap<K, V, S>,
    name: &Q,
    key: K,
    removed: Option<V>,
    guard: Option<ReadGuard>,
    hash: u64,
)
    requires
        old(m).wf(),
        *old(n) == *old(m),
        call_ensures(JanusMap::<K, V, S>::remove::<Q>, (m, name), removed),
        call_ensures(JanusMap::<K, V, S>::get::<Q>, (n, name), guard),
        hash_is(old(m).hasher(), name, hash),
        names(name, key),
    ensures
        removed is Some == guard is Some,
{
    let h1 = index_part(hash);
    old(m).lemma_remove_by_hash(*final(m), name, key, removed, hash);
    old(m)@.lemma_remove_gives(final(m)@, h1, key, removed);
    old(n).lemma_get_by_hash(*final(n), name, key, guard, hash);
    old(n)@.lemma_get_reads(final(n)@, h1, key, guard);
}

/// Taking up writing finds a key exactly if reading does.
pub proof fn law_writing_finds_what_reading_finds<
    K: Eq + Hash + Borrow<Q>,
    Q: Hash + Eq + ?Sized,
    V: Clone,
    S: BuildHasher + Clone,
>(
    m: &mut JanusMap<K, V, S>,
    n: &mut JanusMap<K, V, S>,
    name: &Q,
    key: K,
    writer: Option<WriteGuard<V>>,
    guard: Option<ReadGuard>,
    hash: u64,
)
    requires
        old(m).wf(),
        *old(n) == *old(m),
        call_ensures(JanusMap::<K, V, S>::get_mut::<Q>, (m, name), writer),
        call_ensures(JanusMap::<K, V, S>::get::<Q>, (n, name), guard),
        hash_is(old(m).hasher(), name, hash),
        names(name, key),
    ensures
        writer is Some == guard is Some,
{
    let h1 = index_part(hash);
    old(m).lemma_get_mut_by_hash(*final(m), name, key, writer, hash);
    old(m)@.lemma_get_mut_takes(final(m)@, h1, key, writer);
    old(n).lemma_get_by_hash(*final(n), name, key, guard, hash);
    old(n)@.lemma_get_reads(final(n)@, h1, key, guard);
}

/// A key that was removed is found by nothing any more, and storing it again
/// gives nothing back.
pub proof fn law_removed_key_is_gone<
    K: Eq + Hash + Borrow<Q>,
    Q: Hash + Eq + ?Sized,
    V: Clone,
    S: BuildHasher + Clone,
>(
    m: &mut JanusMap<K, V, S>,
    name: &Q,
    key: K,
    removed: Option<V>,
    n: &mut JanusMap<K, V, S>,
    guard: Option<ReadGuard>,
    p: &mut JanusMap<K, V, S>,
    writer: Option<WriteGuard<V>>,
    q: &mut JanusMap<K, V, S>,
    again: Option<V>,
    s: &mut JanusMap<K, V, S>,
    value: V,
    old_value: Option<V>,
    hash: u64,
)
    requires
        old(m).wf(),
        call_ensures(JanusMap::<K, V, S>::remove::<Q>, (m, name), removed),
        *old(n) == *final(m),
        *old(p) == *final(m),
        *old(q) == *final(m),
        *old(s) == *final(m),
        call_ensures(JanusMap::<K, V, S>::get::<Q>, (n, name), guard),
        call_ensures(JanusMap::<K, V, S>::get_mut::<Q>, (p, name), writer),
        call_ensures(JanusMap::<K, V, S>::remove::<Q>, (q, name), again),
        call_ensures(JanusMap::<K, V, S>::insert, (s, key, value), old_value),
        hash_is(old(m).hasher(), &key, hash),
        hash_is(old(m).hasher(), name, hash),
        names(name, key),
    ensures
        guard is None,
        writer is None,
        again is None,
        old_value is None,
{
    let h1 = index_part(hash);
    old(m).lemma_remove_by_hash(*final(m), name, key, removed, hash);
    old(m)@.lemma_remove_gives(final(m)@, h1, key, removed);
    old(n).lemma_get_by_hash(*final(n), name, key, guard, hash);
    old(n)@.lemma_get_reads(final(n)@, h1, key, guard);
    old(p).lemma_get_mut_by_hash(*final(p), name, key, writer, hash);
    old(p)@.lemma_get_mut_takes(final(p)@, h1, key, writer);
    old(q).lemma_remove_by_hash(*final(q), name, key, again, hash);
    old(q)@.lemma_remove_gives(final(q)@, h1, key, again);
    old(s).lemma_insert_by_hash(*final(s), key, value, old_value, hash);
}

/// When a writer ends, readers get the value that it leaves.
pub proof fn law_reading_after_writing<
    K: Eq + Hash + Borrow<Q>,
    Q: Hash + Eq + ?Sized,
    V: Clone,
    S: BuildHasher + Clone,
>(
    m: &mut JanusMap<K, V, S>,
    name: &Q,
    key: K,
    a: &mut JanusMap<K, V, S>,
    before: Option<ReadGuard>,
    read: &V,
    taken: WriteGuard<V>,
    given: WriteGuard<V>,
    n: &mut JanusMap<K, V, S>,
    p: &mut JanusMap<K, V, S>,
    guard: Option<ReadGuard>,
    after: &V,
    hash: u64,
)
    requires
        old(m).wf(),
        *old(a) == *old(m),
        call_ensures(JanusMap::<K, V, S>::get::<Q>, (a, name), before),
        before is Some ==> call_ensures(
            ReadGuard::as_ref::<K, V, S>,
            (&before->0, &*final(a)),
            read,
        ),
        call_ensures(JanusMap::<K, V, S>::get_mut::<Q>, (m, name), Some(taken)),
        *old(n) == *final(m),
        given.slot() == taken.slot(),
        given.side().readers == taken.side().readers,
        call_ensures(JanusMap::<K, V, S>::release_write, (n, given), ()),
        hash_is(old(m).hasher(), name, hash),
        names(name, key),
        *old(p) == *final(n),
        call_ensures(JanusMap::<K, V, S>::get::<Q>, (p, name), guard),
        guard is Some ==> call_ensures(
            ReadGuard::as_ref::<K, V, S>,
            (&guard->0, &*final(p)),
            after,
        ),
    ensures
        before is Some,
        guard is Some,
        *after == given.value(),
{
    let h1 = index_part(hash);
    old(m).lemma_get_mut_by_hash(*final(m), name, key, Some(taken), hash);
    old(m)@.lemma_get_mut_takes(final(m)@, h1, key, Some(taken));
    old(a).lemma_get_by_hash(*final(a), name, key, before, hash);
    old(a)@.lemma_get_reads(final(a)@, h1, key, before);
    old(m)@.law_one_writer(final(m)@, h1, key, taken);
    old(m)@.law_write_shows(final(m)@, final(n)@, h1, key, taken, given);
    old(p).lemma_get_by_hash(*final(p), name, key, guard, hash);
    old(p)@.lemma_get_reads(final(p)@, h1, key, guard);
}

/// When a writer ends, the next one gets what readers had before.
pub proof fn law_writing_after_writing<
    K: Eq + Hash + Borrow<Q>,
    Q: Hash + Eq + ?Sized,
    V: Clone,
    S: BuildHasher + Clone,
>(
    m: &mut JanusMap<K, V, S>,
    name: &Q,
    key: K,
    a: &mut JanusMap<K, V, S>,
    before: Option<ReadGuard>,
    read: &V,
    taken: WriteGuard<V>,
    given: WriteGuard<V>,
    n: &mut JanusMap<K, V, S>,
    p: &mut JanusMap<K, V, S>,
    writer: Option<WriteGuard<V>>,
    found: &V,
    hash: u64,
)
    requires
        old(m).wf(),
        *old(a) == *old(m),
        call_ensures(JanusMap::<K, V, S>::get::<Q>, (a, name), before),
        before is Some ==> call_ensures(
            ReadGuard::as_ref::<K, V, S>,
            (&before->0, &*final(a)),
            read,
        ),
        call_ensures(JanusMap::<K, V, S>::get_mut::<Q>, (m, name), Some(taken)),
        *old(n) == *final(m),
        given.slot() == taken.slot(),
        given.side().readers == taken.side().readers,
        call_ensures(JanusMap::<K, V, S>::release_write, (n, given), ()),
        hash_is(old(m).hasher(), name, hash),
        names(name, key),
        *old(p) == *final(n),
        call_ensures(JanusMap::<K, V, S>::get_mut::<Q>, (p, name), writer),
        writer is Some ==> call_ensures(WriteGuard::<V>::as_ref, (&writer->0,), found),
    ensures
        before is Some,
        writer is Some,
        *found == *read,
{
    let h1 = index_part(hash);
    old(m).lemma_get_mut_by_hash(*final(m), name, key, Some(taken), hash);
    old(m)@.lemma_get_mut_takes(final(m)@, h1, key, Some(taken));
    old(a).lemma_get_by_hash(*final(a), name, key, before, hash);
    old(a)@.lemma_get_reads(final(a)@, h1, key, before);
    old(m)@.law_one_writer(final(m)@, h1, key, taken);
    old(m)@.law_write_shows(final(m)@, final(n)@, h1, key, taken, given);
    old(p).lemma_get_mut_by_hash(*final(p), name, key, writer, hash);
    old(p)@.lemma_get_mut_takes(final(p)@, h1, key, writer);
}

/// When a writer ends, removing the key gives a clone of what readers had before.
pub proof fn law_remove_after_writing<
    K: Eq + Hash + Borrow<Q>,
    Q: Hash + Eq + ?Sized,
    V: Clone,
    S: BuildHasher + Clone,
>(
    m: &mut JanusMap<K, V, S>,
    name: &Q,
    key: K,
    a: &mut JanusMap<K, V, S>,
    before: Option<ReadGuard>,
    read: &V,
    taken: WriteGuard<V>,
    given: WriteGuard<V>,
    n: &mut JanusMap<K, V, S>,
    p: &mut JanusMap<K, V, S>,
    removed: Option<V>,
    hash: u64,
)
    requires
        old(m).wf(),
        *old(a) == *old(m),
        call_ensures(JanusMap::<K, V, S>::get::<Q>, (a, name), before),
        before is Some ==> call_ensures(
            ReadGuard::as_ref::<K, V, S>,
            (&before->0, &*final(a)),
            read,
        ),
        call_ensures(JanusMap::<K, V, S>::get_mut::<Q>, (m, name), Some(taken)),
        *old(n) == *final(m),
        given.slot() == taken.slot(),
        given.side().readers == taken.side().readers,
        call_ensures(JanusMap::<K, V, S>::release_write, (n, given), ()),
        hash_is(old(m).hasher(), name, hash),
        names(name, key),
        *old(p) == *final(n),
        call_ensures(JanusMap::<K, V, S>::remove::<Q>, (p, name), removed),
    ensures
        before is Some,
        removed is Some,
        cloned(*read, removed->0),
{
    let h1 = index_part(hash);
    old(m).lemma_get_mut_by_hash(*final(m), name, key, Some(taken), hash);
    old(m)@.lemma_get_mut_takes(final(m)@, h1, key, Some(taken));
    old(a).lemma_get_by_hash(*final(a), name, key, before, hash);
    old(a)@.lemma_get_reads(final(a)@, h1, key, before);
    old(m)@.law_one_writer(final(m)@, h1, key, taken);
    old(m)@.law_write_shows(final(m)@, final(n)@, h1, key, taken, given);
    old(p).lemma_remove_by_hash(*final(p), name, key, removed, hash);
    old(p)@.lemma_remove_gives(final(p)@, h1, key, removed);
}

/// While a writer is at work, readers get what they got before.
pub proof fn law_reading_while_writing<
    K: Eq + Hash + Borrow<Q>,
    Q: Hash + Eq + ?Sized,
    V: Clone,
    S: BuildHasher + Clone,
>(
    m: &mut JanusMap<K, V, S>,
    name: &Q,
    key: K,
    a: &mut JanusMap<K, V, S>,
    before: Option<ReadGuard>,
    read: &V,
    taken: Option<WriteGuard<V>>,
    n: &mut JanusMap<K, V, S>,
    guard: Option<ReadGuard>,
    during: &V,
    hash: u64,
)
    requires
        old(m).wf(),
        *old(a) == *old(m),
        call_ensures(JanusMap::<K, V, S>::get::<Q>, (a, name), before),
        before is Some ==> call_ensures(
            ReadGuard::as_ref::<K, V, S>,
            (&before->0, &*final(a)),
            read,
        ),
        call_ensures(JanusMap::<K, V, S>::get_mut::<Q>, (m, name), taken),
        *old(n) == *final(m),
        call_ensures(JanusMap::<K, V, S>::get::<Q>, (n, name), guard),
        guard is Some ==> call_ensures(
            ReadGuard::as_ref::<K, V, S>,
            (&guard->0, &*final(n)),
            during,
        ),
        hash_is(old(m).hasher(), name, hash),
        names(name, key),
    ensures
        guard is Some == before is Some,
        guard is Some ==> *during == *read,
{
    let h1 = index_part(hash);
    old(m).lemma_get_mut_by_hash(*final(m), name, key, taken, hash);
    old(m)@.lemma_get_mut_takes(final(m)@, h1, key, taken);
    old(a).lemma_get_by_hash(*final(a), name, key, before, hash);
    old(a)@.lemma_get_reads(final(a)@, h1, key, before);
    old(n).lemma_get_by_hash(*final(n), name, key, guard, hash);
    old(n)@.lemma_get_reads(final(n)@, h1, key, guard);
}

/// A reader changes nothing of what reading and storing give.
pub proof fn law_reading_changes_no_value<
    K: Eq + Hash + Borrow<Q>,
    Q: Hash + Eq + ?Sized,
    V: Clone,
    S: BuildHasher + Clone,
>(
    m: &mut JanusMap<K, V, S>,
    name: &Q,
    key: K,
    first: Option<ReadGuard>,
    read: &V,
    n: &mut JanusMap<K, V, S>,
    second: Option<ReadGuard>,
    again: &V,
    a: &mut JanusMap<K, V, S>,
    value: V,
    old_value: Option<V>,
    p: &mut JanusMap<K, V, S>,
    old_after: Option<V>,
    hash: u64,
)
    requires
        old(m).wf(),
        call_ensures(JanusMap::<K, V, S>::get::<Q>, (m, name), first),
        first is Some ==> call_ensures(
            ReadGuard::as_ref::<K, V, S>,
            (&first->0, &*final(m)),
            read,
        ),
        *old(n) == *final(m),
        call_ensures(JanusMap::<K, V, S>::get::<Q>, (n, name), second),
        second is Some ==> call_ensures(
            ReadGuard::as_ref::<K, V, S>,
            (&second->0, &*final(n)),
            again,
        ),
        *old(a) == *old(m),
        call_ensures(JanusMap::<K, V, S>::insert, (a, key, value), old_value),
        *old(p) == *final(m),
        call_ensures(JanusMap::<K, V, S>::insert, (p, key, value), old_after),
        hash_is(old(m).hasher(), &key, hash),
        hash_is(old(m).hasher(), name, hash),
        names(name, key),
    ensures
        first is Some == second is Some,
        first is Some ==> *read == *again,
        old_after == old_value,
{
    let h1 = index_part(hash);
    old(m).lemma_get_by_hash(*final(m), name, key, first, hash);
    old(m)@.lemma_get_reads(final(m)@, h1, key, first);
    old(n).lemma_get_by_hash(*final(n), name, key, second, hash);
    old(n)@.lemma_get_reads(final(n)@, h1, key, second);
    old(a).lemma_insert_by_hash(*final(a), key, value, old_value, hash);
    old(p).lemma_insert_by_hash(*final(p), key, value, old_after, hash);
    if old_value is Some {
        old(a)@.lemma_lookup(old(a)@.slot_of(h1, key), h1, key);
        assert(old(a)@.slot_wf(old(a)@.slot_of(h1, key)));
    }
    if old_after is Some {
        old(p)@.lemma_lookup(old(p)@.slot_of(h1, key), h1, key);
    }
}

/// A key that is new adds one to the number of entries; a key that is there does not.
pub proof fn law_len_after_insert<K: Eq + Hash, V: Clone, S: BuildHasher + Clone>(
    m: &mut JanusMap<K, V, S>,
    key: K,
    value: V,
    old_value: Option<V>,
    before: usize,
    after: usize,
)
    requires
        old(m).wf(),
        call_ensures(JanusMap::<K, V, S>::len, (&*old(m),), before),
        call_ensures(JanusMap::<K, V, S>::len, (&*final(m),), after),
        call_ensures(JanusMap::<K, V, S>::insert, (m, key, value), old_value),
    ensures
        old_value is None ==> after == before + 1,
        old_value is Some ==> after == before,
{
    old(m).law_insert_is_an_operation(*final(m), key, value, old_value);
    let h1 = choose|h1: usize|
        #[trigger] old(m)@.performs(
            final(m)@,
            Operation::Insert { h1, key, value, old_value },
        );
    old(m)@.law_len(final(m)@, Operation::Insert { h1, key, value, old_value });
}

/// A key that is removed takes one from the number of entries; one that is not there does not.
pub proof fn law_len_after_remove<
    K: Eq + Hash + Borrow<Q>,
    Q: Hash + Eq + ?Sized,
    V: Clone,
    S: BuildHasher + Clone,
>(
    m: &mut JanusMap<K, V, S>,
    name: &Q,
    removed: Option<V>,
    before: usize,
    after: usize,
)
    requires
        old(m).wf(),
        call_ensures(JanusMap::<K, V, S>::len, (&*old(m),), before),
        call_ensures(JanusMap::<K, V, S>::len, (&*final(m),), after),
        call_ensures(JanusMap::<K, V, S>::remove::<Q>, (m, name), removed),
    ensures
        removed is Some ==> after == before - 1,
        removed is None ==> after == before,
{
    old(m).law_remove_is_an_operation(*final(m), name, removed);
    if removed is Some {
        let (h1, key) = choose|h1: usize, key: K|
            #[trigger] old(m)@.performs(
                final(m)@,
                Operation::Remove { h1, key, removed },
            );
        old(m)@.law_len(final(m)@, Operation::Remove { h1, key, removed });
    }
}

/// Readers and writers that come and go do not change the number of entries.
pub proof fn law_len_after_guards<
    K: Eq + Hash + Borrow<Q>,
    Q: Hash + Eq + ?Sized,
    V: Clone,
    S: BuildHasher + Clone,
>(
    m: &mut JanusMap<K, V, S>,
    name: &Q,
    guard: Option<ReadGuard>,
    n: &mut JanusMap<K, V, S>,
    writer: Option<WriteGuard<V>>,
    p: &mut JanusMap<K, V, S>,
    reader: ReadGuard,
    q: &mut JanusMap<K, V, S>,
    given: WriteGuard<V>,
    before: usize,
    counts: (usize, usize, usize, usize),
)
    requires
        old(m).wf(),
        *old(n) == *old(m),
        *old(p) == *old(m),
        *old(q) == *old(m),
        call_ensures(JanusMap::<K, V, S>::get::<Q>, (m, name), guard),
        call_ensures(JanusMap::<K, V, S>::get_mut::<Q>, (n, name), writer),
        old(p)@.attached(reader),
        call_ensures(JanusMap::<K, V, S>::release_read, (p, reader), ()),
        old(q)@.writing(given),
        call_ensures(JanusMap::<K, V, S>::release_write, (q, given), ()),
        call_ensures(JanusMap::<K, V, S>::len, (&*old(m),), before),
        call_ensures(JanusMap::<K, V, S>::len, (&*final(m),), counts.0),
        call_ensures(JanusMap::<K, V, S>::len, (&*final(n),), counts.1),
        call_ensures(JanusMap::<K, V, S>::len, (&*final(p),), counts.2),
        call_ensures(JanusMap::<K, V, S>::len, (&*final(q),), counts.3),
    ensures
        counts == (before, before, before, before),
{
    old(m).law_get_is_an_operation(*final(m), name, guard);
    old(n).law_get_mut_is_an_operation(*final(n), name, writer);
    if guard is Some {
        let (h1, key) = choose|h1: usize, key: K|
            #[trigger] old(m)@.performs(
                final(m)@,
                Operation::Get { h1, key, found: guard },
            );
        old(m)@.law_len(final(m)@, Operation::Get { h1, key, found: guard });
    }
    if writer is Some {
        let (h1, key) = choose|h1: usize, key: K|
            #[trigger] old(n)@.performs(
                final(n)@,
                Operation::GetMut { h1, key, taken: writer },
            );
        old(n)@.law_len(final(n)@, Operation::GetMut { h1, key, taken: writer });
    }
    old(p)@.law_len(final(p)@, Operation::ReleaseRead { reader });
    old(q)@.law_len(final(q)@, Operation::ReleaseWrite { writer: given });
}

/// A map is empty exactly if it has no entries.
pub proof fn law_is_empty<K: Eq + Hash, V: Clone, S: BuildHasher + Clone>(
    m: &JanusMap<K, V, S>,
    len: usize,
    empty: bool,
)
    requires
        m.wf(),
        call_ensures(JanusMap::<K, V, S>::len, (m,), len),
        call_ensures(JanusMap::<K, V, S>::is_empty, (m,), empty),
    ensures
        empty == (len == 0),
        empty <==> forall|i: int| 0 <= i < m@.meta.len() ==> #[trigger] m@.entries[i] is None,
{
    m@.lemma_empty();
    if len == 0 {
        assert forall|i: int| 0 <= i < m@.meta.len() implies #[trigger] m@.entries[i] is None by {
            if m@.live(i) {
                assert(m@.holds(i, m@.entry(i).hash, m@.entry(i).key));
                assert(m@.contains(m@.entry(i).hash, m@.entry(i).key));
            }
        }
    } else {
        let (h1, key) = choose|h1: usize, key: K| #[trigger] m@.contains(h1, key);
        assert(m@.entries[m@.slot_of(h1, key)] is Some);
    }
}

/// Storing a value changes nothing of what reading and storing other keys give.
pub proof fn law_insert_leaves_others<
    K: Eq + Hash + Borrow<P> + Borrow<Q>,
    P: Hash + Eq + ?Sized,
    Q: Hash + Eq + ?Sized,
    V: Clone,
    S: BuildHasher + Clone,
>(
    m: &mut JanusMap<K, V, S>,
    key: K,
    value: V,
    old_value: Option<V>,
    other: K,
    other_name: &P,
    a: &mut JanusMap<K, V, S>,
    before: Option<ReadGuard>,
    read: &V,
    b: &mut JanusMap<K, V, S>,
    after: Option<ReadGuard>,
    again: &V,
    p: &mut JanusMap<K, V, S>,
    q: &mut JanusMap<K, V, S>,
    value_for_other: V,
    old_before: Option<V>,
    old_after: Option<V>,
    hash: u64,
    other_hash: u64,
)
    requires
        old(m).wf(),
        call_ensures(JanusMap::<K, V, S>::insert, (m, key, value), old_value),
        hash_is(old(m).hasher(), &key, hash),
        !key.eq_spec(&other),
        *old(a) == *old(m),
        *old(b) == *final(m),
        *old(p) == *old(m),
        *old(q) == *final(m),
        call_ensures(JanusMap::<K, V, S>::get::<P>, (a, other_name), before),
        before is Some ==> call_ensures(
            ReadGuard::as_ref::<K, V, S>,
            (&before->0, &*final(a)),
            read,
        ),
        call_ensures(JanusMap::<K, V, S>::get::<P>, (b, other_name), after),
        after is Some ==> call_ensures(
            ReadGuard::as_ref::<K, V, S>,
            (&after->0, &*final(b)),
            again,
        ),
        call_ensures(JanusMap::<K, V, S>::insert, (p, other, value_for_other), old_before),
        call_ensures(JanusMap::<K, V, S>::insert, (q, other, value_for_other), old_after),
        hash_is(old(m).hasher(), &other, other_hash),
        hash_is(old(m).hasher(), other_name, other_hash),
        names(other_name, other),
    ensures
        before is Some == after is Some,
        before is Some ==> *read == *again,
        old_before == old_after,
{
    let h2 = index_part(other_hash);
    let h1 = index_part(hash);
    old(m).lemma_insert_by_hash(*final(m), key, value, old_value, hash);
    old(m)@.law_other_keys(final(m)@, Operation::Insert { h1, key, value, old_value }, h2, other);
    old(a).lemma_get_by_hash(*final(a), other_name, other, before, other_hash);
    old(a)@.lemma_get_reads(final(a)@, h2, other, before);
    old(b).lemma_get_by_hash(*final(b), other_name, other, after, other_hash);
    old(b)@.lemma_get_reads(final(b)@, h2, other, after);
    old(p).lemma_insert_by_hash(*final(p), other, value_for_other, old_before, other_hash);
    old(q).lemma_insert_by_hash(*final(q), other, value_for_other, old_after, other_hash);
}

/// Removing a key changes nothing of what reading and storing other keys give.
pub proof fn law_remove_leaves_others<
    K: Eq + Hash + Borrow<P> + Borrow<Q>,
    P: Hash + Eq + ?Sized,
    Q: Hash + Eq + ?Sized,
    V: Clone,
    S: BuildHasher + Clone,
>(
    m: &mut JanusMap<K, V, S>,
    name: &Q,
    key: K,
    removed: Option<V>,
    other: K,
    other_name: &P,
    a: &mut JanusMap<K, V, S>,
    before: Option<ReadGuard>,
    read: &V,
    b: &mut JanusMap<K, V, S>,
    after: Option<ReadGuard>,
    again: &V,
    p: &mut JanusMap<K, V, S>,
    q: &mut JanusMap<K, V, S>,
    value_for_other: V,
    old_before: Option<V>,
    old_after: Option<V>,
    hash: u64,
    other_hash: u64,
)
    requires
        old(m).wf(),
        call_ensures(JanusMap::<K, V, S>::remove::<Q>, (m, name), removed),
        hash_is(old(m).hasher(), name, hash),
        names(name, key),
        !key.eq_spec(&other),
        *old(a) == *old(m),
        *old(b) == *final(m),
        *old(p) == *old(m),
        *old(q) == *final(m),
        call_ensures(JanusMap::<K, V, S>::get::<P>, (a, other_name), before),
        before is Some ==> call_ensures(
            ReadGuard::as_ref::<K, V, S>,
            (&before->0, &*final(a)),
            read,
        ),
        call_ensures(JanusMap::<K, V, S>::get::<P>, (b, other_name), after),
        after is Some ==> call_ensures(
            ReadGuard::as_ref::<K, V, S>,
            (&after->0, &*final(b)),
            again,
        ),
        call_ensures(JanusMap::<K, V, S>::insert, (p, other, value_for_other), old_before),
        call_ensures(JanusMap::<K, V, S>::insert, (q, other, value_for_other), old_after),
        hash_is(old(m).hasher(), &other, other_hash),
        hash_is(old(m).hasher(), other_name, other_hash),
        names(other_name, other),
    ensures
        before is Some == after is Some,
        before is Some ==> *read == *again,
        old_before == old_after,
{
    let h2 = index_part(other_hash);
    let h1 = index_part(hash);
    old(m).lemma_remove_by_hash(*final(m), name, key, removed, hash);
    old(m)@.law_other_keys(final(m)@, Operation::Remove { h1, key, removed }, h2, other);
    old(a).lemma_get_by_hash(*final(a), other_name, other, before, other_hash);
    old(a)@.lemma_get_reads(final(a)@, h2, other, before);
    old(b).lemma_get_by_hash(*final(b), other_name, other, after, other_hash);
    old(b)@.lemma_get_reads(final(b)@, h2, other, after);
    old(p).lemma_insert_by_hash(*final(p), other, value_for_other, old_before, other_hash);
    old(q).lemma_insert_by_hash(*final(q), other, value_for_other, old_after, other_hash);
}

/// Reading a key changes nothing of what reading and storing other keys give.
pub proof fn law_get_leaves_others<
    K: Eq + Hash + Borrow<P> + Borrow<Q>,
    P: Hash + Eq + ?Sized,
    Q: Hash + Eq + ?Sized,
    V: Clone,
    S: BuildHasher + Clone,
>(
    m: &mut JanusMap<K, V, S>,
    name: &Q,
    key: K,
    guard: Option<ReadGuard>,
    other: K,
    other_name: &P,
    a: &mut JanusMap<K, V, S>,
    before: Option<ReadGuard>,
    read: &V,
    b: &mut JanusMap<K, V, S>,
    after: Option<ReadGuard>,
    again: &V,
    p: &mut JanusMap<K, V, S>,
    q: &mut JanusMap<K, V, S>,
    value_for_other: V,
    old_before: Option<V>,
    old_after: Option<V>,
    hash: u64,
    other_hash: u64,
)
    requires
        old(m).wf(),
        call_ensures(JanusMap::<K, V, S>::get::<Q>, (m, name), guard),
        hash_is(old(m).hasher(), name, hash),
        names(name, key),
        !key.eq_spec(&other),
        *old(a) == *old(m),
        *old(b) == *final(m),
        *old(p) == *old(m),
        *old(q) == *final(m),
        call_ensures(JanusMap::<K, V, S>::get::<P>, (a, other_name), before),
        before is Some ==> call_ensures(
            ReadGuard::as_ref::<K, V, S>,
            (&before->0, &*final(a)),
            read,
        ),
        call_ensures(JanusMap::<K, V, S>::get::<P>, (b, other_name), after),
        after is Some ==> call_ensures(
            ReadGuard::as_ref::<K, V, S>,
            (&after->0, &*final(b)),
            again,
        ),
        call_ensures(JanusMap::<K, V, S>::insert, (p, other, value_for_other), old_before),
        call_ensures(JanusMap::<K, V, S>::insert, (q, other, value_for_other), old_after),
        hash_is(old(m).hasher(), &other, other_hash),
        hash_is(old(m).hasher(), other_name, other_hash),
        names(other_name, other),
    ensures
        before is Some == after is Some,
        before is Some ==> *read == *again,
        old_before == old_after,
{
    let h2 = index_part(other_hash);
    let h1 = index_part(hash);
    old(m).lemma_get_by_hash(*final(m), name, key, guard, hash);
    old(m)@.law_other_keys(final(m)@, Operation::Get { h1, key, found: guard }, h2, other);
    old(a).lemma_get_by_hash(*final(a), other_name, other, before, other_hash);
    old(a)@.lemma_get_reads(final(a)@, h2, other, before);
    old(b).lemma_get_by_hash(*final(b), other_name, other, after, other_hash);
    old(b)@.lemma_get_reads(final(b)@, h2, other, after);
    old(p).lemma_insert_by_hash(*final(p), other, value_for_other, old_before, other_hash);
    old(q).lemma_insert_by_hash(*final(q), other, value_for_other, old_after, other_hash);
}

/// Taking up writing on a key changes nothing of what reading and storing other keys
/// give.
pub proof fn law_get_mut_leaves_others<
    K: Eq + Hash + Borrow<P> + Borrow<Q>,
    P: Hash + Eq + ?Sized,
    Q: Hash + Eq + ?Sized,
    V: Clone,
    S: BuildHasher + Clone,
>(
    m: &mut JanusMap<K, V, S>,
    name: &Q,
    key: K,
    guard: Option<WriteGuard<V>>,
    other: K,
    other_name: &P,
    a: &mut JanusMap<K, V, S>,
    before: Option<ReadGuard>,
    read: &V,
    b: &mut JanusMap<K, V, S>,
    after: Option<ReadGuard>,
    again: &V,
    p: &mut JanusMap<K, V, S>,
    q: &mut JanusMap<K, V, S>,
    value_for_other: V,
    old_before: Option<V>,
    old_after: Option<V>,
    hash: u64,
    other_hash: u64,
)
    requires
        old(m).wf(),
        call_ensures(JanusMap::<K, V, S>::get_mut::<Q>, (m, name), guard),
        hash_is(old(m).hasher(), name, hash),
        names(name, key),
        !key.eq_spec(&other),
        *old(a) == *old(m),
        *old(b) == *final(m),
        *old(p) == *old(m),
        *old(q) == *final(m),
        call_ensures(JanusMap::<K, V, S>::get::<P>, (a, other_name), before),
        before is Some ==> call_ensures(
            ReadGuard::as_ref::<K, V, S>,
            (&before->0, &*final(a)),
            read,
        ),
        call_ensures(JanusMap::<K, V, S>::get::<P>, (b, other_name), after),
        after is Some ==> call_ensures(
            ReadGuard::as_ref::<K, V, S>,
            (&after->0, &*final(b)),
            again,
        ),
        call_ensures(JanusMap::<K, V, S>::insert, (p, other, value_for_other), old_before),
        call_ensures(JanusMap::<K, V, S>::insert, (q, other, value_for_other), old_after),
        hash_is(old(m).hasher(), &other, other_hash),
        hash_is(old(m).hasher(), other_name, other_hash),
        names(other_name, other),
    ensures
        before is Some == after is Some,
        before is Some ==> *read == *again,
        old_before == old_after,
{
    let h2 = index_part(other_hash);
    let h1 = index_part(hash);
    old(m).lemma_get_mut_by_hash(*final(m), name, key, guard, hash);
    old(m)@.law_other_keys(final(m)@, Operation::GetMut { h1, key, taken: guard }, h2, other);
    old(a).lemma_get_by_hash(*final(a), other_name, other, before, other_hash);
    old(a)@.lemma_get_reads(final(a)@, h2, other, before);
    old(b).lemma_get_by_hash(*final(b), other_name, other, after, other_hash);
    old(b)@.lemma_get_reads(final(b)@, h2, other, after);
    old(p).lemma_insert_by_hash(*final(p), other, value_for_other, old_before, other_hash);
    old(q).lemma_insert_by_hash(*final(q), other, value_for_other, old_after, other_hash);
}

/// Writing a key from start to end changes nothing of what reading and storing other
/// keys give.
pub proof fn law_writing_leaves_others<
    K: Eq + Hash + Borrow<P> + Borrow<Q>,
    P: Hash + Eq + ?Sized,
    Q: Hash + Eq + ?Sized,
    V: Clone,
    S: BuildHasher + Clone,
>(
    m: &mut JanusMap<K, V, S>,
    name: &Q,
    key: K,
    taken: WriteGuard<V>,
    given: WriteGuard<V>,
    n: &mut JanusMap<K, V, S>,
    other: K,
    other_name: &P,
    a: &mut JanusMap<K, V, S>,
    before: Option<ReadGuard>,
    read: &V,
    b: &mut JanusMap<K, V, S>,
    after: Option<ReadGuard>,
    again: &V,
    p: &mut JanusMap<K, V, S>,
    q: &mut JanusMap<K, V, S>,
    value_for_other: V,
    old_before: Option<V>,
    old_after: Option<V>,
    hash: u64,
    other_hash: u64,
)
    requires
        old(m).wf(),
        call_ensures(JanusMap::<K, V, S>::get_mut::<Q>, (m, name), Some(taken)),
        *old(n) == *final(m),
        given.slot() == taken.slot(),
        given.side().readers == taken.side().readers,
        call_ensures(JanusMap::<K, V, S>::release_write, (n, given), ()),
        hash_is(old(m).hasher(), name, hash),
        names(name, key),
        !key.eq_spec(&other),
        *old(a) == *old(m),
        *old(b) == *final(n),
        *old(p) == *old(m),
        *old(q) == *final(n),
        call_ensures(JanusMap::<K, V, S>::get::<P>, (a, other_name), before),
        before is Some ==> call_ensures(
            ReadGuard::as_ref::<K, V, S>,
            (&before->0, &*final(a)),
            read,
        ),
        call_ensures(JanusMap::<K, V, S>::get::<P>, (b, other_name), after),
        after is Some ==> call_ensures(
            ReadGuard::as_ref::<K, V, S>,
            (&after->0, &*final(b)),
            again,
        ),
        call_ensures(JanusMap::<K, V, S>::insert, (p, other, value_for_other), old_before),
        call_ensures(JanusMap::<K, V, S>::insert, (q, other, value_for_other), old_after),
        hash_is(old(m).hasher(), &other, other_hash),
        hash_is(old(m).hasher(), other_name, other_hash),
        names(other_name, other),
    ensures
        before is Some == after is Some,
        before is Some ==> *read == *again,
        old_before == old_after,
{
    let h2 = index_part(other_hash);
    let h1 = index_part(hash);
    old(m).lemma_get_mut_by_hash(*final(m), name, key, Some(taken), hash);
    old(m)@.law_other_keys(final(m)@, Operation::GetMut { h1, key, taken: Some(taken) }, h2, other);
    old(m)@.law_one_writer(final(m)@, h1, key, taken);
    old(m)@.lemma_keys_in_one_slot(final(m)@, h1, key, taken, h2, other);
    old(n)@.law_other_keys(final(n)@, Operation::ReleaseWrite { writer: given }, h2, other);
    old(a).lemma_get_by_hash(*final(a), other_name, other, before, other_hash);
    old(a)@.lemma_get_reads(final(a)@, h2, other, before);
    old(b).lemma_get_by_hash(*final(b), other_name, other, after, other_hash);
    old(b)@.lemma_get_reads(final(b)@, h2, other, after);
    old(p).lemma_insert_by_hash(*final(p), other, value_for_other, old_before, other_hash);
    old(q).lemma_insert_by_hash(*final(q), other, value_for_other, old_after, other_hash);
}

impl<K: PartialEq, V: Clone> TableView<K, V> {
    /// The slot that is being written for one key is that of no other key.
    proof fn lemma_keys_in_one_slot(
        self,
        post: Self,
        h1: usize,
        key: K,
        taken: WriteGuard<V>,
        other_h1: usize,
        other: K,
    )
        requires
            key_model::<K>(),
            self.wf(),
            self.get_mut_outcome(post, h1, key, Some(taken)),
            !key.eq_spec(&other),
        ensures
            !post.holds(taken.slot(), other_h1, other),
    {
        reveal(obeys_eq_spec_properties);
        let i = self.slot_of(h1, key);
        self.lemma_lookup(i, h1, key);
        if post.holds(i, other_h1, other) {
            assert(self.entry(i).key.eq_spec(&other));
            assert(key.eq_spec(&self.entry(i).key));
        }
    }
}

/// Giving a reader up changes nothing of what reading and storing any key give.
pub proof fn law_release_read_changes_no_value<
    K: Eq + Hash + Borrow<Q>,
    Q: Hash + Eq + ?Sized,
    V: Clone,
    S: BuildHasher + Clone,
>(
    m: &mut JanusMap<K, V, S>,
    reader: ReadGuard,
    name: &Q,
    key: K,
    a: &mut JanusMap<K, V, S>,
    before: Option<ReadGuard>,
    read: &V,
    b: &mut JanusMap<K, V, S>,
    after: Option<ReadGuard>,
    again: &V,
    p: &mut JanusMap<K, V, S>,
    q: &mut JanusMap<K, V, S>,
    value: V,
    old_before: Option<V>,
    old_after: Option<V>,
    hash: u64,
)
    requires
        old(m).wf(),
        old(m)@.attached(reader),
        call_ensures(JanusMap::<K, V, S>::release_read, (m, reader), ()),
        *old(a) == *old(m),
        *old(b) == *final(m),
        *old(p) == *old(m),
        *old(q) == *final(m),
        call_ensures(JanusMap::<K, V, S>::get::<Q>, (a, name), before),
        before is Some ==> call_ensures(
            ReadGuard::as_ref::<K, V, S>,
            (&before->0, &*final(a)),
            read,
        ),
        call_ensures(JanusMap::<K, V, S>::get::<Q>, (b, name), after),
        after is Some ==> call_ensures(
            ReadGuard::as_ref::<K, V, S>,
            (&after->0, &*final(b)),
            again,
        ),
        call_ensures(JanusMap::<K, V, S>::insert, (p, key, value), old_before),
        call_ensures(JanusMap::<K, V, S>::insert, (q, key, value), old_after),
        hash_is(old(m).hasher(), &key, hash),
        hash_is(old(m).hasher(), name, hash),
        names(name, key),
    ensures
        before is Some == after is Some,
        before is Some ==> *read == *again,
        old_before == old_after,
{
    let h1 = index_part(hash);
    old(a).lemma_get_by_hash(*final(a), name, key, before, hash);
    old(a)@.lemma_get_reads(final(a)@, h1, key, before);
    old(b).lemma_get_by_hash(*final(b), name, key, after, hash);
    old(b)@.lemma_get_reads(final(b)@, h1, key, after);
    old(p).lemma_insert_by_hash(*final(p), key, value, old_before, hash);
    old(q).lemma_insert_by_hash(*final(q), key, value, old_after, hash);
    old(m)@.lemma_with_reader_gone(reader.slot(), reader.left());
    if old(m)@.contains(h1, key) {
        let i = old(m)@.slot_of(h1, key);
        old(m)@.lemma_lookup(i, h1, key);
        assert(old(m)@.slot_wf(i));
        assert(final(m)@.holds(i, h1, key));
        final(m)@.lemma_lookup(i, h1, key);
    } else if final(m)@.contains(h1, key) {
        assert(old(m)@.holds(final(m)@.slot_of(h1, key), h1, key));
    }
}

/// Storing a value, under whatever key, does not change what a guard reads.
pub proof fn law_insert_keeps_readers<K: Eq + Hash, V: Clone, S: BuildHasher + Clone>(
    m: &mut JanusMap<K, V, S>,
    key: K,
    value: V,
    old_value: Option<V>,
    reader: ReadGuard,
    read: &V,
    again: &V,
)
    requires
        old(m).wf(),
        call_ensures(JanusMap::<K, V, S>::insert, (m, key, value), old_value),
        old(m)@.reading(reader),
        call_ensures(ReadGuard::as_ref::<K, V, S>, (&reader, &*old(m)), read),
        call_ensures(ReadGuard::as_ref::<K, V, S>, (&reader, &*final(m)), again),
    ensures
        final(m)@.reading(reader),
        call_requires(ReadGuard::as_ref::<K, V, S>, (&reader, &*final(m))),
        *again == *read,
{
    old(m).law_insert_is_an_operation(*final(m), key, value, old_value);
    let h1 = choose|h1: usize|
        #[trigger] old(m)@.performs(
            final(m)@,
            Operation::Insert { h1, key, value, old_value },
        );
    old(m)@.law_reader_keeps_value(
        final(m)@,
        Operation::Insert { h1, key, value, old_value },
        reader,
    );
}

/// Removing a key does not change what a guard reads, not even one on the removed entry.
pub proof fn law_remove_keeps_readers<
    K: Eq + Hash + Borrow<Q>,
    Q: Hash + Eq + ?Sized,
    V: Clone,
    S: BuildHasher + Clone,
>(
    m: &mut JanusMap<K, V, S>,
    name: &Q,
    removed: Option<V>,
    reader: ReadGuard,
    read: &V,
    again: &V,
)
    requires
        old(m).wf(),
        call_ensures(JanusMap::<K, V, S>::remove::<Q>, (m, name), removed),
        old(m)@.reading(reader),
        call_ensures(ReadGuard::as_ref::<K, V, S>, (&reader, &*old(m)), read),
        call_ensures(ReadGuard::as_ref::<K, V, S>, (&reader, &*final(m)), again),
    ensures
        final(m)@.reading(reader),
        call_requires(ReadGuard::as_ref::<K, V, S>, (&reader, &*final(m))),
        *again == *read,
{
    old(m).law_remove_is_an_operation(*final(m), name, removed);
    if removed is Some {
        let (h1, key) = choose|h1: usize, key: K|
            #[trigger] old(m)@.performs(
                final(m)@,
                Operation::Remove { h1, key, removed },
            );
        old(m)@.law_reader_keeps_value(final(m)@, Operation::Remove { h1, key, removed }, reader);
    }
}

/// Taking up writing does not change what a guard reads.
pub proof fn law_get_mut_keeps_readers<
    K: Eq + Hash + Borrow<Q>,
    Q: Hash + Eq + ?Sized,
    V: Clone,
    S: BuildHasher + Clone,
>(
    m: &mut JanusMap<K, V, S>,
    name: &Q,
    writer: Option<WriteGuard<V>>,
    reader: ReadGuard,
    read: &V,
    again: &V,
)
    requires
        old(m).wf(),
        call_ensures(JanusMap::<K, V, S>::get_mut::<Q>, (m, name), writer),
        old(m)@.reading(reader),
        call_ensures(ReadGuard::as_ref::<K, V, S>, (&reader, &*old(m)), read),
        call_ensures(ReadGuard::as_ref::<K, V, S>, (&reader, &*final(m)), again),
    ensures
        final(m)@.reading(reader),
        call_requires(ReadGuard::as_ref::<K, V, S>, (&reader, &*final(m))),
        *again == *read,
{
    old(m).law_get_mut_is_an_operation(*final(m), name, writer);
    if writer is Some {
        let (h1, key) = choose|h1: usize, key: K|
            #[trigger] old(m)@.performs(
                final(m)@,
                Operation::GetMut { h1, key, taken: writer },
            );
        old(m)@.law_reader_keeps_value(
            final(m)@,
            Operation::GetMut { h1, key, taken: writer },
            reader,
        );
    }
}

/// Another reader does not change what a guard reads, as long as readers can be counted.
pub proof fn law_get_keeps_readers<
    K: Eq + Hash + Borrow<Q>,
    Q: Hash + Eq + ?Sized,
    V: Clone,
    S: BuildHasher + Clone,
>(
    m: &mut JanusMap<K, V, S>,
    name: &Q,
    guard: Option<ReadGuard>,
    reader: ReadGuard,
    read: &V,
    again: &V,
)
    requires
        old(m).wf(),
        call_ensures(JanusMap::<K, V, S>::get::<Q>, (m, name), guard),
        guard is Some ==> one_side(
            old(m)@.entries[guard->0.slot()],
            guard->0.left(),
        )->0.readers < u16::MAX,
        old(m)@.reading(reader),
        call_ensures(ReadGuard::as_ref::<K, V, S>, (&reader, &*old(m)), read),
        call_ensures(ReadGuard::as_ref::<K, V, S>, (&reader, &*final(m)), again),
    ensures
        final(m)@.reading(reader),
        call_requires(ReadGuard::as_ref::<K, V, S>, (&reader, &*final(m))),
        *again == *read,
{
    old(m).law_get_is_an_operation(*final(m), name, guard);
    if guard is Some {
        let (h1, key) = choose|h1: usize, key: K|
            #[trigger] old(m)@.performs(
                final(m)@,
                Operation::Get { h1, key, found: guard },
            );
        old(m)@.lemma_lookup(old(m)@.slot_of(h1, key), h1, key);
        old(m)@.law_reader_keeps_value(final(m)@, Operation::Get { h1, key, found: guard }, reader);
    }
}

/// Ending a write does not change what a guard reads.
pub proof fn law_release_write_keeps_readers<K: Eq + Hash, V: Clone, S: BuildHasher + Clone>(
    m: &mut JanusMap<K, V, S>,
    given: WriteGuard<V>,
    reader: ReadGuard,
    read: &V,
    again: &V,
)
    requires
        old(m).wf(),
        old(m)@.writing(given),
        call_ensures(JanusMap::<K, V, S>::release_write, (m, given), ()),
        old(m)@.reading(reader),
        call_ensures(ReadGuard::as_ref::<K, V, S>, (&reader, &*old(m)), read),
        call_ensures(ReadGuard::as_ref::<K, V, S>, (&reader, &*final(m)), again),
    ensures
        final(m)@.reading(reader),
        call_requires(ReadGuard::as_ref::<K, V, S>, (&reader, &*final(m))),
        *again == *read,
{
    old(m)@.law_reader_keeps_value(final(m)@, Operation::ReleaseWrite { writer: given }, reader);
}

/// Giving up one of several readers does not change what the others read.
pub proof fn law_release_read_keeps_readers<K: Eq + Hash, V: Clone, S: BuildHasher + Clone>(
    m: &mut JanusMap<K, V, S>,
    other: ReadGuard,
    reader: ReadGuard,
    read: &V,
    again: &V,
)
    requires
        old(m).wf(),
        old(m)@.attached(other),
        call_ensures(JanusMap::<K, V, S>::release_read, (m, other), ()),
        other.slot() != reader.slot() || other.left() != reader.left() || old(m)@.readers_on(
            reader.slot(),
            reader.left(),
        ) > 1,
        old(m)@.reading(reader),
        call_ensures(ReadGuard::as_ref::<K, V, S>, (&reader, &*old(m)), read),
        call_ensures(ReadGuard::as_ref::<K, V, S>, (&reader, &*final(m)), again),
    ensures
        final(m)@.reading(reader),
        call_requires(ReadGuard::as_ref::<K, V, S>, (&reader, &*final(m))),
        *again == *read,
{
    old(m)@.law_reader_keeps_value(final(m)@, Operation::ReleaseRead { reader: other }, reader);
}

/// A guard that reading gives reads, as long as readers can be counted, and giving it
/// back leaves the map as it was.
pub proof fn law_get_and_release<
    K: Eq + Hash + Borrow<Q>,
    Q: Hash + Eq + ?Sized,
    V: Clone,
    S: BuildHasher + Clone,
>(
    m: &mut JanusMap<K, V, S>,
    name: &Q,
    guard: ReadGuard,
    n: &mut JanusMap<K, V, S>,
)
    requires
        old(m).wf(),
        call_ensures(JanusMap::<K, V, S>::get::<Q>, (m, name), Some(guard)),
        *old(n) == *final(m),
        call_ensures(JanusMap::<K, V, S>::release_read, (n, guard), ()),
    ensures
        one_side(old(m)@.entries[guard.slot()], guard.left())->0.readers < u16::MAX
            ==> final(m)@.reading(guard),
        call_requires(JanusMap::<K, V, S>::release_read, (n, guard)),
        final(n)@ == old(m)@,
{
    old(m).law_get_is_an_operation(*final(m), name, Some(guard));
    let (h1, key) = choose|h1: usize, key: K|
        #[trigger] old(m)@.performs(
            final(m)@,
            Operation::Get { h1, key, found: Some(guard) },
        );
    old(m)@.lemma_lookup(old(m)@.slot_of(h1, key), h1, key);
    assert(old(m)@.slot_wf(guard.slot()));
    old(m)@.law_reading_leaves_no_trace(final(m)@, final(n)@, h1, key, guard);
}

/// A guard that taking up writing gives can be given back.
pub proof fn law_get_mut_and_release<
    K: Eq + Hash + Borrow<Q>,
    Q: Hash + Eq + ?Sized,
    V: Clone,
    S: BuildHasher + Clone,
>(
    m: &mut JanusMap<K, V, S>,
    name: &Q,
    guard: WriteGuard<V>,
    given: WriteGuard<V>,
    n: &mut JanusMap<K, V, S>,
)
    requires
        old(m).wf(),
        call_ensures(JanusMap::<K, V, S>::get_mut::<Q>, (m, name), Some(guard)),
        *old(n) == *final(m),
        given.slot() == guard.slot(),
        given.side().readers == guard.side().readers,
    ensures
        final(m)@.writing(guard),
        call_requires(JanusMap::<K, V, S>::release_write, (n, given)),
{
    old(m).law_get_mut_is_an_operation(*final(m), name, Some(guard));
    let (h1, key) = choose|h1: usize, key: K|
        #[trigger] old(m)@.performs(
            final(m)@,
            Operation::GetMut { h1, key, taken: Some(guard) },
        );
    old(m)@.law_one_writer(final(m)@, h1, key, guard);
}

/// What a writer leaves in a guard is what the guard then holds.
pub proof fn law_as_mut_ref<V>(
    w: &mut WriteGuard<V>,
    opened: &mut V,
    seen: &V,
    left: &V,
)
    requires
        call_ensures(WriteGuard::<V>::as_ref, (&*old(w),), seen),
        call_ensures(WriteGuard::<V>::as_mut_ref, (w,), opened),
        call_ensures(WriteGuard::<V>::as_ref, (&*final(w),), left),
    ensures
        *old(opened) == *seen,
        *left == *final(opened),
        final(w).slot() == old(w).slot(),
        final(w).side().readers == old(w).side().readers,
        final(w).value() == *final(opened),
{

}

/// `insert_now` stores exactly if the write side of the entry for the key is
/// there and nobody reads it, or the key has no entry and some slot has none.
/// Otherwise key and value come back and nothing changes.
pub proof fn law_insert_now<K: Eq + Hash, V: Clone, S: BuildHasher + Clone>(
    m: &mut JanusMap<K, V, S>,
    key: K,
    value: V,
    result: Result<Option<V>, (K, V)>,
    hash: u64,
)
    requires
        old(m).wf(),
        call_ensures(JanusMap::<K, V, S>::insert_now, (m, key, value), result),
        hash_is(old(m).hasher(), &key, hash),
    ensures
        result is Ok <==> if exists|i: int|
            0 <= i < old(m)@.meta.len() && is_for(
                #[trigger] old(m)@.entries[i],
                index_part(hash),
                key,
            ) {
            forall|i: int|
                0 <= i < old(m)@.meta.len() && is_for(
                    #[trigger] old(m)@.entries[i],
                    index_part(hash),
                    key,
                ) ==> can_be_written(old(m)@.entries[i])
        } else {
            exists|i: int|
                0 <= i < old(m)@.meta.len() && #[trigger] old(m)@.entries[i] is None
                    && old(m)@.waiting[i] is None
        },
        result is Ok ==> old(m).insert_effect(*final(m), key, value, result->Ok_0),
        result is Err ==> result == Err::<Option<V>, (K, V)>((key, value)) && final(m)@ == old(m)@,
{
    let h1 = choose|h1: usize|
        {
            &&& #[trigger] hashes_to(old(m).hasher(), &key, h1)
            &&& match result {
                Ok(old_value) => {
                    &&& old(m)@.insert_ready(h1, key)
                    &&& old(m)@.insert_outcome(final(m)@, h1, key, value, old_value)
                },
                Err((k, v)) => {
                    &&& !old(m)@.insert_ready(h1, key)
                    &&& k == key
                    &&& v == value
                    &&& final(m)@ == old(m)@
                },
            }
        };
    law_hash_decides_index(old(m).hasher(), &key, hash, h1);
    old(m)@.law_insert_ready(h1, key);
}

/// `insert` may be called wherever `insert_now` would store.
pub proof fn law_insert_may_be_called<K: Eq + Hash, V: Clone, S: BuildHasher + Clone>(
    m: &mut JanusMap<K, V, S>,
    key: K,
    value: V,
    hash: u64,
)
    requires
        old(m).wf(),
        hash_is(old(m).hasher(), &key, hash),
        if exists|i: int|
            0 <= i < old(m)@.meta.len() && is_for(
                #[trigger] old(m)@.entries[i],
                index_part(hash),
                key,
            ) {
            forall|i: int|
                0 <= i < old(m)@.meta.len() && is_for(
                    #[trigger] old(m)@.entries[i],
                    index_part(hash),
                    key,
                ) ==> can_be_written(old(m)@.entries[i])
        } else {
            exists|i: int|
                0 <= i < old(m)@.meta.len() && #[trigger] old(m)@.entries[i] is None
                    && old(m)@.waiting[i] is None
        },
    ensures
        call_requires(JanusMap::<K, V, S>::insert, (m, key, value)),
{
    assert forall|h1: usize| #[trigger]
        hashes_to(old(m).hasher(), &key, h1) implies old(m)@.insert_ready(h1, key) by {
        law_hash_decides_index(old(m).hasher(), &key, hash, h1);
        old(m)@.law_insert_ready(h1, key);
    }
}

/// Where `insert_now` stores, it gives what `insert` gives on the same map.
pub proof fn law_insert_now_gives_what_insert_gives<K: Eq + Hash, V: Clone, S: BuildHasher + Clone>(
    m: &mut JanusMap<K, V, S>,
    key: K,
    value: V,
    result: Result<Option<V>, (K, V)>,
    n: &mut JanusMap<K, V, S>,
    old_value: Option<V>,
    hash: u64,
)
    requires
        old(m).wf(),
        call_ensures(JanusMap::<K, V, S>::insert_now, (m, key, value), result),
        *old(n) == *old(m),
        call_ensures(JanusMap::<K, V, S>::insert, (n, key, value), old_value),
        hash_is(old(m).hasher(), &key, hash),
    ensures
        result is Ok ==> result->Ok_0 == old_value,
{
    if result is Ok {
        old(m).lemma_insert_by_hash(*final(m), key, value, result->Ok_0, hash);
        old(n).lemma_insert_by_hash(*final(n), key, value, old_value, hash);
    }
}

/// `get_mut_now` is refused exactly if the write side of the entry for the key
/// is not there or somebody reads it. Then nothing changes.
pub proof fn law_get_mut_now<
    K: Eq + Hash + Borrow<Q>,
    Q: Hash + Eq + ?Sized,
    V: Clone,
    S: BuildHasher + Clone,
>(
    m: &mut JanusMap<K, V, S>,
    name: &Q,
    key: K,
    result: Result<Option<WriteGuard<V>>, ()>,
    hash: u64,
)
    requires
        old(m).wf(),
        call_ensures(JanusMap::<K, V, S>::get_mut_now::<Q>, (m, name), result),
        hash_is(old(m).hasher(), name, hash),
        names(name, key),
    ensures
        result is Err <==> exists|i: int|
            {
                &&& 0 <= i < old(m)@.meta.len()
                &&& is_for(#[trigger] old(m)@.entries[i], index_part(hash), key)
                &&& !can_be_written(old(m)@.entries[i])
            },
        result is Ok ==> old(m).get_mut_effect(*final(m), name, result->Ok_0),
        result is Err ==> final(m)@ == old(m)@,
{
    let h1 = choose|h1: usize|
        {
            &&& #[trigger] hashes_to(old(m).hasher(), name, h1)
            &&& match result {
                Ok(found) => old(m)@.get_mut_outcome_as(final(m)@, h1, name, found),
                Err(_) => {
                    &&& !old(m)@.write_ready_as(h1, name)
                    &&& final(m)@ == old(m)@
                },
            }
        };
    law_hash_decides_index(old(m).hasher(), name, hash, h1);
    law_names(name, key);
    old(m)@.law_borrowed_key_finds_the_key(h1, name, key);
    old(m)@.law_lookup(h1, key);
    old(m)@.law_write_ready(h1, key);
    if result is Ok {
        old(m)@.law_get_mut_borrowed(final(m)@, h1, name, key, result->Ok_0);
    } else {
        let i = choose|i: int|
            #[trigger] old(m)@.named(i, h1, name) && !old(m)@.entry(i).writable();
        assert(is_for(old(m)@.entries[i], h1, key));
    }
}

/// `get_mut` may be called wherever `get_mut_now` would not be refused.
pub proof fn law_get_mut_may_be_called<
    K: Eq + Hash + Borrow<Q>,
    Q: Hash + Eq + ?Sized,
    V: Clone,
    S: BuildHasher + Clone,
>(
    m: &mut JanusMap<K, V, S>,
    name: &Q,
    key: K,
    hash: u64,
)
    requires
        old(m).wf(),
        hash_is(old(m).hasher(), name, hash),
        names(name, key),
        !(exists|i: int|
            {
                &&& 0 <= i < old(m)@.meta.len()
                &&& is_for(#[trigger] old(m)@.entries[i], index_part(hash), key)
                &&& !can_be_written(old(m)@.entries[i])
            }),
    ensures
        call_requires(JanusMap::<K, V, S>::get_mut::<Q>, (m, name)),
{
    law_names(name, key);
    assert forall|h1: usize| #[trigger]
        hashes_to(old(m).hasher(), name, h1) implies old(m)@.write_ready_as(h1, name) by {
        law_hash_decides_index(old(m).hasher(), name, hash, h1);
        old(m)@.law_borrowed_key_finds_the_key(h1, name, key);
        old(m)@.law_write_ready(h1, key);
    }
}

/// `remove_now` is refused exactly if the write side of the entry for the key
/// is not there. Then nothing changes.
pub proof fn law_remove_now<
    K: Eq + Hash + Borrow<Q>,
    Q: Hash + Eq + ?Sized,
    V: Clone,
    S: BuildHasher + Clone,
>(
    m: &mut JanusMap<K, V, S>,
    name: &Q,
    key: K,
    result: Result<Option<V>, ()>,
    hash: u64,
)
    requires
        old(m).wf(),
        call_ensures(JanusMap::<K, V, S>::remove_now::<Q>, (m, name), result),
        hash_is(old(m).hasher(), name, hash),
        names(name, key),
    ensures
        result is Err <==> exists|i: int|
            {
                &&& 0 <= i < old(m)@.meta.len()
                &&& is_for(#[trigger] old(m)@.entries[i], index_part(hash), key)
                &&& side_to_write(old(m)@.entries[i]) is None
            },
        result is Ok ==> old(m).remove_effect(*final(m), name, result->Ok_0),
        result is Err ==> final(m)@ == old(m)@,
{
    let h1 = choose|h1: usize|
        {
            &&& #[trigger] hashes_to(old(m).hasher(), name, h1)
            &&& match result {
                Ok(found) => old(m)@.remove_outcome_as(final(m)@, h1, name, found),
                Err(_) => {
                    &&& !old(m)@.remove_ready_as(h1, name)
                    &&& final(m)@ == old(m)@
                },
            }
        };
    law_hash_decides_index(old(m).hasher(), name, hash, h1);
    law_names(name, key);
    old(m)@.law_borrowed_key_finds_the_key(h1, name, key);
    old(m)@.law_lookup(h1, key);
    old(m)@.law_remove_ready(h1, key);
    if result is Ok {
        old(m)@.law_remove_borrowed(final(m)@, h1, name, key, result->Ok_0);
    } else {
        let i = choose|i: int|
            #[trigger] old(m)@.named(i, h1, name) && !old(m)@.entry(i).unlocked();
        assert(is_for(old(m)@.entries[i], h1, key));
    }
}

/// `remove` may be called wherever `remove_now` would not be refused.
pub proof fn law_remove_may_be_called<
    K: Eq + Hash + Borrow<Q>,
    Q: Hash + Eq + ?Sized,
    V: Clone,
    S: BuildHasher + Clone,
>(
    m: &mut JanusMap<K, V, S>,
    name: &Q,
    key: K,
    hash: u64,
)
    requires
        old(m).wf(),
        hash_is(old(m).hasher(), name, hash),
        names(name, key),
        !(exists|i: int|
            {
                &&& 0 <= i < old(m)@.meta.len()
                &&& is_for(#[trigger] old(m)@.entries[i], index_part(hash), key)
                &&& side_to_write(old(m)@.entries[i]) is None
            }),
    ensures
        call_requires(JanusMap::<K, V, S>::remove::<Q>, (m, name)),
{
    law_names(name, key);
    assert forall|h1: usize| #[trigger]
        hashes_to(old(m).hasher(), name, h1) implies old(m)@.remove_ready_as(h1, name) by {
        law_hash_decides_index(old(m).hasher(), name, hash, h1);
        old(m)@.law_borrowed_key_finds_the_key(h1, name, key);
        old(m)@.law_remove_ready(h1, key);
    }
}

impl<K, V> TableView<K, V> {
    /// Nobody reads or writes: all entries have both sides without a reader,
    /// and no removed entry waits for one.
    pub open spec fn at_rest(self) -> bool {
        &&& forall|i: int| 0 <= i < self.meta.len() ==> #[trigger] self.waiting[i] is None
        &&& forall|i: int|
            0 <= i < self.meta.len() && #[trigger] self.entries[i] is Some ==> {
                let entry = self.entries[i]->0;
                &&& entry.left is Some && entry.left->0.readers == 0
                &&& entry.right is Some && entry.right->0.readers == 0
            }
    }
}

/// A map that nobody reads or writes stays so when values are stored and keys
/// removed.
pub proof fn law_stays_at_rest<
    K: Eq + Hash + Borrow<Q>,
    Q: Hash + Eq + ?Sized,
    V: Clone,
    S: BuildHasher + Clone,
>(
    m: &mut JanusMap<K, V, S>,
    key: K,
    value: V,
    old_value: Option<V>,
    n: &mut JanusMap<K, V, S>,
    name: &Q,
    removed: Option<V>,
)
    requires
        old(m).wf(),
        old(m)@.at_rest(),
        call_ensures(JanusMap::<K, V, S>::insert, (m, key, value), old_value),
        *old(n) == *old(m),
        call_ensures(JanusMap::<K, V, S>::remove::<Q>, (n, name), removed),
    ensures
        final(m)@.at_rest(),
        final(n)@.at_rest(),
{
    old(m).law_insert_is_an_operation(*final(m), key, value, old_value);
    let h1 = choose|h1: usize|
        #[trigger] old(m)@.performs(
            final(m)@,
            Operation::Insert { h1, key, value, old_value },
        );
    old(m)@.lemma_insert_at_rest(final(m)@, h1, key, value, old_value);
    old(n).law_remove_is_an_operation(*final(n), name, removed);
    if removed is Some {
        let (h, k) = choose|h: usize, k: K|
            #[trigger] old(n)@.performs(
                final(n)@,
                Operation::Remove { h1: h, key: k, removed },
            );
        let i = old(n)@.slot_of(h, k);
        old(n)@.lemma_lookup(i, h, k);
        assert(old(n)@.entries[i] is Some);
    }
}

impl<K: PartialEq, V: Clone> TableView<K, V> {
    proof fn lemma_insert_at_rest(
        self,
        post: Self,
        h1: usize,
        key: K,
        value: V,
        old_value: Option<V>,
    )
        requires
            key_model::<K>(),
            self.wf(),
            self.at_rest(),
            self.insert_outcome(post, h1, key, value, old_value),
        ensures
            post.at_rest(),
    {
        if old_value is Some {
            let i = self.slot_of(h1, key);
            self.lemma_lookup(i, h1, key);
            assert(self.entries[i] is Some);
        } else {
            let i = choose|i: int|
                {
                    &&& #[trigger] self.vacancy(h1, i)
                    &&& post.entry(i).fresh(key, h1, value)
                    &&& post == self.with_added(i, post.entry(i))
                };
            assert(post.entries[i] is Some);
        }
    }
}

/// A map that nobody else reads or writes is so again when a writer has ended.
pub proof fn law_at_rest_after_writing<
    K: Eq + Hash + Borrow<Q>,
    Q: Hash + Eq + ?Sized,
    V: Clone,
    S: BuildHasher + Clone,
>(
    m: &mut JanusMap<K, V, S>,
    name: &Q,
    taken: WriteGuard<V>,
    given: WriteGuard<V>,
    n: &mut JanusMap<K, V, S>,
)
    requires
        old(m).wf(),
        old(m)@.at_rest(),
        call_ensures(JanusMap::<K, V, S>::get_mut::<Q>, (m, name), Some(taken)),
        *old(n) == *final(m),
        given.slot() == taken.slot(),
        given.side().readers == taken.side().readers,
        call_ensures(JanusMap::<K, V, S>::release_write, (n, given), ()),
    ensures
        final(n)@.at_rest(),
{
    old(m).law_get_mut_is_an_operation(*final(m), name, Some(taken));
    let (h1, key) = choose|h1: usize, key: K|
        #[trigger] old(m)@.performs(
            final(m)@,
            Operation::GetMut { h1, key, taken: Some(taken) },
        );
    old(m)@.lemma_lookup(old(m)@.slot_of(h1, key), h1, key);
    assert(old(m)@.entries[taken.slot()] is Some);
}

/// Where nobody reads or writes, nothing is refused: a key can be written and
/// removed, a key that is there can be stored again, and a new key can be
/// stored as long as some slot has no entry.
pub proof fn law_nothing_is_refused_at_rest<
    K: Eq + Hash + Borrow<Q>,
    Q: Hash + Eq + ?Sized,
    V: Clone,
    S: BuildHasher + Clone,
>(
    m: &mut JanusMap<K, V, S>,
    name: &Q,
    key: K,
    a: &mut JanusMap<K, V, S>,
    found: Option<ReadGuard>,
    stored: Result<Option<V>, (K, V)>,
    value: V,
    n: &mut JanusMap<K, V, S>,
    written: Result<Option<WriteGuard<V>>, ()>,
    p: &mut JanusMap<K, V, S>,
    removed: Result<Option<V>, ()>,
    hash: u64,
)
    requires
        old(m).wf(),
        old(m)@.at_rest(),
        *old(a) == *old(m),
        *old(n) == *old(m),
        *old(p) == *old(m),
        call_ensures(JanusMap::<K, V, S>::get::<Q>, (a, name), found),
        call_ensures(JanusMap::<K, V, S>::insert_now, (m, key, value), stored),
        call_ensures(JanusMap::<K, V, S>::get_mut_now::<Q>, (n, name), written),
        call_ensures(JanusMap::<K, V, S>::remove_now::<Q>, (p, name), removed),
        hash_is(old(m).hasher(), &key, hash),
        hash_is(old(m).hasher(), name, hash),
        names(name, key),
    ensures
        written is Ok && written->Ok_0 is Some == found is Some,
        removed is Ok && removed->Ok_0 is Some == found is Some,
        found is Some ==> stored is Ok && stored->Ok_0 is Some,
        found is None && (exists|i: int|
            0 <= i < old(m)@.meta.len() && #[trigger] old(m)@.entries[i] is None) ==> stored is Ok
            && stored->Ok_0 is None,
{
    let h1 = index_part(hash);
    old(m)@.law_lookup(h1, key);
    old(a).lemma_get_by_hash(*final(a), name, key, found, hash);
    old(a)@.lemma_get_reads(final(a)@, h1, key, found);
    law_insert_now(m, key, value, stored, hash);
    law_get_mut_now(n, name, key, written, hash);
    law_remove_now(p, name, key, removed, hash);
    if stored is Ok {
        old(m).lemma_insert_by_hash(*final(m), key, value, stored->Ok_0, hash);
    }
    old(n).lemma_get_mut_by_hash(*final(n), name, key, written->Ok_0, hash);
    old(n)@.lemma_get_mut_takes(final(n)@, h1, key, written->Ok_0);
    old(p).lemma_remove_by_hash(*final(p), name, key, removed->Ok_0, hash);
    old(p)@.lemma_remove_gives(final(p)@, h1, key, removed->Ok_0);
}

/// After a value was stored, the same key can be stored and written again as
/// long as nobody reads the side that was read before.
pub proof fn law_insert_again<
    K: Eq + Hash + Borrow<Q>,
    Q: Hash + Eq + ?Sized,
    V: Clone,
    S: BuildHasher + Clone,
>(
    m: &mut JanusMap<K, V, S>,
    key: K,
    value: V,
    old_value: Option<V>,
    n: &mut JanusMap<K, V, S>,
    second: V,
    stored: Result<Option<V>, (K, V)>,
    p: &mut JanusMap<K, V, S>,
    name: &Q,
    written: Result<Option<WriteGuard<V>>, ()>,
    hash: u64,
)
    requires
        old(m).wf(),
        call_ensures(JanusMap::<K, V, S>::insert, (m, key, value), old_value),
        forall|i: int|
            0 <= i < old(m)@.meta.len() && is_for(
                #[trigger] old(m)@.entries[i],
                index_part(hash),
                key,
            ) ==> side_to_read(old(m)@.entries[i])->0.readers == 0,
        *old(n) == *final(m),
        call_ensures(JanusMap::<K, V, S>::insert_now, (n, key, second), stored),
        *old(p) == *final(m),
        call_ensures(JanusMap::<K, V, S>::get_mut_now::<Q>, (p, name), written),
        hash_is(old(m).hasher(), &key, hash),
        hash_is(old(m).hasher(), name, hash),
        names(name, key),
    ensures
        stored is Ok && stored->Ok_0 is Some,
        written is Ok && written->Ok_0 is Some,
{
    let h1 = index_part(hash);
    old(m).lemma_insert_by_hash(*final(m), key, value, old_value, hash);
    old(m)@.law_lookup(h1, key);
    old(m)@.law_entry_after_insert(final(m)@, h1, key, value, old_value, key);
    final(m)@.law_lookup(h1, key);
    assert(is_for(final(m)@.entries[final(m)@.slot_of(h1, key)], h1, key));
    law_insert_now(n, key, second, stored, hash);
    law_get_mut_now(p, name, key, written, hash);
    old(n).lemma_insert_by_hash(*final(n), key, second, stored->Ok_0, hash);
    old(p).lemma_get_mut_by_hash(*final(p), name, key, written->Ok_0, hash);
    old(p)@.lemma_get_mut_takes(final(p)@, h1, key, written->Ok_0);
}

/// After a writer has ended, the key can be written and stored again as long as
/// nobody reads the side that was read before.
pub proof fn law_write_again<
    K: Eq + Hash + Borrow<Q>,
    Q: Hash + Eq + ?Sized,
    V: Clone,
    S: BuildHasher + Clone,
>(
    m: &mut JanusMap<K, V, S>,
    name: &Q,
    key: K,
    taken: WriteGuard<V>,
    given: WriteGuard<V>,
    n: &mut JanusMap<K, V, S>,
    p: &mut JanusMap<K, V, S>,
    written: Result<Option<WriteGuard<V>>, ()>,
    q: &mut JanusMap<K, V, S>,
    value: V,
    stored: Result<Option<V>, (K, V)>,
    hash: u64,
)
    requires
        old(m).wf(),
        call_ensures(JanusMap::<K, V, S>::get_mut::<Q>, (m, name), Some(taken)),
        side_to_read(old(m)@.entries[taken.slot()])->0.readers == 0,
        *old(n) == *final(m),
        given.slot() == taken.slot(),
        given.side().readers == taken.side().readers,
        call_ensures(JanusMap::<K, V, S>::release_write, (n, given), ()),
        *old(p) == *final(n),
        call_ensures(JanusMap::<K, V, S>::get_mut_now::<Q>, (p, name), written),
        *old(q) == *final(n),
        call_ensures(JanusMap::<K, V, S>::insert_now, (q, key, value), stored),
        hash_is(old(m).hasher(), &key, hash),
        hash_is(old(m).hasher(), name, hash),
        names(name, key),
    ensures
        written is Ok && written->Ok_0 is Some,
        stored is Ok && stored->Ok_0 is Some,
{
    let h1 = index_part(hash);
    old(m).lemma_get_mut_by_hash(*final(m), name, key, Some(taken), hash);
    old(m)@.lemma_lookup(old(m)@.slot_of(h1, key), h1, key);
    old(m)@.law_one_writer(final(m)@, h1, key, taken);
    old(m)@.law_write_shows(final(m)@, final(n)@, h1, key, taken, given);
    final(n)@.law_lookup(h1, key);
    assert(is_for(final(n)@.entries[final(n)@.slot_of(h1, key)], h1, key));
    law_get_mut_now(p, name, key, written, hash);
    law_insert_now(q, key, value, stored, hash);
    old(p).lemma_get_mut_by_hash(*final(p), name, key, written->Ok_0, hash);
    old(p)@.lemma_get_mut_takes(final(p)@, h1, key, written->Ok_0);
    old(q).lemma_insert_by_hash(*final(q), key, value, stored->Ok_0, hash);
}

impl<K: Eq + Hash, V: Clone, S: BuildHasher> JanusMap<K, V, S> {
    /// A map of unused slots, as many as `capacity` entries need: a power of
    /// two, not less than four thirds of the capacity and less than twice
    /// that. A capacity of zero counts as sixteen.
    pub open spec fn is_new(self, capacity: usize) -> bool {
        let slots = self@.meta.len() as int;
        let wanted = if capacity == 0 {
            21int
        } else {
            capacity * 8 / 6
        };
        &&& is_pow2(slots)
        &&& wanted <= slots
        &&& slots == 1 || slots < 2 * wanted
        &&& self@.entries.len() == slots
        &&& self@.waiting.len() == slots
        &&& forall|i: int| 0 <= i < slots ==> #[trigger] self@.meta[i] == 0
        &&& forall|i: int| 0 <= i < slots ==> #[trigger] self@.entries[i] is None
        &&& forall|i: int| 0 <= i < slots ==> #[trigger] self@.waiting[i] is None
        &&& self.capacity() == capacity
        &&& key_model::<K>() ==> self.wf()
    }

    proof fn lemma_is_new(self, capacity: usize)
        requires
            self.empty(capacity),
            self@.entries.len() == self@.meta.len(),
            self@.waiting.len() == self@.meta.len(),
        ensures
            self.is_new(capacity),
    {
        law_slot_count(capacity);
        lemma_count_all(self@.meta, |byte: u8| byte == 0);
        assert forall|i: int| 0 <= i < self@.meta.len() implies #[trigger] self@.meta[i] == 0 by {
            let p = |byte: u8| byte == 0;
            assert(p(self@.meta[i]));
        }
    }
}

/// A map for a number of entries is new and nobody reads or writes it.
pub proof fn law_with_capacity<K: Eq + Hash, V: Clone>(
    capacity: usize,
    map: JanusMap<K, V, RandomState>,
)
    requires
        key_model::<K>(),
        call_ensures(JanusMap::<K, V, RandomState>::with_capacity, (capacity,), map),
    ensures
        map.is_new(capacity),
        map@.at_rest(),
{
    map.lemma_is_new(capacity);
}

/// A map with a given hash function is one for thirty-two entries.
pub proof fn law_with_hasher<K: Eq + Hash, V: Clone, S: BuildHasher + Clone>(
    hasher: S,
    map: JanusMap<K, V, S>,
)
    requires
        key_model::<K>(),
        call_ensures(JanusMap::<K, V, S>::with_hasher, (hasher,), map),
    ensures
        map.is_new(32),
        map@.at_rest(),
        map.hasher() == hasher,
{
    map.lemma_is_new(32);
}

/// A map can be given both its size and its hash function.
pub proof fn law_with_capacity_and_hasher<K: Eq + Hash, V: Clone, S: BuildHasher + Clone>(
    capacity: usize,
    hasher: S,
    map: JanusMap<K, V, S>,
)
    requires
        key_model::<K>(),
        call_ensures(JanusMap::<K, V, S>::with_capacity_and_hasher, (capacity, hasher), map),
    ensures
        map.is_new(capacity),
        map@.at_rest(),
        map.hasher() == hasher,
{
    map.lemma_is_new(capacity);
}

/// A default map is one for sixteen entries.
pub proof fn law_default<K: Eq + Hash, V: Clone, S: Default + BuildHasher + Clone>(
    map: JanusMap<K, V, S>,
)
    requires
        key_model::<K>(),
        call_ensures(<JanusMap::<K, V, S> as Default>::default, (), map),
    ensures
        map.is_new(16),
        map@.at_rest(),
        call_ensures(S::default, (), map.hasher()),
{
    map.lemma_is_new(16);
}

/// Where `capacity_fits` says so, a map can be made.
pub proof fn law_map_can_be_made<K: Eq + Hash, V: Clone, S: BuildHasher + Clone>(
    capacity: usize,
    hasher: S,
)
    requires
        call_ensures(capacity_fits, (capacity,), true),
    ensures
        call_requires(JanusMap::<K, V, S>::with_capacity_and_hasher, (capacity, hasher)),
        call_requires(JanusMap::<K, V, RandomState>::with_capacity, (capacity,)),
{
    law_capacity_fits(capacity, true);
}

/// A new map has no entries and nothing is found in it.
pub proof fn law_new_map_is_empty<
    K: Eq + Hash + Borrow<Q>,
    Q: Hash + Eq + ?Sized,
    V: Clone,
    S: BuildHasher + Clone,
>(
    map: JanusMap<K, V, S>,
    capacity: usize,
    len: usize,
    m: &mut JanusMap<K, V, S>,
    name: &Q,
    guard: Option<ReadGuard>,
)
    requires
        key_model::<K>(),
        map.is_new(capacity),
        call_ensures(JanusMap::<K, V, S>::len, (&map,), len),
        *old(m) == map,
        call_ensures(JanusMap::<K, V, S>::get::<Q>, (m, name), guard),
    ensures
        len == 0,
        guard is None,
        final(m)@ == map@,
{
    map@.lemma_empty();
    assert forall|h1: usize, key: K| !#[trigger] map@.contains(h1, key) by {
        if map@.contains(h1, key) {
            assert(map@.entries[map@.slot_of(h1, key)] is Some);
        }
    }
    old(m).law_nothing_is_found_in_an_empty_map(*final(m), name, guard);
}

/// The maps are those that the insertions lead to, one after the other, and
/// all that was stored are the first `n` keys.
proof fn lemma_filled<K: Eq + Hash, V: Clone, S: BuildHasher + Clone>(
    maps: Seq<&mut JanusMap<K, V, S>>,
    keys: Seq<K>,
    values: Seq<V>,
    results: Seq<Result<Option<V>, (K, V)>>,
    n: int,
)
    requires
        0 <= n <= maps.len(),
        n < maps.len() ==> n < maps[0]@.meta.len(),
        maps.len() <= maps[0]@.meta.len(),
        maps.len() > 0,
        maps[0].wf(),
        forall|i: int| 0 <= i < maps[0]@.meta.len() ==> #[trigger] maps[0]@.entries[i] is None,
        forall|i: int| 0 <= i < maps[0]@.meta.len() ==> #[trigger] maps[0]@.waiting[i] is None,
        forall|j: int|
            0 <= j < maps.len() ==> call_ensures(
                JanusMap::<K, V, S>::insert_now,
                (#[trigger] maps[j], keys[j], values[j]),
                results[j],
            ),
        forall|j: int| 0 < j < maps.len() ==> *(#[trigger] maps[j]) == *final(maps[j - 1]),
        forall|i: int, j: int|
            0 <= i < j < maps.len() ==> !(#[trigger] keys[i]).eq_spec(#[trigger] &keys[j]),
    ensures
        n < maps.len() ==> {
            &&& maps[n].wf()
            &&& maps[n]@.meta.len() == maps[0]@.meta.len()
            &&& maps[n]@.len() == n
            &&& forall|i: int|
                0 <= i < maps[n]@.meta.len() ==> #[trigger] maps[n]@.waiting[i] is None
            &&& forall|i: int|
                0 <= i < maps[n]@.meta.len() && #[trigger] maps[n]@.entries[i] is Some ==> exists|
                    j: int,
                |
                    0 <= j < n && maps[n]@.entries[i]->0.key == #[trigger] keys[j]
        },
        forall|j: int| 0 <= j < n ==> #[trigger] results[j] == Ok::<Option<V>, (K, V)>(None),
    decreases n,
{
    if n == 0 {
        maps[0]@.lemma_empty();
        assert forall|h1: usize, key: K| !#[trigger] maps[0]@.contains(h1, key) by {
            if maps[0]@.contains(h1, key) {
                assert(maps[0]@.entries[maps[0]@.slot_of(h1, key)] is Some);
            }
        }
    } else {
        let k = n - 1;
        lemma_filled(maps, keys, values, results, k);
        let pre = *maps[k];
        let post = *final(maps[k]);
        let (key, value, result) = (keys[k], values[k], results[k]);
        assert(call_ensures(JanusMap::<K, V, S>::insert_now, (maps[k], key, value), result));
        lemma_filled_step(pre, post, key, value, result, keys, k);
        if n < maps.len() {
            assert(*maps[n] == post);
        }
    }
}

/// One insertion of a key that is not there, with a slot to spare.
proof fn lemma_filled_step<K: Eq + Hash, V: Clone, S: BuildHasher + Clone>(
    pre: JanusMap<K, V, S>,
    post: JanusMap<K, V, S>,
    key: K,
    value: V,
    result: Result<Option<V>, (K, V)>,
    keys: Seq<K>,
    k: int,
)
    requires
        pre.wf(),
        post.wf(),
        0 <= k < pre@.meta.len(),
        pre@.len() == k,
        key == keys[k],
        forall|i: int| 0 <= i < pre@.meta.len() ==> #[trigger] pre@.waiting[i] is None,
        forall|i: int|
            0 <= i < pre@.meta.len() && #[trigger] pre@.entries[i] is Some ==> exists|j: int|
                0 <= j < k && pre@.entries[i]->0.key == #[trigger] keys[j],
        forall|j: int| 0 <= j < k ==> !(#[trigger] keys[j]).eq_spec(&key),
        exists|h1: usize|
            {
                &&& #[trigger] hashes_to(pre.hasher(), &key, h1)
                &&& match result {
                    Ok(old_value) => {
                        &&& pre@.insert_ready(h1, key)
                        &&& pre@.insert_outcome(post@, h1, key, value, old_value)
                    },
                    Err((k, v)) => {
                        &&& !pre@.insert_ready(h1, key)
                        &&& k == key
                        &&& v == value
                        &&& post@ == pre@
                    },
                }
            },
    ensures
        result == Ok::<Option<V>, (K, V)>(None),
        post@.meta.len() == pre@.meta.len(),
        post@.len() == k + 1,
        forall|i: int| 0 <= i < post@.meta.len() ==> #[trigger] post@.waiting[i] is None,
        forall|i: int|
            0 <= i < post@.meta.len() && #[trigger] post@.entries[i] is Some ==> exists|j: int|
                0 <= j < k + 1 && post@.entries[i]->0.key == #[trigger] keys[j],
{
    let h1 = choose|h1: usize|
        {
            &&& #[trigger] hashes_to(pre.hasher(), &key, h1)
            &&& match result {
                Ok(old_value) => {
                    &&& pre@.insert_ready(h1, key)
                    &&& pre@.insert_outcome(post@, h1, key, value, old_value)
                },
                Err((k, v)) => {
                    &&& !pre@.insert_ready(h1, key)
                    &&& k == key
                    &&& v == value
                    &&& post@ == pre@
                },
            }
        };
    pre@.law_lookup(h1, key);
    pre@.law_insert_ready(h1, key);
    assert forall|i: int| 0 <= i < pre@.meta.len() implies !is_for(
        #[trigger] pre@.entries[i],
        h1,
        key,
    ) by {
        if pre@.entries[i] is Some {
            let j = choose|j: int| 0 <= j < k && pre@.entries[i]->0.key == #[trigger] keys[j];
            assert(!keys[j].eq_spec(&key));
        }
    }
    pre@.lemma_slots_add_up();
    lemma_count_uniform(
        pre@.waiting,
        false,
        |entry: Option<Box<TableEntry<K, V>>>| entry is Some,
    );
    pre@.lemma_room();
    let free = choose|i: int| 0 <= i < pre@.slots() && #[trigger] pre@.usable(i);
    assert(pre@.entries[free] is None);
    let op = Operation::Insert { h1, key, value, old_value: None };
    pre@.law_len(post@, op);
    let i = choose|i: int|
        {
            &&& #[trigger] pre@.vacancy(h1, i)
            &&& post@.entry(i).fresh(key, h1, value)
            &&& post@ == pre@.with_added(i, post@.entry(i))
        };
    assert forall|j: int|
        0 <= j < post@.meta.len() && #[trigger] post@.entries[j] is Some implies exists|m: int|
        0 <= m < k + 1 && post@.entries[j]->0.key == #[trigger] keys[m] by {
        if j == i {
            assert(post@.entries[j]->0.key == keys[k]);
        } else {
            assert(pre@.entries[j] is Some);
        }
    }
}

/// In a new map there is room for the entries that it was made for: as many
/// different keys as that, and more up to the number of slots, can be stored
/// one after the other, and none is refused or taken for another.
pub proof fn law_room_for_all<K: Eq + Hash, V: Clone, S: BuildHasher + Clone>(
    capacity: usize,
    hasher: S,
    maps: Seq<&mut JanusMap<K, V, S>>,
    keys: Seq<K>,
    values: Seq<V>,
    results: Seq<Result<Option<V>, (K, V)>>,
    j: int,
)
    requires
        key_model::<K>(),
        0 <= j < maps.len(),
        call_ensures(
            JanusMap::<K, V, S>::with_capacity_and_hasher,
            (capacity, hasher),
            *maps[0],
        ),
        maps.len() <= capacity || maps.len() <= maps[0]@.meta.len(),
        forall|j: int|
            0 <= j < maps.len() ==> call_ensures(
                JanusMap::<K, V, S>::insert_now,
                (#[trigger] maps[j], keys[j], values[j]),
                results[j],
            ),
        forall|j: int| 0 < j < maps.len() ==> *(#[trigger] maps[j]) == *final(maps[j - 1]),
        forall|i: int, j: int|
            0 <= i < j < maps.len() ==> !(#[trigger] keys[i]).eq_spec(#[trigger] &keys[j]),
    ensures
        results[j] == Ok::<Option<V>, (K, V)>(None),
        maps[0]@.meta.len() >= capacity,
{
    maps[0].lemma_is_new(capacity);
    law_slot_count(capacity);
    lemma_filled(maps, keys, values, results, maps.len() as int);
}

/// What `is_attached` and `is_writing` tell of guards, and that a guard of which they say
/// so can be given back.
pub proof fn law_guards_of_the_map<K: Eq + Hash, V: Clone, S: BuildHasher + Clone>(
    m: &mut JanusMap<K, V, S>,
    reader: ReadGuard,
    writer: WriteGuard<V>,
    attached: bool,
    writing: bool,
)
    requires
        old(m).wf(),
        call_ensures(JanusMap::<K, V, S>::is_attached, (&*old(m), &reader), attached),
        call_ensures(JanusMap::<K, V, S>::is_writing, (&*old(m), &writer), writing),
    ensures
        attached == old(m)@.has_side_of(reader),
        writing == old(m)@.lacks_side_of(writer),
        attached ==> call_requires(JanusMap::<K, V, S>::release_read, (m, reader)),
        attached ==> call_requires(ReadGuard::as_ref::<K, V, S>, (&reader, &*old(m))),
        writing ==> call_requires(JanusMap::<K, V, S>::release_write, (m, writer)),
{

}

/// Giving a reader up does to the slots of the map what it does to those of a table.
pub proof fn law_map_release_read<K: Eq + Hash, V: Clone, S: BuildHasher + Clone>(
    m: &mut JanusMap<K, V, S>,
    guard: ReadGuard,
)
    requires
        old(m).wf(),
        old(m)@.has_side_of(guard),
        call_ensures(JanusMap::<K, V, S>::release_read, (m, guard), ()),
    ensures
        final(m).wf(),
        final(m).same_map(*old(m)),
        old(m)@.given_up(final(m)@, guard),
{
    assert(old(m)@.slot_wf(guard.slot()));
}

/// Giving a writer back does to the slots of the map what it does to those of a table.
pub proof fn law_map_release_write<K: Eq + Hash, V: Clone, S: BuildHasher + Clone>(
    m: &mut JanusMap<K, V, S>,
    guard: WriteGuard<V>,
)
    requires
        old(m).wf(),
        old(m)@.lacks_side_of(guard),
        call_ensures(JanusMap::<K, V, S>::release_write, (m, guard), ()),
    ensures
        final(m).wf(),
        final(m).same_map(*old(m)),
        old(m)@.given_back(final(m)@, guard),
{

}

/// A guard reads the side that it was made for.
pub proof fn law_as_ref<K: Eq + Hash, V: Clone, S: BuildHasher + Clone>(
    map: &JanusMap<K, V, S>,
    guard: &ReadGuard,
    value: &V,
)
    requires
        map.wf(),
        map@.has_side_of(*guard),
        call_ensures(ReadGuard::as_ref::<K, V, S>, (guard, map), value),
    ensures
        *value == one_side(
            if map@.entries[guard.slot()] is Some {
                map@.entries[guard.slot()]
            } else {
                map@.waiting[guard.slot()]
            },
            guard.left(),
        )->0.target,
{

}

} // verus!
