//! What holds of the map as a whole.

use crate::borrowed::{
    answers, borrow_agrees, borrows_as, lemma_borrowed_form_stands_for_key, stands_for,
};
use crate::capacity::{effective_capacity, lemma_least_pow2, slot_count};
use crate::entry::TableEntry;
use crate::guard::{ReadGuard, WriteGuard};
use crate::hash_metadata::EMPTY_SLOT;
use crate::hasher::{hash_alike, hashes_to};
use crate::map::JanusMap;
use crate::probe::probe_slot;
use crate::state::{key_model, TableView};
use std::borrow::Borrow;
use std::hash::{BuildHasher, Hash};
use vstd::laws_eq::obeys_eq_spec_properties;
use vstd::prelude::*;
use vstd::std_specs::cmp::PartialEqSpec;

verus! {

/// One use of a table, with its arguments and what came of it.
pub enum Operation<K, V> {
    Insert { h1: usize, key: K, value: V, old_value: Option<V> },
    Get { h1: usize, key: K, found: Option<ReadGuard> },
    GetMut { h1: usize, key: K, taken: Option<WriteGuard<V>> },
    Remove { h1: usize, key: K, removed: Option<V> },
    ReleaseRead { reader: ReadGuard },
    ReleaseWrite { writer: WriteGuard<V> },
}

impl<K: PartialEq, V: Clone> TableView<K, V> {
    /// The operation leads from this state of the table to the state `post`.
    pub open spec fn performs(self, post: Self, op: Operation<K, V>) -> bool {
        match op {
            Operation::Insert { h1, key, value, old_value } => self.insert_outcome(
                post,
                h1,
                key,
                value,
                old_value,
            ),
            Operation::Get { h1, key, found } => self.get_outcome(post, h1, key, found),
            Operation::GetMut { h1, key, taken } => self.get_mut_outcome(post, h1, key, taken),
            Operation::Remove { h1, key, removed } => self.remove_outcome(post, h1, key, removed),
            Operation::ReleaseRead { reader } => {
                &&& self.attached(reader)
                &&& post == self.with_reader_gone(reader.slot(), reader.left())
            },
            Operation::ReleaseWrite { writer } => {
                &&& self.writing(writer)
                &&& post == self.with_entry(
                    writer.slot(),
                    self.entry(writer.slot()).published(writer.side()),
                )
            },
        }
    }

    /// The operation is about the entry for this hash and key.
    pub open spec fn concerns(self, op: Operation<K, V>, h1: usize, key: K) -> bool {
        match op {
            Operation::Insert { h1: h, key: k, .. } => h == h1 && k.eq_spec(&key),
            Operation::Get { h1: h, key: k, .. } => h == h1 && k.eq_spec(&key),
            Operation::GetMut { h1: h, key: k, .. } => h == h1 && k.eq_spec(&key),
            Operation::Remove { h1: h, key: k, .. } => h == h1 && k.eq_spec(&key),
            Operation::ReleaseRead { reader } => self.holds(reader.slot(), h1, key),
            Operation::ReleaseWrite { writer } => self.holds(writer.slot(), h1, key),
        }
    }

    /// Every operation keeps the table consistent.
    pub proof fn law_consistent(self, post: Self, op: Operation<K, V>)
        requires
            key_model::<K>(),
            self.wf(),
            self.performs(post, op),
        ensures
            post.wf(),
    {
        self.lemma_step(post, op);
    }

    /// The number of entries follows the operations: a key that is new adds
    /// one, a removal takes one away, and nothing else changes it.
    pub proof fn law_len(self, post: Self, op: Operation<K, V>)
        requires
            key_model::<K>(),
            self.wf(),
            self.performs(post, op),
        ensures
            post.len() == self.len() + (match op {
                Operation::Insert { old_value: None, .. } => 1int,
                Operation::Remove { removed: Some(_), .. } => -1,
                _ => 0,
            }),
    {
        self.lemma_step(post, op);
    }

    /// A slot that was used once never counts as unused again. While there
    /// are unused slots, each new key takes one of them.
    pub proof fn law_slots_are_used_up(self, post: Self, op: Operation<K, V>)
        requires
            key_model::<K>(),
            self.wf(),
            self.performs(post, op),
        ensures
            post.slots() == self.slots(),
            post.unused() == self.unused() - (match op {
                Operation::Insert { old_value: None, .. } => if self.unused() > 0 {
                    1int
                } else {
                    0
                },
                _ => 0,
            }),
    {
        self.lemma_step(post, op);
    }

    /// A slot that an entry was removed from can take another one. The room
    /// for new entries shrinks with each new key, and grows with each removal
    /// of an entry that nobody reads and with the last reader of a removed entry.
    pub proof fn law_slots_are_used_again(self, post: Self, op: Operation<K, V>)
        requires
            key_model::<K>(),
            self.wf(),
            self.performs(post, op),
        ensures
            post.room() == self.room() + self.room_made(post, op),
            post.len() + post.waiting_len() + post.room() == post.slots(),
    {
        self.lemma_step(post, op);
        post.lemma_slots_add_up();
    }

    /// By how much an operation changes the room for new entries.
    pub open spec fn room_made(self, post: Self, op: Operation<K, V>) -> int {
        match op {
            Operation::Insert { old_value: None, .. } => -1,
            Operation::Remove { h1, key, removed: Some(_) } => if self.entry(
                self.slot_of(h1, key),
            ).has_readers() {
                0
            } else {
                1
            },
            Operation::ReleaseRead { reader } => if self.entries[reader.slot()] is None
                && post.waiting[reader.slot()] is None {
                1
            } else {
                0
            },
            _ => 0,
        }
    }

    /// Where an entry was removed that nobody reads, any key can be stored.
    pub proof fn law_insert_after_remove(
        self,
        post: Self,
        h1: usize,
        key: K,
        value: V,
        other_h1: usize,
        other: K,
    )
        requires
            key_model::<K>(),
            self.wf(),
            self.remove_outcome(post, h1, key, Some(value)),
            !self.lookup(h1, key)->0.has_readers(),
            !post.contains(other_h1, other),
        ensures
            post.wf(),
            post.insert_ready(other_h1, other),
            exists|i: int| post.vacancy(other_h1, i),
    {
        self.lemma_lookup(self.slot_of(h1, key), h1, key);
        self.lemma_with_removed(self.slot_of(h1, key));
        post.lemma_vacancy(other_h1);
    }

    /// The slot that a new entry was put into.
    proof fn lemma_added_slot(self, post: Self, h1: usize, key: K, value: V) -> (i: int)
        requires
            self.added(post, h1, key, value),
        ensures
            self.vacancy(h1, i),
            post.entry(i).fresh(key, h1, value),
            post == self.with_added(i, post.entry(i)),
    {
        choose|i: int|
            {
                &&& #[trigger] self.vacancy(h1, i)
                &&& post.entry(i).fresh(key, h1, value)
                &&& post == self.with_added(i, post.entry(i))
            }
    }

    /// What an operation does to the slots.
    proof fn lemma_step(self, post: Self, op: Operation<K, V>)
        requires
            key_model::<K>(),
            self.wf(),
            self.performs(post, op),
        ensures
            post.wf(),
            post.slots() == self.slots(),
            post.len() == self.len() + (match op {
                Operation::Insert { old_value: None, .. } => 1int,
                Operation::Remove { removed: Some(_), .. } => -1,
                _ => 0,
            }),
            post.unused() == self.unused() - (match op {
                Operation::Insert { old_value: None, .. } => if self.unused() > 0 {
                    1int
                } else {
                    0
                },
                _ => 0,
            }),
            post.room() == self.room() + self.room_made(post, op),
            forall|i: int, h1: usize, key: K|
                #![trigger post.holds(i, h1, key)]
                #![trigger self.holds(i, h1, key)]
                !self.concerns(op, h1, key) ==> post.holds(i, h1, key) == self.holds(i, h1, key)
                    && (self.holds(i, h1, key) ==> post.entry(i) == self.entry(i)),
    {
        reveal(obeys_eq_spec_properties);
        match op {
            Operation::Insert { h1, key, value, old_value } => {
                match old_value {
                    None => {
                        let i = self.lemma_added_slot(post, h1, key, value);
                        self.lemma_with_added(i, post.entry(i));
                        self.lemma_unused();
                    },
                    Some(_) => {
                        let i = self.slot_of(h1, key);
                        self.lemma_lookup(i, h1, key);
                        assert(self.slot_wf(i));
                        self.lemma_with_entry(i, self.entry(i).replaced(value));
                    },
                }
            },
            Operation::Get { h1, key, found } => {
                if found is Some {
                    let i = self.slot_of(h1, key);
                    self.lemma_lookup(i, h1, key);
                    assert(self.slot_wf(i));
                    self.lemma_with_entry(i, self.entry(i).with_reader());
                }
            },
            Operation::GetMut { h1, key, taken } => {
                if taken is Some {
                    let i = self.slot_of(h1, key);
                    self.lemma_lookup(i, h1, key);
                    assert(self.slot_wf(i));
                    self.lemma_with_entry(i, self.entry(i).locked());
                }
            },
            Operation::Remove { h1, key, removed } => {
                if removed is Some {
                    let i = self.slot_of(h1, key);
                    self.lemma_lookup(i, h1, key);
                    self.lemma_with_removed(i);
                }
            },
            Operation::ReleaseRead { reader } => {
                self.lemma_with_reader_gone(reader.slot(), reader.left());
            },
            Operation::ReleaseWrite { writer } => {
                let entry = self.entry(writer.slot());
                self.lemma_with_entry(writer.slot(), entry.published(writer.side()));
            },
        }
    }

    /// An operation on one key leaves the entries of all other keys alone.
    pub proof fn law_other_keys(self, post: Self, op: Operation<K, V>, h1: usize, key: K)
        requires
            key_model::<K>(),
            self.wf(),
            self.performs(post, op),
            !self.concerns(op, h1, key),
        ensures
            post.lookup(h1, key) == self.lookup(h1, key),
    {
        self.lemma_step(post, op);
        if self.contains(h1, key) {
            let i = self.slot_of(h1, key);
            assert(post.holds(i, h1, key));
            self.lemma_lookup(i, h1, key);
            post.lemma_lookup(i, h1, key);
        } else if post.contains(h1, key) {
            let i = post.slot_of(h1, key);
            assert(self.holds(i, h1, key));
        }
    }

    /// The operation makes a reader count wrap around: it lets in one reader
    /// more than can be counted.
    pub open spec fn overflows(self, op: Operation<K, V>) -> bool {
        op matches Operation::Get { found: Some(guard), .. } && self.entry(
            guard.slot(),
        ).read().readers == u16::MAX
    }

    /// The operation gives up the only reader that `guard` can stand for.
    pub open spec fn ends_reading(self, op: Operation<K, V>, guard: ReadGuard) -> bool {
        op matches Operation::ReleaseRead { reader: other } && other.slot() == guard.slot()
            && other.left() == guard.left() && self.readers_on(guard.slot(), guard.left()) == 1
    }

    /// Whatever else is done to the map, even if the key is written or
    /// removed, a guard goes on reading the same value until it is given back.
    pub proof fn law_reader_keeps_value(self, post: Self, op: Operation<K, V>, guard: ReadGuard)
        requires
            key_model::<K>(),
            self.wf(),
            self.performs(post, op),
            self.reading(guard),
            !self.overflows(op),
            !self.ends_reading(op, guard),
        ensures
            post.reading(guard),
            post.value_of(guard) == self.value_of(guard),
    {
        match op {
            Operation::Insert { h1, key, value, old_value } => {
                if self.contains(h1, key) {
                    self.lemma_lookup(self.slot_of(h1, key), h1, key);
                } else {
                    let i = self.lemma_added_slot(post, h1, key, value);
                    assert(guard.slot() != i);
                }
            },
            Operation::Get { h1, key, .. } => {
                if self.contains(h1, key) {
                    self.lemma_lookup(self.slot_of(h1, key), h1, key);
                }
            },
            Operation::GetMut { h1, key, .. } => {
                if self.contains(h1, key) {
                    self.lemma_lookup(self.slot_of(h1, key), h1, key);
                }
            },
            Operation::Remove { h1, key, .. } => {
                if self.contains(h1, key) {
                    self.lemma_lookup(self.slot_of(h1, key), h1, key);
                }
            },
            Operation::ReleaseRead { .. } => {},
            Operation::ReleaseWrite { writer } => {
                assert(self.slot_wf(writer.slot()));
            },
        }
    }

    /// While a guard holds the write side of an entry, nobody else can write
    /// or remove it, and the entry stays in the map until the guard is given back.
    pub proof fn law_writer_keeps_entry(self, post: Self, op: Operation<K, V>, guard: WriteGuard<V>)
        requires
            key_model::<K>(),
            self.wf(),
            self.performs(post, op),
            self.writing(guard),
            !(op matches Operation::ReleaseWrite { writer: other } && other.slot() == guard.slot()),
        ensures
            post.writing(guard),
            post.entry(guard.slot()).key == self.entry(guard.slot()).key,
            post.entry(guard.slot()).hash == self.entry(guard.slot()).hash,
            post.entry(guard.slot()).read().target == self.entry(guard.slot()).read().target,
    {
        let slot = guard.slot();
        match op {
            Operation::Insert { h1, key, value, old_value } => {
                if self.contains(h1, key) {
                    self.lemma_lookup(self.slot_of(h1, key), h1, key);
                } else {
                    let i = self.lemma_added_slot(post, h1, key, value);
                    assert(slot != i);
                }
            },
            Operation::Get { h1, key, .. } => {
                if self.contains(h1, key) {
                    self.lemma_lookup(self.slot_of(h1, key), h1, key);
                    assert(self.slot_wf(self.slot_of(h1, key)));
                }
            },
            Operation::GetMut { h1, key, .. } => {
                if self.contains(h1, key) {
                    self.lemma_lookup(self.slot_of(h1, key), h1, key);
                }
            },
            Operation::Remove { h1, key, .. } => {
                if self.contains(h1, key) {
                    self.lemma_lookup(self.slot_of(h1, key), h1, key);
                }
            },
            Operation::ReleaseRead { reader } => {
                assert(self.slot_wf(reader.slot()));
            },
            Operation::ReleaseWrite { .. } => {},
        }
    }

    /// The operations lead from each of the states to the next.
    pub open spec fn history(states: Seq<Self>, ops: Seq<Operation<K, V>>) -> bool {
        &&& states.len() == ops.len() + 1
        &&& forall|i: int|
            0 <= i < ops.len() ==> (#[trigger] states[i]).performs(states[i + 1], ops[i])
    }

    /// However many operations go by, a guard reads the same value as long as
    /// it is not given back, and the table is consistent all the time.
    pub proof fn law_reader_is_isolated(
        states: Seq<Self>,
        ops: Seq<Operation<K, V>>,
        guard: ReadGuard,
        n: int,
    )
        requires
            key_model::<K>(),
            Self::history(states, ops),
            states[0].wf(),
            states[0].reading(guard),
            forall|i: int|
                0 <= i < ops.len() ==> !(#[trigger] states[i]).overflows(ops[i])
                    && !states[i].ends_reading(ops[i], guard),
            0 <= n < states.len(),
        ensures
            states[n].wf(),
            states[n].reading(guard),
            states[n].value_of(guard) == states[0].value_of(guard),
        decreases n,
    {
        if n > 0 {
            Self::law_reader_is_isolated(states, ops, guard, n - 1);
            assert(states[n - 1].performs(states[n], ops[n - 1]));
            states[n - 1].law_consistent(states[n], ops[n - 1]);
            states[n - 1].law_reader_keeps_value(states[n], ops[n - 1], guard);
        }
    }

    /// The operation gives up a reader that the table does not count.
    pub open spec fn underflows(self, op: Operation<K, V>) -> bool {
        op matches Operation::ReleaseRead { reader } && self.readers_on(
            reader.slot(),
            reader.left(),
        ) == 0
    }

    /// How many readers of one side of a slot's entry an operation lets in,
    /// less those that it gives up.
    pub open spec fn readers_added(op: Operation<K, V>, i: int, left: bool) -> int {
        match op {
            Operation::Get { found: Some(guard), .. } => if guard.slot() == i && guard.left()
                == left {
                1
            } else {
                0
            },
            Operation::ReleaseRead { reader } => if reader.slot() == i && reader.left() == left {
                -1
            } else {
                0
            },
            _ => 0,
        }
    }

    /// The number of readers that the first `n` operations let in and did not give up.
    pub open spec fn readers_balance(
        ops: Seq<Operation<K, V>>,
        n: int,
        i: int,
        left: bool,
    ) -> int
        decreases n,
    {
        if n <= 0 {
            0
        } else {
            Self::readers_balance(ops, n - 1, i, left) + Self::readers_added(ops[n - 1], i, left)
        }
    }

    /// The reader counts follow the readers that come and go. Nothing else
    /// that is done to the map changes them, neither a write nor a removal.
    pub proof fn law_readers_are_counted(
        self,
        post: Self,
        op: Operation<K, V>,
        i: int,
        left: bool,
    )
        requires
            key_model::<K>(),
            self.wf(),
            self.performs(post, op),
            !self.overflows(op),
            !self.underflows(op),
            0 <= i < self.slots(),
        ensures
            post.readers_on(i, left) == self.readers_on(i, left) + Self::readers_added(op, i, left),
    {
        assert(self.slot_wf(i));
        match op {
            Operation::Insert { h1, key, value, old_value } => {
                if self.contains(h1, key) {
                    self.lemma_lookup(self.slot_of(h1, key), h1, key);
                }
            },
            Operation::Get { h1, key, .. } => {
                if self.contains(h1, key) {
                    self.lemma_lookup(self.slot_of(h1, key), h1, key);
                }
            },
            Operation::GetMut { h1, key, .. } => {
                if self.contains(h1, key) {
                    self.lemma_lookup(self.slot_of(h1, key), h1, key);
                }
            },
            Operation::Remove { h1, key, .. } => {
                if self.contains(h1, key) {
                    self.lemma_lookup(self.slot_of(h1, key), h1, key);
                }
            },
            Operation::ReleaseRead { .. } => {},
            Operation::ReleaseWrite { .. } => {},
        }
    }

    /// However many operations go by, a reader count is the number of readers
    /// that were let in and not given up. Where there was none at first, it is
    /// zero exactly if all were given up.
    pub proof fn law_reader_count_is_readers_not_given_up(
        states: Seq<Self>,
        ops: Seq<Operation<K, V>>,
        i: int,
        left: bool,
        n: int,
    )
        requires
            key_model::<K>(),
            Self::history(states, ops),
            states[0].wf(),
            forall|m: int|
                0 <= m < ops.len() ==> !(#[trigger] states[m]).overflows(ops[m])
                    && !states[m].underflows(ops[m]),
            0 <= i < states[0].slots(),
            0 <= n < states.len(),
        ensures
            states[n].wf(),
            states[n].slots() == states[0].slots(),
            states[n].readers_on(i, left) == states[0].readers_on(i, left) + Self::readers_balance(
                ops,
                n,
                i,
                left,
            ),
            states[0].readers_on(i, left) == 0 ==> (states[n].readers_on(i, left) == 0
                <==> Self::readers_balance(ops, n, i, left) == 0),
        decreases n,
    {
        if n > 0 {
            Self::law_reader_count_is_readers_not_given_up(states, ops, i, left, n - 1);
            assert(states[n - 1].performs(states[n], ops[n - 1]));
            states[n - 1].lemma_step(states[n], ops[n - 1]);
            states[n - 1].law_readers_are_counted(states[n], ops[n - 1], i, left);
        }
    }

    /// Equal keys have the same entry.
    pub proof fn law_equal_keys(self, h1: usize, key: K, other: K)
        requires
            key_model::<K>(),
            self.wf(),
            key.eq_spec(&other),
        ensures
            self.contains(h1, key) == self.contains(h1, other),
            self.contains(h1, key) ==> self.slot_of(h1, key) == self.slot_of(h1, other),
            self.lookup(h1, key) == self.lookup(h1, other),
    {
        reveal(obeys_eq_spec_properties);
        if self.contains(h1, key) {
            let i = self.slot_of(h1, key);
            assert(self.entry(i).key.eq_spec(&other));
            assert(self.holds(i, h1, other));
            self.lemma_lookup(i, h1, other);
        } else if self.contains(h1, other) {
            let i = self.slot_of(h1, other);
            assert(other.eq_spec(&key));
            assert(self.entry(i).key.eq_spec(&key));
            assert(self.holds(i, h1, key));
        }
    }

    /// After a value was stored its key has an entry. A new entry has the
    /// value in its write side and a clone of it to read. In an entry that was
    /// there the value is the one to read, and the write side keeps what was
    /// read before.
    pub proof fn law_entry_after_insert(
        self,
        post: Self,
        h1: usize,
        key: K,
        value: V,
        old_value: Option<V>,
        other: K,
    )
        requires
            key_model::<K>(),
            self.wf(),
            self.insert_outcome(post, h1, key, value, old_value),
            key.eq_spec(&other),
        ensures
            post.contains(h1, other),
            post.lookup(h1, other)->0.unlocked(),
            post.lookup(h1, other)->0.read().readers == 0,
            match old_value {
                None => {
                    &&& self.lookup(h1, key) is None
                    &&& post.lookup(h1, other)->0.fresh(key, h1, value)
                },
                Some(old_value) => {
                    let before = self.lookup(h1, key)->0;
                    &&& self.lookup(h1, key) is Some
                    &&& old_value == before.write()->0.target
                    &&& post.lookup(h1, other) == Some(before.replaced(value))
                    &&& post.lookup(h1, other)->0.read().target == value
                    &&& post.lookup(h1, other)->0.write() == Some(before.read())
                },
            },
    {
        let op = Operation::Insert { h1, key, value, old_value };
        self.lemma_step(post, op);
        match old_value {
            None => {
                let i = self.lemma_added_slot(post, h1, key, value);
                assert(post.holds(i, h1, other));
                post.lemma_lookup(i, h1, other);
            },
            Some(_) => {
                let i = self.slot_of(h1, key);
                self.lemma_lookup(i, h1, key);
                assert(self.slot_wf(i));
                assert(post.holds(i, h1, key));
                post.lemma_lookup(i, h1, key);
                post.law_equal_keys(h1, key, other);
            },
        }
    }

    /// Reading a key gives what was stored last.
    pub proof fn law_read_after_insert(
        self,
        mid: Self,
        post: Self,
        h1: usize,
        key: K,
        value: V,
        old_value: Option<V>,
        other: K,
        guard: Option<ReadGuard>,
    )
        requires
            key_model::<K>(),
            self.wf(),
            self.insert_outcome(mid, h1, key, value, old_value),
            key.eq_spec(&other),
            mid.get_outcome(post, h1, other, guard),
        ensures
            guard is Some,
            post.reading(guard->0),
            old_value is None ==> cloned(value, post.value_of(guard->0)),
            old_value is Some ==> post.value_of(guard->0) == value,
    {
        self.law_entry_after_insert(mid, h1, key, value, old_value, other);
        let i = mid.slot_of(h1, other);
        self.lemma_step(mid, Operation::Insert { h1, key, value, old_value });
        mid.lemma_lookup(i, h1, other);
        assert(mid.slot_wf(i));
    }

    /// Taking up writing right after a key was stored for the first time
    /// finds the value that was stored.
    pub proof fn law_write_after_first_insert(
        self,
        mid: Self,
        post: Self,
        h1: usize,
        key: K,
        value: V,
        other: K,
        guard: Option<WriteGuard<V>>,
    )
        requires
            key_model::<K>(),
            self.wf(),
            self.insert_outcome(mid, h1, key, value, None),
            key.eq_spec(&other),
            mid.get_mut_outcome(post, h1, other, guard),
        ensures
            mid.write_ready(h1, other),
            guard is Some,
            guard->0.value() == value,
    {
        self.law_entry_after_insert(mid, h1, key, value, None, other);
        self.lemma_step(mid, Operation::Insert { h1, key, value, old_value: None });
        mid.lemma_lookup(mid.slot_of(h1, other), h1, other);
    }

    /// Removing a key right after it was stored for the first time gives a
    /// clone of the value, and the map has as many entries as before.
    pub proof fn law_remove_after_first_insert(
        self,
        mid: Self,
        post: Self,
        h1: usize,
        key: K,
        value: V,
        other: K,
        removed: Option<V>,
    )
        requires
            key_model::<K>(),
            self.wf(),
            self.insert_outcome(mid, h1, key, value, None),
            key.eq_spec(&other),
            mid.remove_outcome(post, h1, other, removed),
        ensures
            mid.remove_ready(h1, other),
            removed is Some,
            cloned(value, removed->0),
            !post.contains(h1, key),
            post.len() == self.len(),
            post.room() == self.room(),
    {
        self.law_entry_after_insert(mid, h1, key, value, None, other);
        self.lemma_step(mid, Operation::Insert { h1, key, value, old_value: None });
        mid.lemma_lookup(mid.slot_of(h1, other), h1, other);
        mid.lemma_step(post, Operation::Remove { h1, key: other, removed });
        mid.law_removed(post, h1, other, removed->0, key);
    }

    /// A key that was removed is not there any more. Its slot is empty at
    /// once; only where the entry has readers is it kept apart for them.
    pub proof fn law_removed(self, post: Self, h1: usize, key: K, value: V, other: K)
        requires
            key_model::<K>(),
            self.wf(),
            self.remove_outcome(post, h1, key, Some(value)),
            key.eq_spec(&other) || other.eq_spec(&key),
        ensures
            post.entries[self.slot_of(h1, key)] is None,
            post.waiting[self.slot_of(h1, key)] is Some == self.lookup(h1, key)->0.has_readers(),
            !post.contains(h1, other),
            post.lookup(h1, other) is None,
    {
        reveal(obeys_eq_spec_properties);
        let i = self.slot_of(h1, key);
        self.lemma_lookup(i, h1, key);
        self.lemma_with_removed(i);
        assert forall|j: int| !post.holds(j, h1, other) by {
            if post.holds(j, h1, other) {
                assert(self.holds(j, h1, other));
                assert(self.entry(j).key.eq_spec(&key));
                assert(self.holds(j, h1, key));
            }
        }
    }

    /// A removal leaves the entries of all other keys alone.
    pub proof fn law_removal_leaves_other_keys(
        self,
        post: Self,
        h1: usize,
        key: K,
        removed: Option<V>,
        other_h1: usize,
        other: K,
    )
        requires
            key_model::<K>(),
            self.wf(),
            self.remove_outcome(post, h1, key, removed),
            !key.eq_spec(&other),
        ensures
            post.lookup(other_h1, other) == self.lookup(other_h1, other),
    {
        reveal(obeys_eq_spec_properties);
        if removed is Some {
            let i = self.slot_of(h1, key);
            self.lemma_lookup(i, h1, key);
            self.lemma_with_removed(i);
            if self.contains(other_h1, other) {
                let j = self.slot_of(other_h1, other);
                assert(post.holds(j, other_h1, other)) by {
                    if i == j {
                        assert(key.eq_spec(&self.entry(i).key));
                    }
                }
                self.lemma_lookup(j, other_h1, other);
                post.lemma_lookup(j, other_h1, other);
            } else if post.contains(other_h1, other) {
                assert(self.holds(post.slot_of(other_h1, other), other_h1, other));
            }
        }
    }

    /// Storing twice under a key that is there gives back first what was in
    /// the write side and then what was read at the beginning: each write
    /// hands out the value that was stored two writes before.
    pub proof fn law_values_come_back_in_turn(
        self,
        mid: Self,
        post: Self,
        h1: usize,
        key: K,
        first: V,
        second: V,
        first_old: V,
        second_old: V,
    )
        requires
            key_model::<K>(),
            self.wf(),
            self.insert_outcome(mid, h1, key, first, Some(first_old)),
            mid.insert_outcome(post, h1, key, second, Some(second_old)),
        ensures
            first_old == self.lookup(h1, key)->0.write()->0.target,
            second_old == self.lookup(h1, key)->0.read().target,
            post.lookup(h1, key)->0.read().target == second,
            post.lookup(h1, key)->0.write()->0.target == first,
    {
        self.lemma_step(
            mid,
            Operation::Insert { h1, key, value: first, old_value: Some(first_old) },
        );
        self.law_entry_after_insert(mid, h1, key, first, Some(first_old), key);
        mid.law_entry_after_insert(post, h1, key, second, Some(second_old), key);
    }

    /// A writer shuts all other writers and every removal of the entry out,
    /// while readers go on reading what they read before.
    pub proof fn law_one_writer(self, post: Self, h1: usize, key: K, guard: WriteGuard<V>)
        requires
            key_model::<K>(),
            self.wf(),
            self.get_mut_outcome(post, h1, key, Some(guard)),
        ensures
            post.writing(guard),
            !post.write_ready(h1, key),
            !post.insert_ready(h1, key),
            !post.remove_ready(h1, key),
            guard.side().readers == 0,
            post.lookup(h1, key)->0.read() == self.lookup(h1, key)->0.read(),
    {
        self.lemma_step(post, Operation::GetMut { h1, key, taken: Some(guard) });
        let i = self.slot_of(h1, key);
        self.lemma_lookup(i, h1, key);
        assert(post.holds(i, h1, key));
        post.lemma_lookup(i, h1, key);
    }

    /// When a writer ends, readers get the value that it leaves, and the next
    /// writer gets the side that readers had before.
    pub proof fn law_write_shows(
        self,
        mid: Self,
        post: Self,
        h1: usize,
        key: K,
        taken: WriteGuard<V>,
        given: WriteGuard<V>,
    )
        requires
            key_model::<K>(),
            self.wf(),
            self.get_mut_outcome(mid, h1, key, Some(taken)),
            given.slot() == taken.slot(),
            mid.performs(post, Operation::ReleaseWrite { writer: given }),
        ensures
            post.contains(h1, key),
            post.lookup(h1, key)->0.read() == given.side(),
            post.lookup(h1, key)->0.write() == Some(self.lookup(h1, key)->0.read()),
    {
        let i = self.slot_of(h1, key);
        self.lemma_lookup(i, h1, key);
        assert(self.slot_wf(i));
        self.lemma_step(mid, Operation::GetMut { h1, key, taken: Some(taken) });
        mid.lemma_step(post, Operation::ReleaseWrite { writer: given });
        assert(post.holds(i, h1, key));
        post.lemma_lookup(i, h1, key);
    }

    /// Two writes that change nothing put an entry back as it was.
    pub proof fn law_two_idle_writes(self, i: int)
        requires
            0 <= i < self.slots(),
            self.slots() == self.entries.len(),
            self.live(i),
            self.entry(i).wf(),
            self.entry(i).unlocked(),
        ensures
            ({
                let once = self.entry(i).locked().published(self.entry(i).write()->0);
                let twice = once.locked().published(once.write()->0);
                self.with_entry(i, once).with_entry(i, twice) == self
            }),
    {
        let once = self.entry(i).locked().published(self.entry(i).write()->0);
        let twice = once.locked().published(once.write()->0);
        assert(twice == self.entry(i));
        assert(self.with_entry(i, once).with_entry(i, twice) =~= self);
    }

    /// A reader that comes and goes leaves no trace.
    pub proof fn law_reading_leaves_no_trace(
        self,
        mid: Self,
        post: Self,
        h1: usize,
        key: K,
        guard: ReadGuard,
    )
        requires
            key_model::<K>(),
            self.wf(),
            self.get_outcome(mid, h1, key, Some(guard)),
            mid.performs(post, Operation::ReleaseRead { reader: guard }),
        ensures
            post == self,
    {
        let i = self.slot_of(h1, key);
        self.lemma_lookup(i, h1, key);
        assert(self.slot_wf(i));
        assert(mid.entry(i).without_reader(guard.left()) == self.entry(i));
        assert(post =~= self);
    }

    /// A reader that comes in does not hold up the next write of its entry,
    /// nor its removal.
    pub proof fn law_reader_does_not_get_in_the_way(
        self,
        post: Self,
        h1: usize,
        key: K,
        guard: Option<ReadGuard>,
    )
        requires
            key_model::<K>(),
            self.wf(),
            self.get_outcome(post, h1, key, guard),
        ensures
            post.write_ready(h1, key) == self.write_ready(h1, key),
            post.insert_ready(h1, key) == self.insert_ready(h1, key),
            post.remove_ready(h1, key) == self.remove_ready(h1, key),
    {
        self.lemma_step(post, Operation::Get { h1, key, found: guard });
        if guard is Some {
            let i = self.slot_of(h1, key);
            self.lemma_lookup(i, h1, key);
            assert(self.slot_wf(i));
            assert(post.holds(i, h1, key));
            post.lemma_lookup(i, h1, key);
        }
    }

    /// There is only one place for a new entry.
    pub proof fn law_vacancy_is_unique(self, h1: usize, i: int, j: int)
        requires
            self.vacancy(h1, i),
            self.vacancy(h1, j),
        ensures
            i == j,
    {
        let m = choose|m: nat| self.offers(h1, m, i);
        let n = choose|n: nat| self.offers(h1, n, j);
        self.lemma_unused();
        if m < n {
            assert(self.meta[probe_slot(h1 as int, m, self.slots() as int)] != EMPTY_SLOT);
        } else if n < m {
            assert(self.meta[probe_slot(h1 as int, n, self.slots() as int)] != EMPTY_SLOT);
        }
    }
}

impl<K: PartialEq, V: Clone> TableView<K, V> {
    /// A borrowed key that stands for a key finds the entry of that key and no other.
    pub proof fn law_borrowed_key_finds_the_key<Q: PartialEq + ?Sized>(
        self,
        h1: usize,
        name: &Q,
        key: K,
    ) where K: Borrow<Q>
        requires
            key_model::<K>(),
            self.wf(),
            stands_for(name, key),
        ensures
            forall|i: int| #[trigger] self.named(i, h1, name) ==> self.holds(i, h1, key),
            self.lacks(h1, name) ==> !self.contains(h1, key),
            self.write_ready(h1, key) ==> self.write_ready_as(h1, name),
            self.remove_ready(h1, key) ==> self.remove_ready_as(h1, name),
    {
        assert forall|i: int| #[trigger] self.named(i, h1, name) implies self.holds(i, h1, key)
            && self.lookup(h1, key) == Some(self.entry(i)) by {
            assert(answers(self.entry(i).key, name, true));
            self.lemma_lookup(i, h1, key);
        }
        assert forall|i: int| self.lacks(h1, name) implies !self.holds(i, h1, key) by {
            if self.holds(i, h1, key) {
                assert(answers(self.entry(i).key, name, false));
            }
        }
    }

    /// Reading by a borrowed key does what reading by the key does.
    pub proof fn law_get_borrowed<Q: PartialEq + ?Sized>(
        self,
        post: Self,
        h1: usize,
        name: &Q,
        key: K,
        guard: Option<ReadGuard>,
    ) where K: Borrow<Q>
        requires
            key_model::<K>(),
            self.wf(),
            stands_for(name, key),
            self.get_outcome_as(post, h1, name, guard),
        ensures
            self.get_outcome(post, h1, key, guard),
    {
        self.law_borrowed_key_finds_the_key(h1, name, key);
        if guard is Some {
            self.lemma_lookup(guard->0.slot(), h1, key);
        }
    }

    /// Taking up writing by a borrowed key does what it does by the key.
    pub proof fn law_get_mut_borrowed<Q: PartialEq + ?Sized>(
        self,
        post: Self,
        h1: usize,
        name: &Q,
        key: K,
        guard: Option<WriteGuard<V>>,
    ) where K: Borrow<Q>
        requires
            key_model::<K>(),
            self.wf(),
            stands_for(name, key),
            self.get_mut_outcome_as(post, h1, name, guard),
        ensures
            self.get_mut_outcome(post, h1, key, guard),
    {
        self.law_borrowed_key_finds_the_key(h1, name, key);
        if guard is Some {
            self.lemma_lookup(guard->0.slot(), h1, key);
        }
    }

    /// Removing by a borrowed key does what removing by the key does.
    pub proof fn law_remove_borrowed<Q: PartialEq + ?Sized>(
        self,
        post: Self,
        h1: usize,
        name: &Q,
        key: K,
        removed: Option<V>,
    ) where K: Borrow<Q>
        requires
            key_model::<K>(),
            self.wf(),
            stands_for(name, key),
            self.remove_outcome_as(post, h1, name, removed),
        ensures
            self.remove_outcome(post, h1, key, removed),
    {
        self.law_borrowed_key_finds_the_key(h1, name, key);
        if removed is Some {
            let i = choose|i: int|
                #[trigger] self.named(i, h1, name) && self.removed_at(post, i, removed->0);
            self.lemma_lookup(i, h1, key);
        }
    }
}

impl<K: PartialEq, V: Clone> TableView<K, V> {
    /// The entry in a slot is the one for its own hash and key.
    proof fn lemma_own_key(self, i: int)
        requires
            key_model::<K>(),
            self.wf(),
            0 <= i < self.slots(),
            self.live(i),
        ensures
            self.contains(self.entry(i).hash, self.entry(i).key),
            self.slot_of(self.entry(i).hash, self.entry(i).key) == i,
    {
        assert(self.holds(i, self.entry(i).hash, self.entry(i).key));
        self.lemma_lookup(i, self.entry(i).hash, self.entry(i).key);
    }

    /// Whatever a borrowed key picks out, reading by it is reading the key of
    /// the entry that was picked out; where nothing was, nothing happens.
    pub proof fn law_get_borrowed_is_an_operation<Q: PartialEq + ?Sized>(
        self,
        post: Self,
        h1: usize,
        name: &Q,
        guard: Option<ReadGuard>,
    ) where K: Borrow<Q>
        requires
            key_model::<K>(),
            self.wf(),
            self.get_outcome_as(post, h1, name, guard),
        ensures
            match guard {
                None => post == self,
                Some(reader) => self.performs(
                    post,
                    Operation::Get { h1, key: self.entry(reader.slot()).key, found: guard },
                ),
            },
    {
        if guard is Some {
            self.lemma_own_key(guard->0.slot());
        }
    }

    /// Whatever a borrowed key picks out, taking up writing by it is doing so
    /// by the key of the entry that was picked out; where nothing was, nothing
    /// happens.
    pub proof fn law_get_mut_borrowed_is_an_operation<Q: PartialEq + ?Sized>(
        self,
        post: Self,
        h1: usize,
        name: &Q,
        guard: Option<WriteGuard<V>>,
    ) where K: Borrow<Q>
        requires
            key_model::<K>(),
            self.wf(),
            self.get_mut_outcome_as(post, h1, name, guard),
        ensures
            match guard {
                None => post == self,
                Some(writer) => self.performs(
                    post,
                    Operation::GetMut { h1, key: self.entry(writer.slot()).key, taken: guard },
                ),
            },
    {
        if guard is Some {
            self.lemma_own_key(guard->0.slot());
        }
    }

    /// Whatever a borrowed key picks out, removing by it is removing the key
    /// of the entry that was picked out; where nothing was, nothing happens.
    pub proof fn law_remove_borrowed_is_an_operation<Q: PartialEq + ?Sized>(
        self,
        post: Self,
        h1: usize,
        name: &Q,
        removed: Option<V>,
    ) where K: Borrow<Q>
        requires
            key_model::<K>(),
            self.wf(),
            self.remove_outcome_as(post, h1, name, removed),
        ensures
            match removed {
                None => post == self,
                Some(_) => exists|i: int|
                    {
                        &&& #[trigger] self.named(i, h1, name)
                        &&& self.performs(
                            post,
                            Operation::Remove { h1, key: self.entry(i).key, removed },
                        )
                    },
            },
    {
        if removed is Some {
            let i = choose|i: int|
                #[trigger] self.named(i, h1, name) && self.removed_at(post, i, removed->0);
            self.lemma_own_key(i);
            assert(self.performs(post, Operation::Remove { h1, key: self.entry(i).key, removed }));
        }
    }
}

impl<K, V> TableEntry<K, V> {
    /// Replacing the value of an entry leaves it with two sides and no writer.
    /// The sides have traded places and count the same readers as before.
    pub proof fn law_replace_keeps_both_sides(self, value: V)
        requires
            self.wf(),
            self.unlocked(),
        ensures
            self.replaced(value).wf(),
            self.replaced(value).unlocked(),
            self.replaced(value).left is Some,
            self.replaced(value).right is Some,
            self.replaced(value).read_left != self.read_left,
            self.replaced(value).read().target == value,
            self.replaced(value).write() == Some(self.read()),
            self.replaced(value).left->0.readers == self.left->0.readers,
            self.replaced(value).right->0.readers == self.right->0.readers,
            self.replaced(value).key == self.key,
            self.replaced(value).hash == self.hash,
    {
    }
}

impl<K: Eq + Hash, V: Clone, S: BuildHasher> JanusMap<K, V, S> {
    /// Storing a value in the map is an operation of its table, so that all
    /// that holds of operations holds of it.
    pub proof fn law_insert_is_an_operation(
        self,
        post: Self,
        key: K,
        value: V,
        old_value: Option<V>,
    )
        requires
            self.insert_effect(post, key, value, old_value),
        ensures
            exists|h1: usize|
                #[trigger] self@.performs(
                    post@,
                    Operation::Insert { h1, key, value, old_value },
                ),
    {
        let h1 = choose|h1: usize|
            {
                &&& #[trigger] hashes_to(self.hasher(), &key, h1)
                &&& self@.insert_outcome(post@, h1, key, value, old_value)
            };
        assert(self@.performs(post@, Operation::Insert { h1, key, value, old_value }));
    }

    /// Reading the map changes nothing or is an operation of its table.
    pub proof fn law_get_is_an_operation<Q: Hash + Eq + ?Sized>(
        self,
        post: Self,
        name: &Q,
        guard: Option<ReadGuard>,
    ) where K: Borrow<Q>
        requires
            self.wf(),
            self.get_effect(post, name, guard),
        ensures
            match guard {
                None => post@ == self@,
                Some(_) => exists|h1: usize, key: K|
                    #[trigger] self@.performs(post@, Operation::Get { h1, key, found: guard }),
            },
    {
        let h1 = choose|h1: usize|
            {
                &&& #[trigger] hashes_to(self.hasher(), name, h1)
                &&& self@.get_outcome_as(post@, h1, name, guard)
            };
        self@.law_get_borrowed_is_an_operation(post@, h1, name, guard);
    }

    /// Taking up writing in the map changes nothing or is an operation of its table.
    pub proof fn law_get_mut_is_an_operation<Q: Hash + Eq + ?Sized>(
        self,
        post: Self,
        name: &Q,
        guard: Option<WriteGuard<V>>,
    ) where K: Borrow<Q>
        requires
            self.wf(),
            self.get_mut_effect(post, name, guard),
        ensures
            match guard {
                None => post@ == self@,
                Some(_) => exists|h1: usize, key: K|
                    #[trigger] self@.performs(post@, Operation::GetMut { h1, key, taken: guard }),
            },
    {
        let h1 = choose|h1: usize|
            {
                &&& #[trigger] hashes_to(self.hasher(), name, h1)
                &&& self@.get_mut_outcome_as(post@, h1, name, guard)
            };
        self@.law_get_mut_borrowed_is_an_operation(post@, h1, name, guard);
    }

    /// Removing from the map changes nothing or is an operation of its table.
    pub proof fn law_remove_is_an_operation<Q: Hash + Eq + ?Sized>(
        self,
        post: Self,
        name: &Q,
        removed: Option<V>,
    ) where K: Borrow<Q>
        requires
            self.wf(),
            self.remove_effect(post, name, removed),
        ensures
            match removed {
                None => post@ == self@,
                Some(_) => exists|h1: usize, key: K|
                    #[trigger] self@.performs(post@, Operation::Remove { h1, key, removed }),
            },
    {
        let h1 = choose|h1: usize|
            {
                &&& #[trigger] hashes_to(self.hasher(), name, h1)
                &&& self@.remove_outcome_as(post@, h1, name, removed)
            };
        self@.law_remove_borrowed_is_an_operation(post@, h1, name, removed);
    }

    /// Reading a key gives what was stored last under it, and the guard reads it.
    pub proof fn law_get_after_insert<Q: Hash + Eq + ?Sized>(
        self,
        mid: Self,
        post: Self,
        key: K,
        value: V,
        old_value: Option<V>,
        name: &Q,
        guard: Option<ReadGuard>,
    ) where K: Borrow<Q>
        requires
            self.wf(),
            self.insert_effect(mid, key, value, old_value),
            mid.same_map(self),
            mid.get_effect(post, name, guard),
            stands_for(name, key),
            hash_alike(self.hasher(), &key, name),
        ensures
            guard is Some,
            post@.reading(guard->0),
            old_value is None ==> cloned(value, post@.value_of(guard->0)),
            old_value is Some ==> post@.value_of(guard->0) == value,
    {
        let h1 = choose|h1: usize|
            {
                &&& #[trigger] hashes_to(self.hasher(), &key, h1)
                &&& self@.insert_outcome(mid@, h1, key, value, old_value)
            };
        let h2 = choose|h2: usize|
            {
                &&& #[trigger] hashes_to(mid.hasher(), name, h2)
                &&& mid@.get_outcome_as(post@, h2, name, guard)
            };
        assert(h1 == h2);
        self@.law_consistent(mid@, Operation::Insert { h1, key, value, old_value });
        mid@.law_get_borrowed(post@, h1, name, key, guard);
        self@.law_read_after_insert(mid@, post@, h1, key, value, old_value, key, guard);
    }

    /// Storing a value under a key that is not there gives nothing back, and
    /// storing one under a key that is there gives something back.
    pub proof fn law_insert_tells_new_from_old(
        self,
        mid: Self,
        post: Self,
        key: K,
        value: V,
        old_value: Option<V>,
        other: K,
        other_value: V,
        second_old: Option<V>,
    )
        requires
            self.wf(),
            self.insert_effect(mid, key, value, old_value),
            mid.same_map(self),
            mid.insert_effect(post, other, other_value, second_old),
            key.eq_spec(&other),
            hash_alike(self.hasher(), &key, &other),
        ensures
            self@.len() == 0 ==> old_value is None,
            second_old is Some,
            old_value is None ==> second_old == Some(value),
    {
        let h1 = choose|h1: usize|
            {
                &&& #[trigger] hashes_to(self.hasher(), &key, h1)
                &&& self@.insert_outcome(mid@, h1, key, value, old_value)
            };
        let h2 = choose|h2: usize|
            {
                &&& #[trigger] hashes_to(mid.hasher(), &other, h2)
                &&& mid@.insert_outcome(post@, h2, other, other_value, second_old)
            };
        assert(h1 == h2);
        self@.law_entry_after_insert(mid@, h1, key, value, old_value, other);
        if old_value is Some {
            self@.lemma_empty();
        }
    }

    /// A key that was stored for the first time is found by a writer, with
    /// the value that was stored.
    pub proof fn law_get_mut_after_first_insert<Q: Hash + Eq + ?Sized>(
        self,
        mid: Self,
        post: Self,
        key: K,
        value: V,
        name: &Q,
        guard: Option<WriteGuard<V>>,
    ) where K: Borrow<Q>
        requires
            self.wf(),
            self.insert_effect(mid, key, value, None),
            mid.same_map(self),
            mid.get_mut_effect(post, name, guard),
            stands_for(name, key),
            hash_alike(self.hasher(), &key, name),
        ensures
            mid.write_ready(name),
            guard is Some,
            guard->0.value() == value,
    {
        let h1 = choose|h1: usize|
            {
                &&& #[trigger] hashes_to(self.hasher(), &key, h1)
                &&& self@.insert_outcome(mid@, h1, key, value, None)
            };
        let h2 = choose|h2: usize|
            {
                &&& #[trigger] hashes_to(mid.hasher(), name, h2)
                &&& mid@.get_mut_outcome_as(post@, h2, name, guard)
            };
        assert(h1 == h2);
        self@.law_consistent(mid@, Operation::Insert { h1, key, value, old_value: None });
        mid@.law_get_mut_borrowed(post@, h1, name, key, guard);
        self@.law_write_after_first_insert(mid@, post@, h1, key, value, key, guard);
        mid@.law_borrowed_key_finds_the_key(h1, name, key);
    }

    /// A key that was stored for the first time can be removed, which gives a
    /// clone of the value and leaves as many entries as there were before.
    pub proof fn law_remove_after_first_insert<Q: Hash + Eq + ?Sized>(
        self,
        mid: Self,
        post: Self,
        key: K,
        value: V,
        name: &Q,
        removed: Option<V>,
    ) where K: Borrow<Q>
        requires
            self.wf(),
            self.insert_effect(mid, key, value, None),
            mid.same_map(self),
            mid.remove_effect(post, name, removed),
            stands_for(name, key),
            hash_alike(self.hasher(), &key, name),
        ensures
            mid.remove_ready(name),
            removed is Some,
            cloned(value, removed->0),
            post@.len() == self@.len(),
    {
        let h1 = choose|h1: usize|
            {
                &&& #[trigger] hashes_to(self.hasher(), &key, h1)
                &&& self@.insert_outcome(mid@, h1, key, value, None)
            };
        let h2 = choose|h2: usize|
            {
                &&& #[trigger] hashes_to(mid.hasher(), name, h2)
                &&& mid@.remove_outcome_as(post@, h2, name, removed)
            };
        assert(h1 == h2);
        self@.law_consistent(mid@, Operation::Insert { h1, key, value, old_value: None });
        mid@.law_remove_borrowed(post@, h1, name, key, removed);
        self@.law_remove_after_first_insert(mid@, post@, h1, key, value, key, removed);
        mid@.law_borrowed_key_finds_the_key(h1, name, key);
    }

    /// Storing a value leaves all other keys alone.
    pub proof fn law_insert_leaves_other_keys(
        self,
        post: Self,
        key: K,
        value: V,
        old_value: Option<V>,
        other: K,
        h1: usize,
    )
        requires
            self.wf(),
            self.insert_effect(post, key, value, old_value),
            !key.eq_spec(&other),
        ensures
            post@.lookup(h1, other) == self@.lookup(h1, other),
    {
        let h = choose|h: usize|
            {
                &&& #[trigger] hashes_to(self.hasher(), &key, h)
                &&& self@.insert_outcome(post@, h, key, value, old_value)
            };
        self@.law_other_keys(post@, Operation::Insert { h1: h, key, value, old_value }, h1, other);
    }

    /// Removing a key leaves all other keys alone.
    pub proof fn law_remove_leaves_other_keys<Q: Hash + Eq + ?Sized>(
        self,
        post: Self,
        name: &Q,
        key: K,
        removed: Option<V>,
        other: K,
        h1: usize,
    ) where K: Borrow<Q>
        requires
            self.wf(),
            self.remove_effect(post, name, removed),
            stands_for(name, key),
            !key.eq_spec(&other),
        ensures
            post@.lookup(h1, other) == self@.lookup(h1, other),
    {
        let h = choose|h: usize|
            {
                &&& #[trigger] hashes_to(self.hasher(), name, h)
                &&& self@.remove_outcome_as(post@, h, name, removed)
            };
        self@.law_remove_borrowed(post@, h, name, key, removed);
        self@.law_removal_leaves_other_keys(post@, h, key, removed, h1, other);
    }

    /// A key that was removed is not found any more.
    pub proof fn law_get_after_remove<P: Hash + Eq + ?Sized, Q: Hash + Eq + ?Sized>(
        self,
        mid: Self,
        post: Self,
        key: K,
        removed_name: &P,
        removed: Option<V>,
        name: &Q,
        guard: Option<ReadGuard>,
    ) where K: Borrow<P> + Borrow<Q>
        requires
            self.wf(),
            self.remove_effect(mid, removed_name, removed),
            mid.wf(),
            mid.same_map(self),
            mid.get_effect(post, name, guard),
            stands_for(removed_name, key),
            stands_for(name, key),
            hash_alike(self.hasher(), removed_name, name),
        ensures
            guard is None,
            post@ == mid@,
    {
        let h1 = choose|h1: usize|
            {
                &&& #[trigger] hashes_to(self.hasher(), removed_name, h1)
                &&& self@.remove_outcome_as(mid@, h1, removed_name, removed)
            };
        let h2 = choose|h2: usize|
            {
                &&& #[trigger] hashes_to(mid.hasher(), name, h2)
                &&& mid@.get_outcome_as(post@, h2, name, guard)
            };
        assert(h1 == h2);
        self@.law_remove_borrowed(mid@, h1, removed_name, key, removed);
        mid@.law_get_borrowed(post@, h1, name, key, guard);
        match removed {
            Some(value) => self@.law_removed(mid@, h1, key, value, key),
            None => {},
        }
    }

    /// A key that is in the map is found by whatever stands for it and hashes
    /// like it.
    pub proof fn law_key_in_the_map_is_found<Q: Hash + Eq + ?Sized>(
        self,
        post: Self,
        i: int,
        name: &Q,
        guard: Option<ReadGuard>,
    ) where K: Borrow<Q>
        requires
            self.wf(),
            0 <= i < self@.slots(),
            self@.live(i),
            stands_for(name, self@.entry(i).key),
            hash_alike(self.hasher(), &self@.entry(i).key, name),
            self.get_effect(post, name, guard),
        ensures
            guard is Some,
            guard->0.slot() == i,
            post@.attached(guard->0),
            post@.value_of(guard->0) == self@.entry(i).read().target,
    {
        let key = self@.entry(i).key;
        let h1 = choose|h1: usize|
            {
                &&& #[trigger] hashes_to(self.hasher(), name, h1)
                &&& self@.get_outcome_as(post@, h1, name, guard)
            };
        assert(hashes_to(self.hasher(), &key, self@.entry(i).hash));
        assert(self@.holds(i, h1, key));
        assert(self@.slot_wf(i));
        self@.lemma_lookup(i, h1, key);
        self@.law_get_borrowed(post@, h1, name, key, guard);
    }

    /// A key that is in the map is found by its borrowed form, where keys are
    /// equal exactly if their borrowed forms are.
    pub proof fn law_key_is_found_by_its_borrowed_form<Q: Hash + Eq + ?Sized>(
        self,
        post: Self,
        i: int,
        form: &Q,
        guard: Option<ReadGuard>,
    ) where K: Borrow<Q>
        requires
            self.wf(),
            0 <= i < self@.slots(),
            self@.live(i),
            borrow_agrees::<K, Q>(),
            borrows_as(self@.entry(i).key, form),
            hash_alike(self.hasher(), &self@.entry(i).key, form),
            self.get_effect(post, form, guard),
        ensures
            guard is Some,
            guard->0.slot() == i,
            post@.attached(guard->0),
            post@.value_of(guard->0) == self@.entry(i).read().target,
    {
        lemma_borrowed_form_stands_for_key(self@.entry(i).key, form);
        self.law_key_in_the_map_is_found(post, i, form, guard);
    }

    /// An empty map gives nothing, whatever is looked up in it.
    pub proof fn law_nothing_is_found_in_an_empty_map<Q: Hash + Eq + ?Sized>(
        self,
        post: Self,
        name: &Q,
        guard: Option<ReadGuard>,
    ) where K: Borrow<Q>
        requires
            self.wf(),
            self@.len() == 0,
            self.get_effect(post, name, guard),
        ensures
            guard is None,
            post@ == self@,
    {
        let h1 = choose|h1: usize|
            {
                &&& #[trigger] hashes_to(self.hasher(), name, h1)
                &&& self@.get_outcome_as(post@, h1, name, guard)
            };
        if guard is Some {
            let i = guard->0.slot();
            self@.lemma_empty();
            assert(self@.holds(i, h1, self@.entry(i).key));
            assert(self@.contains(h1, self@.entry(i).key));
        }
    }

    /// A map is empty exactly if no key is found in it, given what reading
    /// each key would lead to and find.
    pub proof fn law_empty_exactly_if_nothing_is_found(
        self,
        posts: spec_fn(K) -> Self,
        found: spec_fn(K) -> Option<ReadGuard>,
    )
        requires
            self.wf(),
            forall|key: K| #[trigger] stands_for::<K, K>(&key, key),
            forall|key: K| #[trigger] hash_alike(self.hasher(), &key, &key),
            forall|key: K| self.get_effect(posts(key), &key, #[trigger] found(key)),
        ensures
            self@.len() == 0 <==> forall|key: K| (#[trigger] found(key)) is None,
    {
        self@.lemma_empty();
        if self@.len() == 0 {
            assert forall|key: K| (#[trigger] found(key)) is None by {
                self.law_nothing_is_found_in_an_empty_map(posts(key), &key, found(key));
            }
        } else {
            let (h1, other) = choose|h1: usize, other: K| #[trigger] self@.contains(h1, other);
            let i = self@.slot_of(h1, other);
            let key = self@.entry(i).key;
            assert(stands_for::<K, K>(&key, key));
            assert(hash_alike(self.hasher(), &key, &key));
            self.law_key_in_the_map_is_found(posts(key), i, &key, found(key));
        }
    }
}

/// A table has at least as many slots as the entries it was made for, and
/// more than that for all but the two smallest capacities, so that many keys
/// can be stored in a new map without waiting for a slot.
pub proof fn law_room_for_capacity(capacity: usize)
    ensures
        slot_count(capacity) >= effective_capacity(capacity) >= capacity,
        capacity == 0 || capacity >= 3 ==> slot_count(capacity) > effective_capacity(capacity),
{
    lemma_least_pow2((effective_capacity(capacity) * 8 / 6) as nat);
}

} // verus!
