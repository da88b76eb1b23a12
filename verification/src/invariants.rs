//! Every change that the table makes to itself keeps it consistent.

use crate::entry::TableEntry;
use crate::hash_metadata::{lemma_metadata_range, metadata, EMPTY_SLOT, TOMBSTONE_SLOT};
use crate::probe::{distance, lemma_probe_reaches_every_slot, probe_slot};
use crate::state::{count_where, key_model, TableView};
use vstd::arithmetic::div_mod::lemma_mod_bound;
use vstd::laws_eq::obeys_eq_spec_properties;
use vstd::prelude::*;
use vstd::std_specs::cmp::PartialEqSpec;

verus! {

/// Exchanging one element changes the count by what the two elements contribute.
pub proof fn lemma_count_update<A>(s: Seq<A>, i: int, a: A, p: spec_fn(A) -> bool)
    requires
        0 <= i < s.len(),
    ensures
        count_where(s.update(i, a), p) + (if p(s[i]) { 1int } else { 0int }) == count_where(s, p)
            + (if p(a) { 1int } else { 0int }),
    decreases s.len(),
{
    let t = s.update(i, a);
    if i == s.len() - 1 {
        assert(t.drop_last() =~= s.drop_last());
    } else {
        assert(t.drop_last() =~= s.drop_last().update(i, a));
        lemma_count_update(s.drop_last(), i, a, p);
    }
}

/// A count lies between zero and the length.
pub proof fn lemma_count_bound<A>(s: Seq<A>, p: spec_fn(A) -> bool)
    ensures
        count_where(s, p) <= s.len(),
    decreases s.len(),
{
    if s.len() > 0 {
        lemma_count_bound(s.drop_last(), p);
    }
}

/// An element that satisfies `p` shows in the count.
pub proof fn lemma_count_positive<A>(s: Seq<A>, i: int, p: spec_fn(A) -> bool)
    requires
        0 <= i < s.len(),
        p(s[i]),
    ensures
        count_where(s, p) > 0,
    decreases s.len(),
{
    if i < s.len() - 1 {
        assert(s.drop_last()[i] == s[i]);
        lemma_count_positive(s.drop_last(), i, p);
    }
}

/// A positive count has an element behind it.
pub proof fn lemma_count_witness<A>(s: Seq<A>, p: spec_fn(A) -> bool) -> (i: int)
    requires
        count_where(s, p) > 0,
    ensures
        0 <= i < s.len(),
        p(s[i]),
    decreases s.len(),
{
    if p(s.last()) {
        s.len() - 1
    } else {
        let i = lemma_count_witness(s.drop_last(), p);
        assert(s.drop_last()[i] == s[i]);
        i
    }
}

/// If all elements agree on `p`, the count is zero or the length.
pub proof fn lemma_count_uniform<A>(s: Seq<A>, value: bool, p: spec_fn(A) -> bool)
    requires
        forall|i: int| 0 <= i < s.len() ==> p(#[trigger] s[i]) == value,
    ensures
        count_where(s, p) == if value { s.len() } else { 0 },
    decreases s.len(),
{
    if s.len() > 0 {
        let t = s.drop_last();
        assert forall|i: int| 0 <= i < t.len() implies p(#[trigger] t[i]) == value by {
            assert(t[i] == s[i]);
        }
        assert(p(s[s.len() - 1]) == value);
        lemma_count_uniform(t, value, p);
    }
}

/// If the count is the length, all elements satisfy `p`.
pub proof fn lemma_count_all<A>(s: Seq<A>, p: spec_fn(A) -> bool)
    requires
        count_where(s, p) == s.len(),
    ensures
        forall|i: int| 0 <= i < s.len() ==> p(#[trigger] s[i]),
    decreases s.len(),
{
    if s.len() > 0 {
        let t = s.drop_last();
        lemma_count_bound(t, p);
        lemma_count_all(t, p);
        assert forall|i: int| 0 <= i < s.len() implies p(#[trigger] s[i]) by {
            if i < s.len() - 1 {
                assert(t[i] == s[i]);
            }
        }
    }
}

/// Where exactly one of three things holds of every position, the three counts
/// add up to the length.
proof fn lemma_count_thirds<A, B>(
    a: Seq<A>,
    b: Seq<A>,
    c: Seq<B>,
    p: spec_fn(A) -> bool,
    q: spec_fn(B) -> bool,
)
    requires
        a.len() == b.len() == c.len(),
        forall|i: int|
            0 <= i < a.len() ==> !(p(#[trigger] a[i]) && p(b[i])) && q(c[i]) == (!p(a[i]) && !p(
                b[i],
            )),
    ensures
        count_where(a, p) + count_where(b, p) + count_where(c, q) == c.len(),
    decreases c.len(),
{
    if c.len() > 0 {
        let (a0, b0, c0) = (a.drop_last(), b.drop_last(), c.drop_last());
        assert forall|i: int| 0 <= i < a0.len() implies !(p(#[trigger] a0[i]) && p(b0[i])) && q(
            c0[i],
        ) == (!p(a0[i]) && !p(b0[i])) by {
            assert(a0[i] == a[i]);
        }
        lemma_count_thirds(a0, b0, c0, p, q);
        assert(a[a.len() - 1] == a.last());
    }
}

impl<K, V> TableView<K, V> {
    /// There are no more entries than slots.
    pub proof fn lemma_len_bound(self)
        ensures
            self.len() <= self.entries.len(),
    {
        lemma_count_bound(self.entries, |entry: Option<Box<TableEntry<K, V>>>| entry is Some);
    }

    /// There is an unused slot exactly if the count of unused slots is positive.
    pub proof fn lemma_unused(self)
        ensures
            self.unused() > 0 <==> exists|i: int|
                0 <= i < self.slots() && self.meta[i] == EMPTY_SLOT,
    {
        let p = |byte: u8| byte == EMPTY_SLOT;
        if self.unused() > 0 {
            let i = lemma_count_witness(self.meta, p);
            assert(self.meta[i] == EMPTY_SLOT);
        }
        assert forall|i: int| 0 <= i < self.slots() && self.meta[i]
            == EMPTY_SLOT implies self.unused() > 0 by {
            lemma_count_positive(self.meta, i, p);
        }
    }

    /// There is a slot for a new entry exactly if the count of such slots is positive.
    pub proof fn lemma_room(self)
        ensures
            self.room() > 0 <==> exists|i: int| 0 <= i < self.slots() && #[trigger] self.usable(i),
    {
        let p = |usable: bool| usable;
        if self.room() > 0 {
            let i = lemma_count_witness(self.usable_slots(), p);
            assert(self.usable(i));
        }
        assert forall|i: int| 0 <= i < self.slots() && #[trigger] self.usable(i) implies self.room()
            > 0 by {
            lemma_count_positive(self.usable_slots(), i, p);
        }
    }
}

impl<K: PartialEq, V> TableView<K, V> {
    /// A slot that was never used holds nothing.
    pub proof fn lemma_empty_slot(self, i: int)
        requires
            self.wf(),
            0 <= i < self.slots(),
            self.meta[i] == EMPTY_SLOT,
        ensures
            self.usable(i),
    {
        assert(self.slot_wf(i));
        if self.live(i) {
            lemma_metadata_range(self.entry(i).hash);
        }
    }

    /// Every slot holds an entry, or one that was in it waits for its
    /// readers, or it can take a new entry.
    pub proof fn lemma_slots_add_up(self)
        requires
            self.wf(),
        ensures
            self.len() + self.waiting_len() + self.room() == self.slots(),
    {
        let usable = self.usable_slots();
        assert forall|i: int| 0 <= i < usable.len() implies !(#[trigger] self.entries[i] is Some
            && self.waiting[i] is Some) && usable[i] == (self.entries[i] is None
            && self.waiting[i] is None) by {
            assert(self.slot_wf(i));
        }
        lemma_count_thirds(
            self.entries,
            self.waiting,
            usable,
            |entry: Option<Box<TableEntry<K, V>>>| entry is Some,
            |usable: bool| usable,
        );
    }

    /// A table has no entries exactly if it contains no key.
    pub proof fn lemma_empty(self)
        requires
            key_model::<K>(),
            self.wf(),
        ensures
            self.len() == 0 <==> forall|h1: usize, key: K| !#[trigger] self.contains(h1, key),
    {
        let p = |entry: Option<Box<TableEntry<K, V>>>| entry is Some;
        if self.len() > 0 {
            let i = lemma_count_witness(self.entries, p);
            assert(self.holds(i, self.entry(i).hash, self.entry(i).key));
            assert(self.contains(self.entry(i).hash, self.entry(i).key));
        }
        assert forall|h1: usize, key: K| #[trigger] self.contains(h1, key) implies self.len() > 0 by {
            lemma_count_positive(self.entries, self.slot_of(h1, key), p);
        }
    }

    /// A key has at most one slot.
    pub proof fn lemma_lookup(self, i: int, h1: usize, key: K)
        requires
            key_model::<K>(),
            self.wf(),
            self.holds(i, h1, key),
        ensures
            self.contains(h1, key),
            self.slot_of(h1, key) == i,
            self.lookup(h1, key) == Some(self.entry(i)),
            forall|j: int| self.holds(j, h1, key) ==> i == j,
    {
        reveal(obeys_eq_spec_properties);
        assert forall|j: int| self.holds(j, h1, key) implies i == j by {
            if i != j {
                assert(self.live(i) && self.live(j));
                assert(key.eq_spec(&self.entry(j).key));
            }
        }
    }

    /// A table whose entries are among those of a consistent table, in the
    /// same slots, with the same keys and hashes, and none of whose slots has
    /// gone back to being unused, keeps what a consistent table needs of its entries.
    proof fn lemma_fewer_entries(self, post: Self)
        requires
            self.wf(),
            post.slots() == self.slots(),
            forall|j: int|
                0 <= j < post.slots() && #[trigger] post.live(j) ==> {
                    &&& self.live(j)
                    &&& post.entry(j).key == self.entry(j).key
                    &&& post.entry(j).hash == self.entry(j).hash
                },
            forall|j: int|
                0 <= j < post.slots() && self.meta[j] != EMPTY_SLOT ==> #[trigger] post.meta[j]
                    != EMPTY_SLOT,
        ensures
            forall|j: int|
                0 <= j < post.slots() && #[trigger] post.live(j) ==> exists|n: nat|
                    post.reached(post.entry(j).hash, n, j),
            forall|j: int, k: int|
                0 <= j < post.slots() && 0 <= k < post.slots() && j != k && #[trigger] post.live(j)
                    && #[trigger] post.live(k) && post.entry(j).hash == post.entry(k).hash
                    ==> !post.entry(j).key.eq_spec(&post.entry(k).key),
    {
        assert forall|j: int| 0 <= j < post.slots() && #[trigger] post.live(j) implies exists|n: nat|
            post.reached(post.entry(j).hash, n, j) by {
            let h1 = self.entry(j).hash;
            let n = choose|n: nat| self.reached(h1, n, j);
            assert forall|m: nat| m < n implies post.meta[#[trigger] probe_slot(
                h1 as int,
                m,
                post.slots() as int,
            )] != EMPTY_SLOT by {
                lemma_mod_bound(h1 as int + distance(m), self.slots() as int);
                assert(self.meta[probe_slot(h1 as int, m, self.slots() as int)] != EMPTY_SLOT);
            }
            assert(post.reached(post.entry(j).hash, n, j));
        }
    }

    /// Exchanging an entry for one with the same key and hash keeps the table
    /// consistent and changes nothing else.
    pub proof fn lemma_with_entry(self, i: int, entry: TableEntry<K, V>)
        requires
            self.wf(),
            0 <= i < self.slots(),
            self.live(i),
            entry.wf(),
            entry.key == self.entry(i).key,
            entry.hash == self.entry(i).hash,
        ensures
            self.with_entry(i, entry).wf(),
            self.with_entry(i, entry).len() == self.len(),
            self.with_entry(i, entry).unused() == self.unused(),
            self.with_entry(i, entry).room() == self.room(),
            forall|j: int, h1: usize, key: K|
                #[trigger] self.with_entry(i, entry).holds(j, h1, key) == self.holds(j, h1, key),
    {
        let post = self.with_entry(i, entry);
        lemma_count_update(
            self.entries,
            i,
            Some(Box::new(entry)),
            |entry: Option<Box<TableEntry<K, V>>>| entry is Some,
        );
        assert(post.usable_slots() =~= self.usable_slots());
        assert forall|j: int| 0 <= j < post.slots() implies #[trigger] post.slot_wf(j) by {
            assert(self.slot_wf(j));
        }
        self.lemma_fewer_entries(post);
    }

    /// A new entry in the right place keeps the table consistent. It takes
    /// one of the slots that there were for new entries.
    pub proof fn lemma_with_added(self, i: int, entry: TableEntry<K, V>)
        requires
            key_model::<K>(),
            self.wf(),
            self.vacancy(entry.hash, i),
            entry.wf(),
            !self.contains(entry.hash, entry.key),
        ensures
            self.with_added(i, entry).wf(),
            self.with_added(i, entry).len() == self.len() + 1,
            self.with_added(i, entry).unused() == self.unused() - if self.meta[i] == EMPTY_SLOT {
                1int
            } else {
                0
            },
            self.with_added(i, entry).room() == self.room() - 1,
            forall|j: int, h1: usize, key: K|
                #[trigger] self.with_added(i, entry).holds(j, h1, key) == (self.holds(j, h1, key)
                    || j == i && entry.hash == h1 && entry.key.eq_spec(&key)),
    {
        let post = self.with_added(i, entry);
        lemma_metadata_range(entry.hash);
        reveal(obeys_eq_spec_properties);
        lemma_count_update(
            self.entries,
            i,
            Some(Box::new(entry)),
            |entry: Option<Box<TableEntry<K, V>>>| entry is Some,
        );
        lemma_count_update(
            self.meta,
            i,
            metadata(entry.hash),
            |byte: u8| byte == EMPTY_SLOT,
        );
        lemma_count_update(self.usable_slots(), i, false, |usable: bool| usable);
        assert(post.usable_slots() =~= self.usable_slots().update(i, false));
        assert forall|h1: usize, n: nat, j: int| self.reached(h1, n, j) implies #[trigger] post.reached(
            h1,
            n,
            j,
        ) by {
            assert forall|m: nat| m < n implies post.meta[#[trigger] probe_slot(
                h1 as int,
                m,
                post.slots() as int,
            )] != EMPTY_SLOT by {
                lemma_mod_bound(h1 as int + distance(m), self.slots() as int);
                assert(self.meta[probe_slot(h1 as int, m, self.slots() as int)] != EMPTY_SLOT);
            }
        }
        assert forall|j: int| 0 <= j < post.slots() implies #[trigger] post.slot_wf(j) by {
            assert(self.slot_wf(j));
        }
        assert forall|j: int| 0 <= j < post.slots() && #[trigger] post.live(j) implies exists|n: nat|
            post.reached(post.entry(j).hash, n, j) by {
            if j == i {
                let n = choose|n: nat| self.offers(entry.hash, n, i);
                assert(post.reached(post.entry(j).hash, n, j));
            } else {
                assert(self.live(j));
                let n = choose|n: nat| self.reached(self.entry(j).hash, n, j);
                assert(post.reached(post.entry(j).hash, n, j));
            }
        }
        assert forall|j: int, k: int|
            0 <= j < post.slots() && 0 <= k < post.slots() && j != k && #[trigger] post.live(j)
                && #[trigger] post.live(k) && post.entry(j).hash == post.entry(k).hash implies !post.entry(
            j,
        ).key.eq_spec(&post.entry(k).key) by {
            if j == i {
                assert(self.live(k));
                assert(!self.holds(k, entry.hash, entry.key));
                assert(!self.entry(k).key.eq_spec(&entry.key));
            } else if k == i {
                assert(self.live(j));
                assert(!self.holds(j, entry.hash, entry.key));
            } else {
                assert(self.live(j) && self.live(k));
            }
        }
    }

    /// Removing an entry keeps the table consistent and affects no other
    /// entry. Its slot can take a new entry, unless somebody reads the old one.
    pub proof fn lemma_with_removed(self, i: int)
        requires
            self.wf(),
            0 <= i < self.slots(),
            self.live(i),
        ensures
            self.with_removed(i).wf(),
            self.with_removed(i).len() == self.len() - 1,
            self.with_removed(i).unused() == self.unused(),
            self.with_removed(i).room() == self.room() + if self.entry(i).has_readers() {
                0int
            } else {
                1
            },
            forall|j: int, h1: usize, key: K|
                #[trigger] self.with_removed(i).holds(j, h1, key) == (self.holds(j, h1, key) && j
                    != i),
    {
        let post = self.with_removed(i);
        let free = !self.entry(i).has_readers();
        lemma_metadata_range(self.entry(i).hash);
        assert(self.slot_wf(i));
        lemma_count_update(
            self.entries,
            i,
            None,
            |entry: Option<Box<TableEntry<K, V>>>| entry is Some,
        );
        lemma_count_update(self.meta, i, TOMBSTONE_SLOT, |byte: u8| byte == EMPTY_SLOT);
        lemma_count_update(self.usable_slots(), i, free, |usable: bool| usable);
        assert(post.usable_slots() =~= self.usable_slots().update(i, free));
        assert forall|j: int| 0 <= j < post.slots() implies #[trigger] post.slot_wf(j) by {
            assert(self.slot_wf(j));
        }
        assert forall|j: int| 0 <= j < post.slots() && #[trigger] post.live(j) implies self.live(j)
            && j != i by {}
        self.lemma_fewer_entries(post);
    }

    /// A reader that leaves keeps the table consistent and changes no entry
    /// of the map. The last reader of a removed entry makes its slot usable.
    pub proof fn lemma_with_reader_gone(self, i: int, left: bool)
        requires
            self.wf(),
            0 <= i < self.slots(),
            self.held(i) matches Some(entry) && entry.side(left) is Some,
        ensures
            self.with_reader_gone(i, left).wf(),
            self.with_reader_gone(i, left).len() == self.len(),
            self.with_reader_gone(i, left).unused() == self.unused(),
            self.with_reader_gone(i, left).room() == self.room() + if !self.live(i)
                && self.with_reader_gone(i, left).waiting[i] is None {
                1int
            } else {
                0
            },
            forall|j: int, h1: usize, key: K|
                #[trigger] self.with_reader_gone(i, left).holds(j, h1, key) == self.holds(j, h1, key),
    {
        let entry = self.held(i)->0.without_reader(left);
        assert(self.slot_wf(i));
        if self.live(i) {
            self.lemma_with_entry(i, entry);
        } else {
            let post = self.with_reader_gone(i, left);
            let free = !entry.has_readers();
            lemma_count_update(self.usable_slots(), i, free, |usable: bool| usable);
            assert(post.usable_slots() =~= self.usable_slots().update(i, free));
            assert forall|j: int| 0 <= j < post.slots() implies #[trigger] post.slot_wf(j) by {
                assert(self.slot_wf(j));
            }
            assert forall|j: int| 0 <= j < post.slots() && #[trigger] post.live(j) implies self.live(
                j,
            ) by {}
            self.lemma_fewer_entries(post);
        }
    }

    /// As long as there is room, there is a place for every new entry.
    pub proof fn lemma_vacancy(self, h1: usize)
        requires
            self.wf(),
            self.room() > 0,
        ensures
            exists|i: int| self.vacancy(h1, i),
    {
        self.lemma_unused();
        self.lemma_room();
        let slot = if self.unused() > 0 {
            choose|i: int| 0 <= i < self.slots() && self.meta[i] == EMPTY_SLOT
        } else {
            choose|i: int| 0 <= i < self.slots() && #[trigger] self.usable(i)
        };
        lemma_probe_reaches_every_slot(h1 as int, slot, self.slots() as int);
        let n = choose|n: nat|
            n < self.slots() && #[trigger] probe_slot(h1 as int, n, self.slots() as int) == slot;
        if self.unused() > 0 {
            self.lemma_first_unused(h1, n);
        } else {
            self.lemma_first_usable(h1, n);
        }
    }

    /// If all slots on the way are used, then all slots are.
    pub proof fn lemma_all_used(self, h1: usize)
        requires
            self.wf(),
            self.path_used(h1, self.slots()),
        ensures
            self.unused() == 0,
    {
        self.lemma_unused();
        if self.unused() > 0 {
            let slot = choose|i: int| 0 <= i < self.slots() && self.meta[i] == EMPTY_SLOT;
            lemma_probe_reaches_every_slot(h1 as int, slot, self.slots() as int);
        }
    }

    /// If no slot on the way can take a new entry, then no slot can.
    pub proof fn lemma_no_room(self, h1: usize)
        requires
            self.wf(),
            self.path_taken(h1, self.slots()),
        ensures
            self.room() == 0,
    {
        self.lemma_room();
        if self.room() > 0 {
            let slot = choose|i: int| 0 <= i < self.slots() && #[trigger] self.usable(i);
            lemma_probe_reaches_every_slot(h1 as int, slot, self.slots() as int);
        }
    }

    /// Before every unused slot on the way comes the first one.
    proof fn lemma_first_unused(self, h1: usize, n: nat)
        requires
            self.wf(),
            n < self.slots(),
            self.meta[probe_slot(h1 as int, n, self.slots() as int)] == EMPTY_SLOT,
        ensures
            exists|i: int| self.vacancy(h1, i),
        decreases n,
    {
        lemma_mod_bound(h1 as int + distance(n), self.slots() as int);
        if self.path_used(h1, n) {
            let i = probe_slot(h1 as int, n, self.slots() as int);
            self.lemma_empty_slot(i);
            assert(self.offers(h1, n, i));
            assert(self.vacancy(h1, i));
        } else {
            let m = choose|m: nat|
                m < n && self.meta[#[trigger] probe_slot(h1 as int, m, self.slots() as int)]
                    == EMPTY_SLOT;
            self.lemma_first_unused(h1, m);
        }
    }

    /// Before every slot on the way that can take a new entry comes the first one.
    proof fn lemma_first_usable(self, h1: usize, n: nat)
        requires
            self.wf(),
            self.unused() == 0,
            n < self.slots(),
            self.usable(probe_slot(h1 as int, n, self.slots() as int)),
        ensures
            exists|i: int| self.vacancy(h1, i),
        decreases n,
    {
        lemma_mod_bound(h1 as int + distance(n), self.slots() as int);
        if self.path_taken(h1, n) {
            let i = probe_slot(h1 as int, n, self.slots() as int);
            self.lemma_unused();
            assert(self.path_used(h1, n)) by {
                assert forall|m: nat| m < n implies self.meta[#[trigger] probe_slot(
                    h1 as int,
                    m,
                    self.slots() as int,
                )] != EMPTY_SLOT by {
                    lemma_mod_bound(h1 as int + distance(m), self.slots() as int);
                }
            }
            assert(self.offers(h1, n, i));
            assert(self.vacancy(h1, i));
        } else {
            let m = choose|m: nat|
                m < n && self.usable(#[trigger] probe_slot(h1 as int, m, self.slots() as int));
            self.lemma_first_usable(h1, m);
        }
    }
}

} // verus!
