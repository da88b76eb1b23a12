//! The two-sided entry that a slot of the table points at.
//!
//! An entry keeps its value twice. Readers look at one side while a writer
//! works on the other, and the sides trade places after every write. A writer
//! takes the write side out of the entry for as long as it works, so at most
//! one writer can be active per entry.

use vstd::prelude::*;

verus! {

/// One side of an entry: a value and the number of readers looking at it.
pub struct TrackingEntry<V> {
    pub target: V,
    pub readers: u16,
}

/// The reader count after one more reader arrived; the count wraps around.
pub open spec fn one_more(readers: u16) -> u16 {
    if readers == u16::MAX {
        0
    } else {
        (readers + 1) as u16
    }
}

/// The reader count after one reader left; the count wraps around.
pub open spec fn one_less(readers: u16) -> u16 {
    if readers == 0 {
        u16::MAX
    } else {
        (readers - 1) as u16
    }
}

impl<V> TrackingEntry<V> {
    /// Counts one more reader.
    pub fn add_reader(&mut self)
        ensures
            final(self).target == old(self).target,
            final(self).readers == one_more(old(self).readers),
    {
        self.readers = self.readers.wrapping_add(1);
    }

    /// Counts one reader less.
    pub fn drop_reader(&mut self)
        ensures
            final(self).target == old(self).target,
            final(self).readers == one_less(old(self).readers),
    {
        self.readers = self.readers.wrapping_sub(1);
    }
}

/// A key, its hash, and the two sides of its value.
pub struct TableEntry<K, V> {
    pub key: K,
    pub hash: usize,
    pub left: Option<TrackingEntry<V>>,
    pub right: Option<TrackingEntry<V>>,
    /// Whether the left side is the one that readers look at.
    pub read_left: bool,
}

impl<K, V> TableEntry<K, V> {
    /// The left or the right side.
    pub open spec fn side(self, left: bool) -> Option<TrackingEntry<V>> {
        if left {
            self.left
        } else {
            self.right
        }
    }

    /// The side that readers look at.
    pub open spec fn read(self) -> TrackingEntry<V> {
        self.side(self.read_left)->0
    }

    /// The side that the next writer works on, absent while a writer is active.
    pub open spec fn write(self) -> Option<TrackingEntry<V>> {
        self.side(!self.read_left)
    }

    /// There is always something to read.
    pub open spec fn wf(self) -> bool {
        self.side(self.read_left) is Some
    }

    /// No writer is active.
    pub open spec fn unlocked(self) -> bool {
        self.write() is Some
    }

    /// No writer is active and no reader is left on the side to be written.
    pub open spec fn writable(self) -> bool {
        self.write() is Some && self.write()->0.readers == 0
    }

    /// Some reader looks at this side.
    pub open spec fn read_on(self, left: bool) -> bool {
        self.side(left) is Some && self.side(left)->0.readers > 0
    }

    /// Some reader looks at the entry.
    pub open spec fn has_readers(self) -> bool {
        self.read_on(true) || self.read_on(false)
    }

    /// The entry with one side exchanged.
    pub open spec fn with_side(self, left: bool, side: Option<TrackingEntry<V>>) -> Self {
        if left {
            TableEntry { left: side, ..self }
        } else {
            TableEntry { right: side, ..self }
        }
    }

    /// The entry with another reader count on one side.
    pub open spec fn with_readers(self, left: bool, readers: u16) -> Self {
        self.with_side(left, Some(TrackingEntry { target: self.side(left)->0.target, readers }))
    }

    /// The entry after a reader has arrived.
    pub open spec fn with_reader(self) -> Self {
        self.with_readers(self.read_left, one_more(self.read().readers))
    }

    /// The entry after a reader has left the given side.
    pub open spec fn without_reader(self, left: bool) -> Self {
        self.with_readers(left, one_less(self.side(left)->0.readers))
    }

    /// The entry while a writer holds its write side.
    pub open spec fn locked(self) -> Self {
        self.with_side(!self.read_left, None)
    }

    /// The entry after `side` came back from a writer: readers now look at it,
    /// and the next writer gets the side they looked at before.
    pub open spec fn published(self, side: TrackingEntry<V>) -> Self {
        TableEntry {
            read_left: !self.read_left,
            ..self.with_side(!self.read_left, Some(side))
        }
    }

    /// The entry after its value was replaced.
    pub open spec fn replaced(self, value: V) -> Self {
        self.published(TrackingEntry { target: value, readers: self.write()->0.readers })
    }

    /// An entry as it is made for a key that was not in the table: the write
    /// side holds the value itself and the read side a clone of it.
    pub open spec fn fresh(self, key: K, hash: usize, value: V) -> bool where V: Clone {
        &&& self.key == key
        &&& self.hash == hash
        &&& self.left matches Some(left) && cloned(value, left.target) && left.readers == 0
        &&& self.right == Some(TrackingEntry { target: value, readers: 0 })
        &&& self.read_left
    }

    /// Makes the entry for a key that is not in the table yet.
    pub fn new(key: K, hash: usize, value: V) -> (entry: Box<TableEntry<K, V>>) where V: Clone
        ensures
            entry.fresh(key, hash, value),
    {
        Self::alloc_entry(key, hash, value)
    }

    fn alloc_entry(key: K, hash: usize, value: V) -> (entry: Box<TableEntry<K, V>>) where V: Clone
        ensures
            entry.fresh(key, hash, value),
    {
        let left = TrackingEntry { target: value.clone(), readers: 0 };
        let right = TrackingEntry { target: value, readers: 0 };
        Box::new(
            TableEntry { key, hash, left: Some(left), right: Some(right), read_left: true },
        )
    }

    /// Takes an entry that was never put into the table apart again.
    pub fn reclaim_entry(entry: Box<TableEntry<K, V>>) -> (parts: (K, V))
        requires
            entry.left is Some,
        ensures
            parts.0 == entry.key,
            parts.1 == entry.left->0.target,
    {
        let entry = *entry;
        (entry.key, entry.left.unwrap().target)
    }

    /// Frees an entry together with its values and hands its key back.
    pub fn free_entry(entry: Option<Box<TableEntry<K, V>>>) -> (key: Option<K>)
        ensures
            entry is None ==> key is None,
            entry matches Some(e) ==> key == Some(e.key),
    {
        match entry {
            None => None,
            Some(entry) => {
                let entry = *entry;
                Some(entry.key)
            },
        }
    }

    /// Lets a reader in on the read side and tells which side that is.
    pub fn acquire_read(&mut self) -> (left: bool)
        requires
            old(self).wf(),
        ensures
            left == old(self).read_left,
            *final(self) == old(self).with_reader(),
    {
        let left = self.read_left;
        match if left { &mut self.left } else { &mut self.right } {
            Some(side) => side.add_reader(),
            None => {},
        }
        left
    }

    /// Lets a reader leave the side that it looked at.
    pub fn release_read(&mut self, left: bool)
        requires
            old(self).side(left) is Some,
        ensures
            *final(self) == old(self).without_reader(left),
    {
        match if left { &mut self.left } else { &mut self.right } {
            Some(side) => side.drop_reader(),
            None => {},
        }
    }

    /// Takes the write side out of the entry; there is none while a writer is active.
    pub fn acquire_write(&mut self) -> (side: Option<TrackingEntry<V>>)
        ensures
            side == old(self).write(),
            *final(self) == old(self).locked(),
    {
        if self.read_left {
            self.right.take()
        } else {
            self.left.take()
        }
    }

    /// Brings a write side back as if it had not been taken.
    pub fn restore_write(&mut self, side: TrackingEntry<V>)
        ensures
            *final(self) == old(self).with_side(!old(self).read_left, Some(side)),
    {
        if self.read_left {
            self.right = Some(side);
        } else {
            self.left = Some(side);
        }
    }

    /// Brings a write side back and lets the two sides trade places.
    pub fn publish(&mut self, side: TrackingEntry<V>)
        requires
            !old(self).unlocked(),
        ensures
            *final(self) == old(self).published(side),
    {
        if self.read_left {
            self.right = Some(side);
        } else {
            self.left = Some(side);
        }
        self.read_left = !self.read_left;
    }

    /// Tells whether no writer is active.
    pub fn is_unlocked(&self) -> (b: bool)
        ensures
            b == self.unlocked(),
    {
        if self.read_left {
            self.right.is_some()
        } else {
            self.left.is_some()
        }
    }

    /// Tells whether a writer could start right now.
    pub fn is_writable(&self) -> (b: bool)
        ensures
            b == self.writable(),
    {
        match if self.read_left { &self.right } else { &self.left } {
            Some(side) => side.readers == 0,
            None => false,
        }
    }

    /// Tells whether somebody reads the entry.
    pub fn is_read(&self) -> (b: bool)
        ensures
            b == self.has_readers(),
    {
        let left = match &self.left {
            Some(side) => side.readers > 0,
            None => false,
        };
        let right = match &self.right {
            Some(side) => side.readers > 0,
            None => false,
        };
        left || right
    }
}

} // verus!
