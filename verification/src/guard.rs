//! Handles on entries that are being read or written.

use crate::entry::TrackingEntry;
use vstd::prelude::*;

verus! {

/// Stands for one reader of one side of an entry.
///
/// The table counts the reader until the handle is given back.
pub struct ReadGuard {
    slot: usize,
    left: bool,
}

impl ReadGuard {
    /// The slot of the entry that is read.
    pub closed spec fn slot(self) -> int {
        self.slot as int
    }

    /// The side of the entry that is read.
    pub closed spec fn left(self) -> bool {
        self.left
    }

    pub(crate) fn new(slot: usize, left: bool) -> (guard: ReadGuard)
        ensures
            guard.slot() == slot,
            guard.left() == left,
    {
        ReadGuard { slot, left }
    }

    pub(crate) fn get_slot(&self) -> (slot: usize)
        ensures
            slot == self.slot(),
    {
        self.slot
    }

    pub(crate) fn get_left(&self) -> (left: bool)
        ensures
            left == self.left(),
    {
        self.left
    }
}

/// Holds the write side of an entry.
///
/// The holder is the only owner of that side. What it leaves in it shows to
/// readers once the handle is given back.
pub struct WriteGuard<V> {
    side: TrackingEntry<V>,
    slot: usize,
}

impl<V> WriteGuard<V> {
    /// The slot of the entry that is written.
    pub closed spec fn slot(self) -> int {
        self.slot as int
    }

    /// The side that the writer works on.
    pub closed spec fn side(self) -> TrackingEntry<V> {
        self.side
    }

    /// The value in the write side.
    pub open spec fn value(self) -> V {
        self.side().target
    }

    pub(crate) fn new(side: TrackingEntry<V>, slot: usize) -> (guard: WriteGuard<V>)
        ensures
            guard.slot() == slot,
            guard.side() == side,
    {
        WriteGuard { side, slot }
    }

    pub(crate) fn get_slot(&self) -> (slot: usize)
        ensures
            slot == self.slot(),
    {
        self.slot
    }

    pub(crate) fn get_readers(&self) -> (readers: u16)
        ensures
            readers == self.side().readers,
    {
        self.side.readers
    }

    pub(crate) fn into_side(self) -> (side: TrackingEntry<V>)
        ensures
            side == self.side(),
    {
        self.side
    }

    /// Looks at the value in the write side.
    pub fn as_ref(&self) -> (value: &V)
        ensures
            *value == self.value(),
    {
        &self.side.target
    }

    /// Opens the value in the write side for changes.
    pub fn as_mut_ref(&mut self) -> (value: &mut V)
        ensures
            *value == old(self).value(),
            final(self).value() == *final(value),
            final(self).side().readers == old(self).side().readers,
            final(self).slot() == old(self).slot(),
    {
        &mut self.side.target
    }
}

} // verus!
