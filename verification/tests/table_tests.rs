use janus_map::capacity::{capacity_fits, layout, layout_align, next_power_of_two};
use janus_map::entry::{TableEntry, TrackingEntry};
use janus_map::hash_metadata::{h1, h2, EMPTY_SLOT, TOMBSTONE_SLOT};
use janus_map::hasher::hash_key;
use janus_map::probe::{limit, Probe};
use janus_map::borrowed::is_named;
use janus_map::{DentTable, InsertNew, InsertReplace, InsertResult};
use std::collections::hash_map::DefaultHasher;
use std::hash::{BuildHasher, BuildHasherDefault};
use std::rc::Rc;

type Fixed = BuildHasherDefault<DefaultHasher>;
type Table<V> = DentTable<u64, V, Fixed>;

fn table<V: Clone>(capacity: usize) -> Table<V> {
    DentTable::new(capacity, Fixed::default())
}

fn parts(hash: u64) -> (usize, u8) {
    (h1(hash), h2(hash))
}

fn insert(table: &mut Table<u64>, hash: u64, key: u64, value: u64) -> Option<u64> {
    let (h1, h2) = parts(hash);
    assert!(table.can_insert(h1, h2, &key));
    match table.insert(h1, h2, key, value, true) {
        InsertResult::Inserted => None,
        InsertResult::Replaced(old) => Some(old),
        InsertResult::Error => panic!("an insertion never fails"),
    }
}

fn read(table: &mut Table<u64>, hash: u64, key: u64) -> Option<u64> {
    let (h1, h2) = parts(hash);
    match table.get(h1, h2, &key) {
        None => None,
        Some(guard) => {
            let value = *table.read(&guard);
            table.release_read(guard);
            Some(value)
        }
    }
}

fn remove(table: &mut Table<u64>, hash: u64, key: u64) -> Option<u64> {
    let (h1, h2) = parts(hash);
    assert!(table.can_remove(h1, h2, &key));
    table.remove(h1, h2, &key)
}

#[test]
fn hashes_are_split() {
    assert_eq!(h1(0), 0);
    assert_eq!(h2(0), 1);
    assert_eq!(h2(u64::MAX), TOMBSTONE_SLOT);
    assert_ne!(h2(0), EMPTY_SLOT);
    if usize::BITS == 64 {
        assert_eq!(h1(0x0123_4567_89ab_cdef), 0x0123_4567_89ab_cdef);
        assert_eq!(h2(1 << 57), 2);
        assert_eq!(h2(0x5a << 57), 0x5b);
        assert_eq!(h2((1 << 57) - 1), 1);
    }
}

#[test]
fn probing_visits_every_slot_once() {
    for slots in [1usize, 2, 4, 8, 16, 256] {
        for hash in [0usize, 1, 5, 77, usize::MAX] {
            let mask = slots - 1;
            let mut probe = Probe::start(hash, mask);
            let mut seen = vec![false; slots];
            for n in 0..slots {
                assert_eq!(probe.len, n);
                assert!(!seen[probe.i]);
                seen[probe.i] = true;
                probe.next(mask);
            }
            assert!(seen.iter().all(|s| *s));
        }
    }
}

#[test]
fn probing_moves_by_growing_steps() {
    let mut probe = Probe::start(13, 15);
    let mut visited = vec![probe.i];
    for _ in 0..5 {
        probe.next(15);
        visited.push(probe.i);
    }
    assert_eq!(visited, vec![13, 14, 0, 3, 7, 12]);
}

#[test]
fn probe_limits_follow_the_logarithm() {
    assert_eq!(limit(0), 0);
    assert_eq!(limit(1), 0);
    assert_eq!(limit(3), 5);
    assert_eq!(limit(15), 15);
    assert_eq!(limit(16), 20);
    assert_eq!(limit(262_143), 85);
}

#[test]
fn capacities_are_rounded_up() {
    assert_eq!(next_power_of_two(0), 1);
    assert_eq!(next_power_of_two(1), 1);
    assert_eq!(next_power_of_two(2), 2);
    assert_eq!(next_power_of_two(3), 4);
    assert_eq!(next_power_of_two(21), 32);
    assert_eq!(next_power_of_two(133_333), 262_144);
    for (capacity, slots) in [(0, 32), (1, 1), (2, 2), (3, 4), (6, 8), (16, 32), (32, 64), (100_000, 262_144)] {
        let table: Table<u64> = table(capacity);
        assert_eq!(DentTable::<u64, u64, Fixed>::mask(table.root()), slots - 1);
        assert_eq!(table.len(), 0);
    }
}

#[test]
fn layouts_have_offsets_or_do_not_fit() {
    if usize::BITS == 64 {
        assert_eq!(layout_align(), 8);
        assert_eq!(layout(1), Some((32, 16, 24)));
        assert_eq!(layout(4), Some((56, 16, 24)));
        assert_eq!(layout(16), Some((160, 16, 32)));
        assert_eq!(layout(32), Some((304, 16, 48)));
        assert!(layout(1 << 59).is_some());
        assert!(layout(1 << 60).is_none());
        assert!(capacity_fits(1 << 58));
        assert!(!capacity_fits(1 << 60));
    }
    assert_eq!(layout_align(), std::mem::align_of::<usize>());
    for slots in 0..100 {
        let (bytes, short_hash, entries) = layout(slots).unwrap();
        assert_eq!(bytes % layout_align(), 0);
        assert_eq!(short_hash % layout_align(), 0);
        assert_eq!(entries % layout_align(), 0);
    }
    assert!(capacity_fits(0));
    assert!(capacity_fits(100_000));
    assert!(!capacity_fits(usize::MAX));
    assert!(layout(usize::MAX).is_none());
}

#[test]
fn hashing_goes_through_the_hasher() {
    let hasher = Fixed::default();
    assert_eq!(hash_key(&hasher, &5u64), hasher.hash_one(5u64));
    assert_ne!(hash_key(&hasher, &5u64), 5);
    let table: Table<u64> = table(4);
    let hash = hasher.hash_one(9u64);
    assert_eq!(table.hash(&9u64), (h1(hash), h2(hash)));
    assert_eq!(table.hash("key"), table.hash(&"key".to_string()));
}

#[test]
fn colliding_keys_are_kept_apart() {
    let mut table = table(6);
    for key in 0..8 {
        assert_eq!(insert(&mut table, 42, key, key * 10), None);
    }
    assert_eq!(table.len(), 8);
    for key in 0..8 {
        assert_eq!(read(&mut table, 42, key), Some(key * 10));
    }
    assert_eq!(read(&mut table, 42, 8), None);
    let (h1, h2) = parts(42);
    assert!(!table.can_insert(h1, h2, &8));
    assert_eq!(insert(&mut table, 42, 3, 31), Some(30));
    assert_eq!(table.len(), 8);
    assert_eq!(read(&mut table, 42, 3), Some(31));
}

#[test]
fn the_same_key_under_two_hashes_is_two_keys() {
    let mut table = table(6);
    assert_eq!(insert(&mut table, 1, 5, 50), None);
    assert_eq!(insert(&mut table, 2, 5, 51), None);
    assert_eq!(read(&mut table, 1, 5), Some(50));
    assert_eq!(read(&mut table, 2, 5), Some(51));
    assert_eq!(remove(&mut table, 1, 5), Some(50));
    assert_eq!(read(&mut table, 1, 5), None);
    assert_eq!(read(&mut table, 2, 5), Some(51));
}

#[test]
fn removed_entries_do_not_break_the_way_to_others() {
    let mut table = table(6);
    for key in 0..4 {
        insert(&mut table, 7, key, key);
    }
    assert_eq!(remove(&mut table, 7, 0), Some(0));
    assert_eq!(remove(&mut table, 7, 2), Some(2));
    assert_eq!(table.len(), 2);
    assert_eq!(read(&mut table, 7, 1), Some(1));
    assert_eq!(read(&mut table, 7, 3), Some(3));
    assert_eq!(read(&mut table, 7, 2), None);
    assert_eq!(insert(&mut table, 7, 2, 22), None);
    assert_eq!(read(&mut table, 7, 2), Some(22));
    // The way for this hash is 7, 0, 2, 5, 1, ...; unused slots come first.
    assert!(table.get_entry(7).is_none());
    assert!(table.get_entry(2).is_none());
    assert_eq!(table.get_entry(0).as_ref().unwrap().key, 1);
    assert_eq!(table.get_entry(5).as_ref().unwrap().key, 3);
    assert_eq!(table.get_entry(1).as_ref().unwrap().key, 2);
}

#[test]
fn a_hash_byte_that_looks_like_a_tombstone_is_told_from_one() {
    let hash = u64::MAX;
    assert_eq!(h2(hash), TOMBSTONE_SLOT);
    let mut table = table(6);
    insert(&mut table, hash, 1, 10);
    insert(&mut table, hash, 2, 20);
    let (a, b) = parts(hash);
    let guard = table.get(a, b, &1).unwrap();
    assert_eq!(remove(&mut table, hash, 1), Some(10));
    assert_eq!(read(&mut table, hash, 1), None);
    assert_eq!(read(&mut table, hash, 2), Some(20));
    assert_eq!(table.read(&guard), &10);
    let slot = h1(hash) & 7;
    assert!(table.get_entry(slot).is_none());
    assert_eq!(insert(&mut table, hash, 1, 11), None);
    assert!(table.get_entry(slot).is_none());
    assert_eq!(table.read(&guard), &10);
    table.release_read(guard);
    assert_eq!(read(&mut table, hash, 1), Some(11));
    assert_eq!(table.len(), 2);
}

#[test]
fn entries_have_two_sides() {
    let mut entry = TableEntry::new(3u64, 33, "x".to_string());
    assert_eq!(entry.key, 3);
    assert_eq!(entry.hash, 33);
    assert!(entry.read_left);
    assert!(entry.is_writable());
    assert!(!entry.is_read());

    assert!(entry.acquire_read());
    assert!(entry.is_read());
    assert!(entry.is_writable());
    let side = entry.acquire_write().unwrap();
    assert!(!entry.is_unlocked());
    assert!(!entry.is_writable());
    assert!(entry.acquire_write().is_none());
    entry.publish(TrackingEntry { target: "y".to_string(), readers: side.readers });
    assert!(!entry.read_left);
    assert!(entry.is_unlocked());
    assert!(!entry.is_writable());
    assert_eq!(entry.right.as_ref().unwrap().target, "y");
    entry.release_read(true);
    assert!(entry.is_writable());

    let side = entry.acquire_write().unwrap();
    assert_eq!(side.target, "x");
    entry.restore_write(side);
    assert!(!entry.read_left);
    assert_eq!(TableEntry::reclaim_entry(entry), (3, "x".to_string()));
}

#[test]
fn freed_entries_give_their_key_back() {
    assert_eq!(TableEntry::<u64, u64>::free_entry(None), None);
    assert_eq!(TableEntry::free_entry(Some(TableEntry::new(4u64, 0, 1u64))), Some(4));
}

#[test]
fn reader_counts_wrap_around() {
    let mut side = TrackingEntry { target: (), readers: 1 };
    side.drop_reader();
    assert_eq!(side.readers, 0);
    side.drop_reader();
    assert_eq!(side.readers, u16::MAX);
    side.add_reader();
    assert_eq!(side.readers, 0);
    side.add_reader();
    assert_eq!(side.readers, 1);
}

#[test]
fn taking_a_table_down_frees_all_entries() {
    let value = Rc::new(5);
    let mut table: Table<Rc<i32>> = table(6);
    for key in 0..4 {
        let (h1, h2) = parts(key);
        table.insert(h1, h2, key, value.clone(), true);
    }
    assert_eq!(Rc::strong_count(&value), 9);
    let (h1, h2) = parts(0);
    let guard = table.get(h1, h2, &0).unwrap();
    table.remove(h1, h2, &0);
    let mut raw = table.into_raw();
    assert_eq!(Rc::strong_count(&value), 9);
    Table::deallocate(&mut raw);
    assert_eq!(Rc::strong_count(&value), 1);
    drop(guard);
}

#[test]
fn tombstones_are_used_again_once_no_slot_is_unused() {
    let mut table = table(3);
    // The way for this hash is 2, 3, 1, 0.
    for key in 0..4 {
        assert_eq!(insert(&mut table, 2, key, key), None);
    }
    assert_eq!(remove(&mut table, 2, 1), Some(1));
    assert_eq!(remove(&mut table, 2, 3), Some(3));
    assert!(table.get_entry(3).is_none());
    assert!(table.get_entry(0).is_none());
    assert_eq!(table.root().short_hash(3), TOMBSTONE_SLOT);
    // The key is there, behind a slot that could be used.
    assert_eq!(insert(&mut table, 2, 2, 22), Some(2));
    // The first slot on the way that can be used is.
    assert_eq!(insert(&mut table, 2, 4, 44), None);
    assert_eq!(table.get_entry(3).as_ref().unwrap().key, 4);
    assert_eq!(insert(&mut table, 2, 5, 55), None);
    assert_eq!(table.get_entry(0).as_ref().unwrap().key, 5);
    let (h1, h2) = parts(2);
    assert!(!table.can_insert(h1, h2, &6));
    for (key, value) in [(0, 0), (2, 22), (4, 44), (5, 55)] {
        assert_eq!(read(&mut table, 2, key), Some(value));
    }
    assert_eq!(table.len(), 4);
}

#[test]
fn a_removed_entry_leaves_its_slot_at_once() {
    let mut table = table(1);
    assert_eq!(insert(&mut table, 0, 1, 10), None);
    let (h1, h2) = parts(0);
    let first = table.get(h1, h2, &1).unwrap();
    let second = table.get(h1, h2, &1).unwrap();
    assert_eq!(remove(&mut table, 0, 1), Some(10));
    assert!(table.get_entry(0).is_none());
    assert_eq!(table.len(), 0);
    assert!(!table.can_insert(h1, h2, &1));
    assert_eq!(table.read(&first), &10);
    table.release_read(first);
    assert!(!table.can_insert(h1, h2, &1));
    assert_eq!(table.read(&second), &10);
    table.release_read(second);
    assert_eq!(insert(&mut table, 0, 1, 11), None);
    assert_eq!(read(&mut table, 0, 1), Some(11));
}

#[test]
fn slots_are_filled_replaced_and_emptied() {
    let mut raw = Table::<u64>::allocate(4);
    let (h1, h2) = parts(1);
    assert!(matches!(raw.insert_new(1, 5, 50, h1, h2), InsertNew::Inserted));
    assert_eq!(raw.short_hash(1), h2);
    assert_eq!(raw.find(h1, h2, &5), Some(1));
    assert_eq!(raw.find(h1, h2, &6), None);
    assert!(matches!(raw.insert_new(1, 6, 60, h1, h2), InsertNew::Found { k: 6, v: 60 }));
    assert!(matches!(raw.insert_replace(1, &6, 61, true, h1), InsertReplace::Failed { v: 61 }));
    assert!(matches!(raw.insert_replace(2, &5, 51, true, h1), InsertReplace::Failed { v: 51 }));
    assert!(matches!(raw.insert_replace(1, &5, 51, false, h1), InsertReplace::Found));
    assert!(matches!(raw.insert_replace(1, &5, 51, true, h1), InsertReplace::Replaced { value: 50 }));
    assert!(raw.is_writable(1));
    assert!(raw.is_unlocked(1));
    // An empty slot, another key, and the key under another hash are left alone.
    assert_eq!(raw.remove_entry(2, &5, h1), None);
    assert_eq!(raw.remove_entry(1, &6, h1), None);
    assert_eq!(raw.remove_entry(1, &5, h1 + 1), None);
    assert_eq!(raw.find(h1, h2, &5), Some(1));
    assert_eq!(raw.remove_entry(1, &5, h1), Some(50));
    assert_eq!(raw.remove_entry(1, &5, h1), None);
    raw.store_short_hash(1, TOMBSTONE_SLOT);
    assert_eq!(raw.short_hash(1), TOMBSTONE_SLOT);
    assert_eq!(raw.find(h1, h2, &5), None);
}

#[test]
fn replacing_keeps_both_sides_and_their_readers() {
    let mut raw = Table::<u64>::allocate(2);
    let (h1, h2) = parts(0);
    raw.insert_new(0, 1, 10, h1, h2);
    for (value, old) in [(11, 10), (12, 10), (13, 11), (14, 12)] {
        match raw.insert_replace(0, &1, value, true, h1) {
            InsertReplace::Replaced { value } => assert_eq!(value, old),
            _ => panic!("the entry is there"),
        }
        assert!(raw.is_writable(0));
    }
    let mut entry = TableEntry::new(1u64, 0, 1u64);
    entry.acquire_read();
    entry.acquire_read();
    let side = entry.acquire_write().unwrap();
    entry.publish(TrackingEntry { target: 2, readers: side.readers });
    assert_eq!(entry.left.as_ref().unwrap().readers, 2);
    assert_eq!(entry.right.as_ref().unwrap().readers, 0);
    assert!(entry.is_unlocked());
}

#[test]
fn borrowed_keys_are_compared_with_names() {
    assert!(is_named::<String, str>(&"a".to_string(), "a"));
    assert!(!is_named::<String, str>(&"a".to_string(), "b"));
    let mut table = DentTable::<String, u64, Fixed>::new(4, Fixed::default());
    let (h1, h2) = table.hash("a");
    table.insert(h1, h2, "a".to_string(), 1, true);
    assert!(table.root().find_borrowed(h1, h2, "a").is_some());
    assert!(table.root().find_borrowed(h1, h2, "b").is_none());
    let guard = table.get_borrowed(h1, h2, "a").unwrap();
    assert_eq!(table.read(&guard), &1);
    table.release_read(guard);
    let writer = table.get_mut_borrowed(h1, h2, "a").unwrap();
    assert!(!table.can_write(h1, h2, &"a".to_string()));
    table.release_write(writer);
    let writer = table.get_mut(h1, h2, &"a".to_string()).unwrap();
    table.release_write(writer);
    assert_eq!(table.remove_borrowed(h1, h2, "a"), Some(1));
    assert_eq!(table.remove_borrowed(h1, h2, "a"), None);
}
