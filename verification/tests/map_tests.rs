use janus_map::{JanusMap, TryInsertError};
use std::collections::hash_map::DefaultHasher;
use std::hash::BuildHasherDefault;
use std::rc::Rc;

type Fixed = BuildHasherDefault<DefaultHasher>;

fn insert_get_remove(n: u64) {
    let mut map = JanusMap::<u64, u64>::with_capacity(100_000);

    for id in 0..n {
        map.insert(id, id);
    }
    assert_eq!(map.len(), n as usize);

    for id in 0..n {
        let read = map.get(&id).unwrap();
        assert_eq!(read.as_ref(&map), &id);
        map.release_read(read);
    }

    for id in 0..n {
        let writer = map.get_mut(&id).unwrap();
        assert_eq!(writer.as_ref(), &id);
        map.release_write(writer);
    }

    for id in 0..n {
        let old = map.remove(&id).unwrap();
        assert_eq!(old, id);
    }

    assert_eq!(map.len(), 0);
}

#[test]
fn basic_test() {
    let mut map = JanusMap::<u64, String>::with_capacity(16);
    assert!(map.insert(1, "aaa".into()).is_none());
    println!("map len: {}", map.len());
    assert_eq!(map.len(), 1);
    let old = map.insert(1, "bbb".into());
    if let Some(old) = &old {
        println!("Old value: {old}")
    }
    assert_eq!(old.as_deref(), Some("aaa"));
    println!("map len: {}", map.len());
    assert_eq!(map.len(), 1);

    let entry = map.get_mut(&1).unwrap();
    let value = entry.as_ref();
    println!("get entry: {}", value);
    map.release_write(entry);

    map.remove(&1);
    assert!(map.is_empty());
}

#[test]
fn insert_get_remove_test_70k() {
    insert_get_remove(70_000);
}

#[test]
fn insert_get_remove_test_50k() {
    insert_get_remove(50_000);
}

#[test]
fn insert_get_remove_test_20k() {
    insert_get_remove(20_000);
}

#[test]
fn constructors_make_empty_maps() {
    let map = JanusMap::<u64, u64, Fixed>::default();
    assert_eq!(map.len(), 0);
    assert!(map.is_empty());
    let map = JanusMap::<u64, u64, Fixed>::with_hasher(Fixed::default());
    assert!(map.is_empty());
    let map = JanusMap::<u64, u64, Fixed>::with_capacity_and_hasher(0, Fixed::default());
    assert!(map.is_empty());
    let mut map = JanusMap::<u64, u64>::with_capacity(7);
    assert!(map.is_empty());
    assert!(map.get(&3).is_none());
    map.insert(3, 30);
    assert!(!map.is_empty());
}

#[test]
fn a_read_gives_what_was_stored_last() {
    let mut map = JanusMap::<u64, String>::with_capacity(8);
    for round in 0..5 {
        map.insert(4, format!("v{round}"));
        let read = map.get(&4).unwrap();
        assert_eq!(read.as_ref(&map), &format!("v{round}"));
        map.release_read(read);
    }
}

#[test]
fn replaced_values_come_back_in_turn() {
    let mut map = JanusMap::<u64, &str>::with_capacity(8);
    assert_eq!(map.insert(1, "a"), None);
    assert_eq!(map.insert(1, "b"), Some("a"));
    assert_eq!(map.insert(1, "c"), Some("a"));
    assert_eq!(map.insert(1, "d"), Some("b"));
    assert_eq!(map.insert(1, "e"), Some("c"));
    assert_eq!(map.remove(&1), Some("d"));
    assert_eq!(map.remove(&1), None);
}

#[test]
fn a_writer_shows_when_it_ends() {
    let mut map = JanusMap::<u64, u64>::with_capacity(8);
    map.insert(9, 90);
    let mut writer = map.get_mut(&9).unwrap();
    *writer.as_mut_ref() += 1;
    assert_eq!(writer.as_ref(), &91);

    let read = map.get(&9).unwrap();
    assert_eq!(read.as_ref(&map), &90);

    map.release_write(writer);
    assert_eq!(read.as_ref(&map), &90);
    let second = map.get(&9).unwrap();
    assert_eq!(second.as_ref(&map), &91);
    map.release_read(read);
    map.release_read(second);
}

#[test]
fn idle_writes_let_the_sides_trade_places() {
    let mut map = JanusMap::<u64, u64>::with_capacity(8);
    map.insert(2, 20);
    map.insert(2, 21);
    let writer = map.get_mut(&2).unwrap();
    assert_eq!(writer.as_ref(), &20);
    map.release_write(writer);
    let read = map.get(&2).unwrap();
    assert_eq!(read.as_ref(&map), &20);
    map.release_read(read);
    let writer = map.get_mut(&2).unwrap();
    assert_eq!(writer.as_ref(), &21);
    map.release_write(writer);
    let read = map.get(&2).unwrap();
    assert_eq!(read.as_ref(&map), &21);
    map.release_read(read);
}

#[test]
fn a_writer_shuts_others_out() {
    let mut map = JanusMap::<u64, u64>::with_capacity(8);
    map.insert(5, 50);
    let writer = map.get_mut(&5).unwrap();
    assert!(map.get_mut_now(&5).is_err());
    assert_eq!(map.insert_now(5, 51), Err((5, 51)));
    assert!(map.remove_now(&5).is_err());
    assert_eq!(map.insert_now(6, 60), Ok(None));
    map.release_write(writer);
    assert_eq!(map.insert_now(5, 51), Ok(Some(50)));
    assert_eq!(map.remove_now(&5), Ok(Some(50)));
    assert_eq!(map.remove_now(&5), Ok(None));
    assert!(map.get_mut_now(&5).unwrap().is_none());
}

#[test]
fn readers_of_the_write_side_hold_writers_up() {
    let mut map = JanusMap::<u64, u64>::with_capacity(8);
    map.insert(5, 50);
    let read = map.get(&5).unwrap();
    // The reader is on the read side, so one write goes through.
    assert_eq!(map.insert_now(5, 51), Ok(Some(50)));
    assert_eq!(read.as_ref(&map), &50);
    // Now its side is the one to be written.
    assert_eq!(map.insert_now(5, 52), Err((5, 52)));
    assert!(map.get_mut_now(&5).is_err());
    map.release_read(read);
    assert_eq!(map.insert_now(5, 52), Ok(Some(50)));
    let writer = map.get_mut_now(&5).unwrap().unwrap();
    assert_eq!(writer.as_ref(), &51);
    map.release_write(writer);
}

#[test]
fn a_removed_entry_stays_readable() {
    let mut map = JanusMap::<u64, Rc<u64>>::with_capacity(8);
    let value = Rc::new(70);
    map.insert(7, value.clone());
    assert_eq!(Rc::strong_count(&value), 3);
    let first = map.get(&7).unwrap();
    let second = map.get(&7).unwrap();
    let removed = map.remove(&7).unwrap();
    assert_eq!(*removed, 70);
    assert_eq!(map.len(), 0);
    assert!(map.get(&7).is_none());
    assert_eq!(**first.as_ref(&map), 70);
    map.release_read(first);
    assert_eq!(**second.as_ref(&map), 70);
    assert_eq!(Rc::strong_count(&value), 4);
    map.release_read(second);
    assert_eq!(Rc::strong_count(&value), 2);
}

#[test]
fn a_removed_entry_without_readers_is_freed() {
    let mut map = JanusMap::<u64, Rc<u64>>::with_capacity(8);
    let value = Rc::new(1);
    map.insert(1, value.clone());
    let removed = map.remove(&1).unwrap();
    assert_eq!(Rc::strong_count(&value), 2);
    drop(removed);
    assert_eq!(Rc::strong_count(&value), 1);
    map.insert(2, value.clone());
    drop(map);
    assert_eq!(Rc::strong_count(&value), 1);
}

#[test]
fn a_key_can_come_back_after_its_removal() {
    let mut map = JanusMap::<u64, u64>::with_capacity(8);
    map.insert(1, 10);
    assert_eq!(map.remove(&1), Some(10));
    assert_eq!(map.insert(1, 11), None);
    assert_eq!(map.len(), 1);
    assert_eq!(map.remove(&1), Some(11));
}

#[test]
fn slots_of_removed_entries_are_used_again() {
    // A capacity of one gives one slot, a capacity of two gives two.
    let mut map = JanusMap::<u64, u64>::with_capacity(1);
    for id in 0..10 {
        assert_eq!(map.insert_now(id, id), Ok(None));
        assert_eq!(map.insert_now(id + 1, 0), Err((id + 1, 0)));
        assert_eq!(map.remove_now(&id), Ok(Some(id)));
        assert!(map.get(&id).is_none());
    }
    let mut map = JanusMap::<u64, u64>::with_capacity(2);
    assert_eq!(map.insert(1, 1), None);
    assert_eq!(map.remove(&1), Some(1));
    assert_eq!(map.insert(2, 2), None);
    assert_eq!(map.insert(3, 3), None);
    assert_eq!(map.insert_now(4, 4), Err((4, 4)));
    assert!(map.get(&4).is_none());
    assert_eq!(map.insert_now(2, 5), Ok(Some(2)));
    assert_eq!(map.len(), 2);
}

#[test]
fn a_slot_waits_for_the_readers_of_its_removed_entry() {
    let mut map = JanusMap::<u64, u64>::with_capacity(1);
    map.insert(1, 10);
    let read = map.get(&1).unwrap();
    assert_eq!(map.remove_now(&1), Ok(Some(10)));
    assert!(map.get(&1).is_none());
    assert_eq!(map.insert_now(2, 20), Err((2, 20)));
    assert_eq!(read.as_ref(&map), &10);
    map.release_read(read);
    assert_eq!(map.insert_now(2, 20), Ok(None));
    assert_eq!(map.remove(&2), Some(20));
}

#[test]
fn keys_can_be_given_in_borrowed_form() {
    let mut map = JanusMap::<String, u64, Fixed>::with_hasher(Fixed::default());
    assert_eq!(map.insert("one".to_string(), 1), None);
    assert_eq!(map.insert("two".to_string(), 2), None);
    let read = map.get("two").unwrap();
    assert_eq!(read.as_ref(&map), &2);
    map.release_read(read);
    assert!(map.get("three").is_none());

    let mut writer = map.get_mut("one").unwrap();
    *writer.as_mut_ref() = 11;
    assert!(map.get_mut_now("one").is_err());
    assert!(map.remove_now("one").is_err());
    map.release_write(writer);
    let read = map.get("one").unwrap();
    assert_eq!(read.as_ref(&map), &11);
    map.release_read(read);

    assert_eq!(map.remove("two"), Some(2));
    assert_eq!(map.remove("two"), None);
    assert_eq!(map.remove_now("one"), Ok(Some(1)));
    assert_eq!(map.remove_now("one"), Ok(None));
    assert!(map.get_mut("one").is_none());
    assert!(map.get_mut_now("one").unwrap().is_none());
    assert!(map.is_empty());
}

#[test]
fn slices_stand_for_vectors() {
    let mut map = JanusMap::<Vec<u8>, u64>::with_capacity(8);
    map.insert(vec![1, 2, 3], 6);
    let read = map.get(&[1u8, 2, 3][..]).unwrap();
    assert_eq!(read.as_ref(&map), &6);
    map.release_read(read);
    assert!(map.get(&[1u8, 2][..]).is_none());
    assert_eq!(map.remove(&[1u8, 2, 3][..]), Some(6));
}

#[test]
fn a_map_is_empty_exactly_if_nothing_is_found() {
    let mut map = JanusMap::<u64, u64>::with_capacity(8);
    for id in 0..8 {
        assert!(map.get(&id).is_none());
    }
    map.insert(3, 30);
    assert!(!map.is_empty());
    let found = (0..8).filter(|id| map.get(id).is_some()).count();
    assert_eq!(found, 1);
}

#[test]
fn guards_are_told_from_strange_ones() {
    let mut map = JanusMap::<u64, u64>::with_capacity(32);
    let mut other = JanusMap::<u64, u64>::with_capacity(32);
    map.insert(1, 10);
    let read = map.get(&1).unwrap();
    assert!(map.is_attached(&read));
    assert!(!other.is_attached(&read));
    assert_eq!(map.remove(&1), Some(10));
    assert!(map.is_attached(&read));
    map.release_read(read);

    map.insert(2, 20);
    let writer = map.get_mut(&2).unwrap();
    assert!(map.is_writing(&writer));
    assert!(!other.is_writing(&writer));
    for id in 0..30 {
        other.insert(id, id);
    }
    assert!(!other.is_writing(&writer));
    map.release_write(writer);
}

#[test]
fn readers_are_counted_until_they_are_given_back() {
    let mut map = JanusMap::<u64, u64>::with_capacity(4);
    map.insert(1, 10);
    let mut readers = vec![];
    for _ in 0..5 {
        readers.push(map.get(&1).unwrap());
    }
    // Their side becomes the one to be written.
    assert_eq!(map.insert_now(1, 11), Ok(Some(10)));
    for read in readers {
        assert_eq!(map.insert_now(1, 12), Err((1, 12)));
        assert_eq!(read.as_ref(&map), &10);
        map.release_read(read);
    }
    assert_eq!(map.insert_now(1, 12), Ok(Some(10)));
}

#[test]
fn a_full_map_takes_its_capacity() {
    for capacity in 1..40 {
        let mut map = JanusMap::<u64, u64>::with_capacity(capacity);
        for id in 0..capacity as u64 {
            assert_eq!(map.insert_now(id, id + 1), Ok(None));
        }
        for id in 0..capacity as u64 {
            let read = map.get(&id).unwrap();
            assert_eq!(read.as_ref(&map), &(id + 1));
            map.release_read(read);
        }
        assert_eq!(map.len(), capacity);
    }
}

#[test]
fn other_keys_are_left_alone() {
    let mut map = JanusMap::<u64, u64>::with_capacity(64);
    for id in 0..50 {
        map.insert(id, id * 2);
    }
    map.insert(10, 1);
    map.remove(&11);
    let mut writer = map.get_mut(&12).unwrap();
    *writer.as_mut_ref() = 5;
    map.release_write(writer);
    for id in (0..50).filter(|id| !(10..13).contains(id)) {
        let read = map.get(&id).unwrap();
        assert_eq!(read.as_ref(&map), &(id * 2));
        map.release_read(read);
    }
    assert_eq!(map.len(), 49);
}

#[test]
fn a_reader_is_isolated_from_a_long_history() {
    let mut map = JanusMap::<u64, u64>::with_capacity(64);
    map.insert(1, 100);
    let read = map.get(&1).unwrap();
    map.insert(1, 101);
    for id in 2..20 {
        map.insert(id, id);
        map.remove(&(id - 1));
        assert_eq!(read.as_ref(&map), &100);
    }
    map.insert(1, 102);
    assert_eq!(read.as_ref(&map), &100);
    map.release_read(read);
}

#[test]
fn reading_leaves_no_trace() {
    let mut map = JanusMap::<u64, u64>::with_capacity(4);
    map.insert(1, 10);
    for _ in 0..3 {
        let read = map.get(&1).unwrap();
        map.release_read(read);
        assert_eq!(map.insert_now(1, 10), Ok(Some(10)));
        assert_eq!(map.len(), 1);
    }
}

#[test]
fn keys_without_an_integer_type_work() {
    let mut map = JanusMap::<String, Vec<u8>, Fixed>::with_hasher(Fixed::default());
    map.insert("one".to_string(), vec![1]);
    map.insert("two".to_string(), vec![2]);
    let read = map.get(&"two".to_string()).unwrap();
    assert_eq!(read.as_ref(&map), &vec![2]);
    map.release_read(read);
    assert_eq!(map.remove(&"one".to_string()), Some(vec![1]));
    assert!(map.get_mut(&"one".to_string()).is_none());
}

#[test]
fn errors_can_be_shown() {
    assert_eq!(format!("{:?}", TryInsertError::AlreadyExists), "AlreadyExists");
}
