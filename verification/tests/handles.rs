use interned_string::concurrent::ConcurrentStringStorage;
use interned_string::IString;
use interned_string::Intern;

fn strong_count(storage: &ConcurrentStringStorage, key: u32) -> isize {
    storage.store().get(key).unwrap().strong_count()
}

fn sizes(storage: &ConcurrentStringStorage) -> (usize, usize) {
    (storage.store().trie_len(), storage.store().map_len())
}

#[test]
fn one_handle_is_stored_and_collected() {
    let mut storage = ConcurrentStringStorage::new();
    let h = "hello".intern(&mut storage);
    assert_eq!(sizes(&storage), (1, 1));
    assert_eq!(strong_count(&storage, h.key()), 1);
    assert_eq!(h.deref(&storage), "hello");

    h.drop(&mut storage);
    IString::collect_garbage_now(&mut storage);
    assert_eq!(sizes(&storage), (0, 0));
}

#[test]
fn two_handles_share_one_entry() {
    let mut storage = ConcurrentStringStorage::new();
    let h1 = "hello".intern(&mut storage);
    let h2 = "hello".intern(&mut storage);
    assert_eq!(h1.key(), h2.key());
    assert_eq!(sizes(&storage), (1, 1));

    // a count is what the last publication has absorbed
    IString::collect_garbage_now(&mut storage);
    assert_eq!(strong_count(&storage, h1.key()), 2);

    h1.drop(&mut storage);
    IString::collect_garbage_now(&mut storage);
    assert_eq!(sizes(&storage), (1, 1));
    assert_eq!(strong_count(&storage, h2.key()), 1);

    h2.drop(&mut storage);
    IString::collect_garbage_now(&mut storage);
    assert_eq!(sizes(&storage), (0, 0));
}

#[test]
fn retains_wait_for_the_next_publication() {
    let mut storage = ConcurrentStringStorage::new();
    let h1 = "hello".intern(&mut storage);
    let h2 = "hello".intern(&mut storage);
    let h3 = h2.clone(&mut storage);
    // nothing was published since the string was stored
    assert_eq!(strong_count(&storage, h1.key()), 1);
    let other = "world".intern(&mut storage);
    // storing a new string publishes what the handles have sent
    assert_eq!(strong_count(&storage, h1.key()), 3);
    assert_eq!(strong_count(&storage, other.key()), 1);
    assert_eq!(h3.deref(&storage), "hello");
}

#[test]
fn removal_is_lazy_and_a_dropped_string_comes_back_with_its_key() {
    let mut storage = ConcurrentStringStorage::new();
    let h1 = "hello".intern(&mut storage);
    let h2 = "world".intern(&mut storage);
    let h3 = "howdy".intern(&mut storage);
    assert_eq!((h1.key(), h2.key(), h3.key()), (0, 1, 2));
    assert_eq!(sizes(&storage), (3, 3));

    let key1 = h1.key();
    h1.drop(&mut storage);
    h2.drop(&mut storage);
    assert_eq!(sizes(&storage), (3, 3));

    let h4 = "hello".intern(&mut storage);
    assert_eq!(h4.key(), key1);

    let h5 = "another".intern(&mut storage);
    assert_eq!(h5.key(), 3);
    assert_eq!(storage.store().key_of("world"), None);
    assert_eq!(sizes(&storage), (3, 3));
    assert_eq!(strong_count(&storage, h4.key()), 1);

    h3.drop(&mut storage);
    h4.drop(&mut storage);
    h5.drop(&mut storage);
    IString::collect_garbage_now(&mut storage);
    assert_eq!(sizes(&storage), (0, 0));
}

#[test]
fn a_key_is_not_used_twice() {
    let mut storage = ConcurrentStringStorage::new();
    let h1 = "hello".intern(&mut storage);
    assert_eq!(h1.key(), 0);
    h1.drop(&mut storage);
    IString::collect_garbage_now(&mut storage);
    assert_eq!(storage.store().key_of("hello"), None);
    let h2 = "hello".intern(&mut storage);
    assert_eq!(h2.key(), 1);
    assert_eq!(h2.deref(&storage), "hello");
}

#[test]
fn default_handle_survives_collection_while_it_is_out() {
    let mut storage = ConcurrentStringStorage::new();
    let h = IString::default(&mut storage);
    assert_eq!(h.deref(&storage), "");
    IString::collect_garbage_now(&mut storage);
    assert_eq!(sizes(&storage), (1, 1));
    assert_eq!(h.deref(&storage), "");
    assert_eq!(storage.store().key_of(""), Some(h.key()));

    h.drop(&mut storage);
    IString::collect_garbage_now(&mut storage);
    assert_eq!(sizes(&storage), (0, 0));
    assert_eq!(storage.store().key_of(""), None);
}

#[test]
fn empty_string_is_interned_like_any_other() {
    let mut storage = ConcurrentStringStorage::new();
    let a = "a".intern(&mut storage);
    let empty1 = "".intern(&mut storage);
    let empty2 = String::new().intern(&mut storage);
    assert_eq!(empty1.key(), empty2.key());
    assert!(a.key() != empty1.key());
    assert_eq!(empty1.deref(&storage), "");
    assert_eq!(a.deref(&storage), "a");
    assert_eq!(sizes(&storage), (2, 2));
    empty1.drop(&mut storage);
    IString::collect_garbage_now(&mut storage);
    assert_eq!(strong_count(&storage, empty2.key()), 1);
    empty2.drop(&mut storage);
    IString::collect_garbage_now(&mut storage);
    assert_eq!(sizes(&storage), (1, 1));
    assert_eq!(storage.store().key_of("a"), Some(a.key()));
}

#[test]
fn very_long_string_reads_back_identical() {
    let mut storage = ConcurrentStringStorage::new();
    let mut long = String::with_capacity(1 << 20);
    let mut i: u32 = 0;
    while long.len() < (1 << 20) {
        long.push(char::from(b'a' + (i % 26) as u8));
        i = i.wrapping_mul(31).wrapping_add(7);
    }
    assert!(long.len() >= 1 << 20);
    let h = long.clone().intern(&mut storage);
    assert!(h.deref(&storage) == long);
    let again = long.as_str().intern(&mut storage);
    assert_eq!(again.key(), h.key());
    h.drop(&mut storage);
    again.drop(&mut storage);
    IString::collect_garbage_now(&mut storage);
    assert_eq!(sizes(&storage), (0, 0));
}

#[test]
fn strings_that_share_a_prefix_are_told_apart() {
    let mut storage = ConcurrentStringStorage::new();
    let a = "inter".intern(&mut storage);
    let b = "interned".intern(&mut storage);
    let c = "intern".intern(&mut storage);
    let d = "h\u{e9}llo".intern(&mut storage);
    let e = "hello".intern(&mut storage);
    assert_eq!((a.key(), b.key(), c.key(), d.key(), e.key()), (0, 1, 2, 3, 4));
    assert_eq!(a.deref(&storage), "inter");
    assert_eq!(b.deref(&storage), "interned");
    assert_eq!(c.deref(&storage), "intern");
    assert_eq!(d.deref(&storage), "h\u{e9}llo");
    assert_eq!(storage.store().key_of("interne"), None);
    b.drop(&mut storage);
    IString::collect_garbage_now(&mut storage);
    assert_eq!(storage.store().key_of("interned"), None);
    assert_eq!(storage.store().key_of("inter"), Some(0));
    assert_eq!(storage.store().key_of("intern"), Some(2));
    assert_eq!(sizes(&storage), (4, 4));
}

#[test]
fn string_without_handles_is_gone_after_collection() {
    let mut storage = ConcurrentStringStorage::new();
    let kept = "kept".intern(&mut storage);
    let dropped = "dropped".intern(&mut storage);
    let dropped_key = dropped.key();
    let clone = dropped.clone(&mut storage);
    dropped.drop(&mut storage);
    clone.drop(&mut storage);
    IString::collect_garbage_now(&mut storage);
    assert_eq!(storage.store().key_of("dropped"), None);
    assert!(storage.store().get(dropped_key).is_none());
    assert_eq!(storage.store().key_of("kept"), Some(kept.key()));
}

#[test]
fn count_is_the_number_of_live_handles_after_collection() {
    let mut storage = ConcurrentStringStorage::new();
    let h1 = "hello".intern(&mut storage);
    let h2 = h1.clone(&mut storage);
    let h3 = "hello".to_string().intern(&mut storage);
    let h4 = h3.clone(&mut storage);
    h2.drop(&mut storage);
    IString::collect_garbage_now(&mut storage);
    assert_eq!(strong_count(&storage, h1.key()), 3);
    assert_eq!(sizes(&storage), (1, 1));
    assert_eq!(storage.store().key_of("hello"), Some(h1.key()));
    h1.drop(&mut storage);
    h3.drop(&mut storage);
    IString::collect_garbage_now(&mut storage);
    assert_eq!(strong_count(&storage, h4.key()), 1);
    assert_eq!(h4.deref(&storage), "hello");
}

#[test]
fn trie_and_map_have_one_size_all_along() {
    let mut storage = ConcurrentStringStorage::new();
    assert_eq!(sizes(&storage), (0, 0));
    let a = "a".intern(&mut storage);
    assert_eq!(sizes(&storage), (1, 1));
    let b = "b".intern(&mut storage);
    assert_eq!(sizes(&storage), (2, 2));
    a.drop(&mut storage);
    assert_eq!(sizes(&storage), (2, 2));
    let c = "c".intern(&mut storage);
    assert_eq!(sizes(&storage), (2, 2));
    b.drop(&mut storage);
    c.drop(&mut storage);
    IString::collect_garbage_now(&mut storage);
    assert_eq!(sizes(&storage), (0, 0));
}

#[test]
fn intern_and_drop_many_times_leaves_the_store_empty() {
    let mut storage = ConcurrentStringStorage::new();
    let mut round = 0;
    while round < 100 {
        let h = "again".intern(&mut storage);
        assert_eq!(h.key(), 0);
        assert_eq!(h.deref(&storage), "again");
        h.drop(&mut storage);
        round += 1;
    }
    assert_eq!(sizes(&storage), (1, 1));
    IString::collect_garbage_now(&mut storage);
    assert_eq!(sizes(&storage), (0, 0));
    assert_eq!(storage.store().key_of("again"), None);
}

#[test]
fn clone_then_drop_changes_nothing() {
    let mut storage = ConcurrentStringStorage::new();
    let h = "hello".intern(&mut storage);
    let other = "other".intern(&mut storage);
    let clone = h.clone(&mut storage);
    assert_eq!(clone.key(), h.key());
    clone.drop(&mut storage);
    assert_eq!(sizes(&storage), (2, 2));
    assert_eq!(strong_count(&storage, h.key()), 1);
    IString::collect_garbage_now(&mut storage);
    assert_eq!(sizes(&storage), (2, 2));
    assert_eq!(strong_count(&storage, h.key()), 1);
    assert_eq!(strong_count(&storage, other.key()), 1);
    assert_eq!(h.deref(&storage), "hello");
}

#[test]
fn handles_compare_by_key() {
    let mut storage = ConcurrentStringStorage::new();
    let a1 = "a".intern(&mut storage);
    let a2 = "a".to_string().intern(&mut storage);
    let b = "b".intern(&mut storage);
    assert!(a1 == a2);
    assert!(a1 != b);
}

#[test]
fn from_takes_a_string_and_from_str_a_slice() {
    let mut storage = ConcurrentStringStorage::new();
    let owned = IString::from("pasta".to_string(), &mut storage);
    let borrowed = IString::from_str("pasta", &mut storage);
    assert_eq!(owned.key(), borrowed.key());
    assert_eq!(owned.deref(&storage), "pasta");
    assert_eq!(borrowed.deref(&storage), "pasta");
}

#[test]
fn two_storages_do_not_share_anything() {
    let mut first = ConcurrentStringStorage::new();
    let mut second = ConcurrentStringStorage::new();
    let a = "a".intern(&mut first);
    let b = "b".intern(&mut second);
    assert_eq!((a.key(), b.key()), (0, 0));
    assert_eq!(a.deref(&first), "a");
    assert_eq!(b.deref(&second), "b");
    assert_eq!(first.store().key_of("b"), None);
}
