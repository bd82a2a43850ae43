use interned_string::boxed::BoxedStr;
use interned_string::storage::ChannelOp;
use interned_string::storage::InnerStringStorage;
use interned_string::storage::StringStorageOp;
use interned_string::stored::StoredString;
use interned_string::writer::UniqueWriter;

fn insert(key: u32, string: &str) -> StringStorageOp {
    StringStorageOp::Insert { key, string: BoxedStr::from(string.to_string()) }
}

fn stored<'a>(store: &'a InnerStringStorage, key: u32) -> (&'a str, isize) {
    let entry = store.get(key).unwrap();
    (entry.inner().get(), entry.strong_count())
}

#[test]
fn boxed_str_keeps_its_contents() {
    let boxed = BoxedStr::from("hello".to_string());
    assert_eq!(boxed.get(), "hello");
    let alias = boxed.clone_with_aliasing();
    let copy = boxed.clone();
    assert_eq!(alias.get(), "hello");
    assert_eq!(copy.get(), "hello");
    // an alias shares the allocation, a copy has its own
    assert!(std::ptr::eq(alias.get(), boxed.get()));
    assert!(!std::ptr::eq(copy.get(), boxed.get()));
    drop(boxed);
    assert_eq!(alias.get(), "hello");
}

#[test]
fn boxed_str_reuses_the_buffer_of_the_string() {
    let string = "a string on the heap".to_string();
    let buffer = string.as_ptr();
    let boxed = BoxedStr::from(string);
    assert!(std::ptr::eq(boxed.get().as_ptr(), buffer));
}

#[test]
fn stored_string_counts_handles() {
    let mut stored = StoredString::new(BoxedStr::from("s".to_string()));
    assert_eq!(stored.strong_count(), 1);
    assert!(!stored.is_droppable());
    stored.retain();
    assert_eq!(stored.strong_count(), 2);
    stored.release();
    stored.release();
    assert_eq!(stored.strong_count(), 0);
    assert!(stored.is_droppable());
    stored.release();
    assert_eq!(stored.strong_count(), -1);
    assert!(!stored.is_droppable());
    assert_eq!(stored.inner().get(), "s");
    let copy = stored.clone();
    assert_eq!(copy.strong_count(), -1);
    assert_eq!(copy.inner().get(), "s");
}

#[test]
fn default_store_is_empty() {
    let store = InnerStringStorage::default();
    assert_eq!(store.trie_len(), 0);
    assert_eq!(store.map_len(), 0);
    assert_eq!(store.key_of("hello"), None);
    assert_eq!(store.key_of(""), None);
    assert!(store.get(0).is_none());
}

#[test]
fn insert_is_absorbed_by_both_replicas() {
    let mut first = InnerStringStorage::default();
    let mut second = InnerStringStorage::default();
    let mut operation = insert(7, "hello");
    first.absorb_first(&mut operation);
    // the operation still carries its string
    assert!(matches!(&operation, StringStorageOp::Insert { key: 7, string } if string.get() == "hello"));
    second.absorb_second(operation);
    assert_eq!(first.key_of("hello"), Some(7));
    assert_eq!(second.key_of("hello"), Some(7));
    assert_eq!(stored(&first, 7), ("hello", 1));
    assert_eq!(stored(&second, 7), ("hello", 1));
    // the two replicas share the allocation
    assert!(std::ptr::eq(
        first.get(7).unwrap().inner().get(),
        second.get(7).unwrap().inner().get()
    ));
    assert_eq!((first.trie_len(), first.map_len()), (1, 1));
}

#[test]
fn retain_and_release_change_the_count_by_one() {
    let mut store = InnerStringStorage::default();
    store.absorb_second(insert(0, "a"));
    store.absorb_second(insert(1, "b"));
    store.absorb_second(StringStorageOp::Retain { key: 0 });
    store.absorb_second(StringStorageOp::Retain { key: 0 });
    store.absorb_second(StringStorageOp::Release { key: 1 });
    assert_eq!(stored(&store, 0), ("a", 3));
    assert_eq!(stored(&store, 1), ("b", 0));
    store.retain(1);
    store.release(0);
    assert_eq!(stored(&store, 0), ("a", 2));
    assert_eq!(stored(&store, 1), ("b", 1));
}

#[test]
fn release_before_retain_is_tolerated() {
    let mut store = InnerStringStorage::default();
    store.absorb_second(insert(0, "a"));
    store.absorb_second(StringStorageOp::Release { key: 0 });
    store.absorb_second(StringStorageOp::Release { key: 0 });
    assert_eq!(stored(&store, 0), ("a", -1));
    store.absorb_second(StringStorageOp::Retain { key: 0 });
    store.absorb_second(StringStorageOp::Retain { key: 0 });
    assert_eq!(stored(&store, 0), ("a", 1));
    store.absorb_second(StringStorageOp::DropUnusedStrings);
    // the count was zero on the way, and is not at the end
    assert_eq!(stored(&store, 0), ("a", 1));
    assert_eq!(store.key_of("a"), Some(0));
}

#[test]
fn drop_unused_removes_only_what_has_no_handle() {
    let mut store = InnerStringStorage::default();
    store.absorb_second(insert(0, "zero"));
    store.absorb_second(insert(1, "one"));
    store.absorb_second(insert(2, "two"));
    store.absorb_second(StringStorageOp::Release { key: 0 });
    store.absorb_second(StringStorageOp::Release { key: 1 });
    store.absorb_second(StringStorageOp::Retain { key: 1 });
    let mut operation = StringStorageOp::DropUnusedStrings;
    store.absorb_first(&mut operation);
    assert!(matches!(operation, StringStorageOp::DropUnusedStrings));
    assert_eq!(store.key_of("zero"), None);
    assert!(store.get(0).is_none());
    assert_eq!(stored(&store, 1), ("one", 1));
    assert_eq!(stored(&store, 2), ("two", 1));
    assert_eq!(store.key_of("one"), Some(1));
    assert_eq!((store.trie_len(), store.map_len()), (2, 2));
}

#[test]
fn drop_unused_looks_at_a_key_listed_twice_only_once() {
    let mut store = InnerStringStorage::default();
    store.absorb_second(insert(0, "a"));
    store.absorb_second(insert(1, "b"));
    // listed twice: the count of key 0 reaches zero two times
    store.absorb_second(StringStorageOp::Release { key: 0 });
    store.absorb_second(StringStorageOp::Retain { key: 0 });
    store.absorb_second(StringStorageOp::Release { key: 0 });
    store.absorb_second(StringStorageOp::DropUnusedStrings);
    assert_eq!(store.key_of("a"), None);
    assert_eq!(store.key_of("b"), Some(1));
    assert_eq!((store.trie_len(), store.map_len()), (1, 1));
    // the list was emptied: nothing more goes
    store.absorb_second(StringStorageOp::DropUnusedStrings);
    assert_eq!((store.trie_len(), store.map_len()), (1, 1));
}

#[test]
fn accepts_tells_what_can_be_absorbed() {
    let mut store = InnerStringStorage::default();
    assert!(store.accepts(&insert(0, "a")));
    assert!(!store.accepts(&StringStorageOp::Retain { key: 0 }));
    assert!(!store.accepts(&StringStorageOp::Release { key: 0 }));
    assert!(store.accepts(&StringStorageOp::DropUnusedStrings));
    store.absorb_second(insert(0, "a"));
    assert!(!store.accepts(&insert(0, "b")));
    assert!(!store.accepts(&insert(1, "a")));
    assert!(store.accepts(&insert(1, "b")));
    assert!(store.accepts(&StringStorageOp::Retain { key: 0 }));
    assert!(store.accepts(&StringStorageOp::Release { key: 0 }));
    assert!(!store.accepts(&StringStorageOp::Retain { key: 1 }));
}

#[test]
fn sync_with_makes_a_copy_with_strings_of_its_own() {
    let mut first = InnerStringStorage::default();
    first.absorb_second(insert(0, "a"));
    first.absorb_second(insert(5, "bcd"));
    first.absorb_second(StringStorageOp::Retain { key: 5 });
    first.absorb_second(StringStorageOp::Release { key: 0 });
    let mut second = InnerStringStorage::default();
    second.absorb_second(insert(9, "stale"));
    second.sync_with(&first);
    assert_eq!((second.trie_len(), second.map_len()), (2, 2));
    assert_eq!(second.key_of("stale"), None);
    assert_eq!(second.key_of("a"), Some(0));
    assert_eq!(second.key_of("bcd"), Some(5));
    assert_eq!(stored(&second, 0), ("a", 0));
    assert_eq!(stored(&second, 5), ("bcd", 2));
    assert!(!std::ptr::eq(
        first.get(5).unwrap().inner().get(),
        second.get(5).unwrap().inner().get()
    ));
    // what was listed for removal is copied as well
    second.absorb_second(StringStorageOp::DropUnusedStrings);
    first.absorb_second(StringStorageOp::DropUnusedStrings);
    assert_eq!(second.key_of("a"), None);
    assert_eq!(first.key_of("a"), None);
    assert_eq!((second.trie_len(), second.map_len()), (1, 1));
    // the copy does not follow the first any more
    first.absorb_second(insert(6, "later"));
    assert_eq!(second.key_of("later"), None);
}

#[test]
fn writer_hands_out_keys_in_order() {
    let mut writer = UniqueWriter::new();
    assert_eq!(writer.next_key(), 0);
    let k0 = writer.do_pending_ops_and_insert(Vec::new(), BoxedStr::from("a".to_string()));
    let k1 = writer.do_pending_ops_and_insert(Vec::new(), BoxedStr::from("b".to_string()));
    assert_eq!((k0, k1), (0, 1));
    assert_eq!(writer.next_key(), 2);
}

#[test]
fn writer_logs_what_was_received_before_the_insertion() {
    let mut writer = UniqueWriter::new();
    let received = vec![
        ChannelOp::Release { key: 3 },
        ChannelOp::Retain { key: 4 },
        ChannelOp::Release { key: 4 },
    ];
    let key = writer.do_pending_ops_and_insert(received, BoxedStr::from("new".to_string()));
    assert_eq!(key, 0);
    let oplog = writer.take_oplog();
    assert_eq!(oplog.len(), 5);
    assert!(matches!(oplog[0], StringStorageOp::Release { key: 3 }));
    assert!(matches!(oplog[1], StringStorageOp::Retain { key: 4 }));
    assert!(matches!(oplog[2], StringStorageOp::Release { key: 4 }));
    assert!(matches!(&oplog[3], StringStorageOp::Insert { key: 0, string } if string.get() == "new"));
    assert!(matches!(oplog[4], StringStorageOp::DropUnusedStrings));
    // the log starts anew
    assert_eq!(writer.take_oplog().len(), 0);
    assert_eq!(writer.next_key(), 1);
}

#[test]
fn writer_collects_garbage_after_what_was_received() {
    let mut writer = UniqueWriter::new();
    writer.drain_channel_ops(vec![ChannelOp::Retain { key: 1 }]);
    writer.collect_garbage(vec![ChannelOp::Release { key: 2 }]);
    let oplog = writer.take_oplog();
    assert_eq!(oplog.len(), 3);
    assert!(matches!(oplog[0], StringStorageOp::Retain { key: 1 }));
    assert!(matches!(oplog[1], StringStorageOp::Release { key: 2 }));
    assert!(matches!(oplog[2], StringStorageOp::DropUnusedStrings));
    assert_eq!(writer.next_key(), 0);
}

#[test]
fn writer_log_can_be_absorbed_by_a_store() {
    let mut writer = UniqueWriter::new();
    let mut store = InnerStringStorage::default();
    let key = writer.do_pending_ops_and_insert(Vec::new(), BoxedStr::from("a".to_string()));
    for operation in writer.take_oplog() {
        assert!(store.accepts(&operation));
        store.absorb_second(operation);
    }
    writer.collect_garbage(vec![ChannelOp::Retain { key }, ChannelOp::Release { key }]);
    for operation in writer.take_oplog() {
        assert!(store.accepts(&operation));
        store.absorb_second(operation);
    }
    assert_eq!(stored(&store, key), ("a", 1));
    writer.collect_garbage(vec![ChannelOp::Release { key }]);
    for operation in writer.take_oplog() {
        assert!(store.accepts(&operation));
        store.absorb_second(operation);
    }
    assert_eq!(store.key_of("a"), None);
    assert_eq!((store.trie_len(), store.map_len()), (0, 0));
}
