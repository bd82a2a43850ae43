use interned_string::concurrent::ConcurrentStringStorage;
use interned_string::IString;
use interned_string::Intern;

fn assert_string_count_in_storage(storage: &ConcurrentStringStorage, count: usize) {
    assert_eq!(storage.store().map_len(), count);
    assert_eq!(storage.store().trie_len(), count);
}

fn assert_string_is_still_stored(storage: &ConcurrentStringStorage, string: &str) {
    let key = storage.store().key_of(string);
    if let Some(key) = key {
        assert!(storage.store().get(key).unwrap().inner().get() == string);
    } else {
        assert!(false, "the string is not in the trie");
    }
}

fn assert_string_is_stored_with_key(storage: &ConcurrentStringStorage, string: &str, key: u32) {
    assert!(storage.store().get(key).unwrap().inner().get() == string);
    assert_eq!(storage.store().key_of(string), Some(key));
}

fn assert_string_is_not_stored(storage: &ConcurrentStringStorage, string: &str) {
    assert_eq!(storage.store().key_of(string), None);
}

fn assert_send<T: Send>() {}

fn assert_sync<T: Sync>() {}

#[test]
fn it_creates_and_removes_1_string() {
    let mut storage = ConcurrentStringStorage::new();
    let my_istring1 = "hello".intern(&mut storage);
    assert!(my_istring1.deref(&storage) == "hello");

    assert_string_count_in_storage(&storage, 1);
    assert_string_is_stored_with_key(&storage, "hello", my_istring1.key());

    my_istring1.drop(&mut storage);

    assert_string_count_in_storage(&storage, 1);
    assert_string_is_still_stored(&storage, "hello");

    let my_istring2 = "another".to_string().intern(&mut storage);
    assert!(my_istring2.deref(&storage) == "another");

    assert_string_count_in_storage(&storage, 1);
    assert_string_is_stored_with_key(&storage, "another", my_istring2.key());
    assert_string_is_not_stored(&storage, "hello")
}

#[test]
fn it_creates_and_removes_1_shared_string() {
    let mut storage = ConcurrentStringStorage::new();
    let my_istring1 = IString::from_str("hello", &mut storage);
    let my_istring2 = IString::from_str("hello", &mut storage);
    assert!(my_istring1.deref(&storage) == "hello");
    assert!(my_istring2.deref(&storage) == "hello");
    assert!(my_istring1.key() == my_istring2.key());

    assert_string_count_in_storage(&storage, 1);
    assert_string_is_stored_with_key(&storage, "hello", my_istring1.key());

    my_istring1.drop(&mut storage);

    assert_string_count_in_storage(&storage, 1);
    assert_string_is_stored_with_key(&storage, "hello", my_istring2.key());

    my_istring2.drop(&mut storage);

    assert_string_count_in_storage(&storage, 1);
    assert_string_is_still_stored(&storage, "hello");
}

#[test]
fn it_creates_and_removes_3_strings() {
    let mut storage = ConcurrentStringStorage::new();
    let my_istring1 = IString::from_str("hello", &mut storage);
    let my_istring2 = IString::from_str("world", &mut storage);
    let my_istring3 = IString::from_str("howdy", &mut storage);
    assert!(my_istring1.deref(&storage) == "hello");
    assert!(my_istring2.deref(&storage) == "world");
    assert!(my_istring3.deref(&storage) == "howdy");
    assert!(my_istring1.key() != my_istring2.key());
    assert!(my_istring2.key() != my_istring3.key());

    assert_string_count_in_storage(&storage, 3);
    assert_string_is_stored_with_key(&storage, "hello", my_istring1.key());
    assert_string_is_stored_with_key(&storage, "world", my_istring2.key());
    assert_string_is_stored_with_key(&storage, "howdy", my_istring3.key());
    assert_string_is_not_stored(&storage, "hola");

    my_istring1.drop(&mut storage);
    my_istring2.drop(&mut storage);

    assert_string_count_in_storage(&storage, 3);
    assert_string_is_still_stored(&storage, "hello");
    assert_string_is_still_stored(&storage, "world");
    assert_string_is_stored_with_key(&storage, "howdy", my_istring3.key());
    assert_string_is_not_stored(&storage, "hola");

    // it should reuse the storage
    let my_istring1bis = IString::from_str("hello", &mut storage);
    assert!(my_istring1bis.deref(&storage) == "hello");

    // and not clean up the storage of "world" yet
    assert_string_count_in_storage(&storage, 3);
    assert_string_is_stored_with_key(&storage, "hello", my_istring1bis.key());
    assert_string_is_stored_with_key(&storage, "howdy", my_istring3.key());
    assert_string_is_still_stored(&storage, "world");

    let my_istring4 = IString::from_str("another", &mut storage);
    assert!(my_istring4.deref(&storage) == "another");

    // creating a new string should cause the storage of unused strings to be cleaned up
    assert_string_is_stored_with_key(&storage, "hello", my_istring1bis.key());
    assert_string_is_stored_with_key(&storage, "howdy", my_istring3.key());
    assert_string_is_stored_with_key(&storage, "another", my_istring4.key());
    assert_string_is_not_stored(&storage, "world");
    assert_string_count_in_storage(&storage, 3);
}

#[test]
fn it_is_send() {
    assert_send::<IString>();
}

#[test]
fn it_is_sync() {
    assert_sync::<IString>();
}
