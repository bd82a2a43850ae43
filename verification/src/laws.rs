//! What holds of every storage, whatever was done with it.

use crate::IStringKey;
use crate::model::lemma_absorb_all_concat;
use crate::model::lemma_drop_unused_of_settled;
use crate::model::OpView;
use crate::model::StorageView;
use crate::model::StoredView;
use crate::protocol::ConcurrentView;
use crate::protocol::lemma_collect_garbage_keeps_wf;
use crate::protocol::lemma_drained_keeps_strings;
use crate::protocol::lemma_handle_is_stored;
use crate::protocol::lemma_insert_keeps_wf;
use crate::protocol::lemma_new_is_wf;
use crate::protocol::lemma_release_keeps_wf;
use crate::protocol::lemma_retain_keeps_wf;
use crate::protocol::Operation;
use crate::writer::storage_ops;
use vstd::prelude::*;

verus! {

/// Every operation that a consistent storage permits leaves it consistent.
pub proof fn law_operation_keeps_wf(storage: ConcurrentView, operation: Operation)
    requires
        storage.wf(),
        storage.permits(operation),
    ensures
        storage.apply(operation).wf(),
{
    match operation {
        Operation::Intern { string } => {
            if storage.store.trie.contains_key(string) {
                lemma_retain_keeps_wf(storage, storage.store.trie[string]);
            } else {
                lemma_insert_keeps_wf(storage, string);
            }
        },
        Operation::Clone { key } => {
            lemma_handle_is_stored(storage, key);
            lemma_retain_keeps_wf(storage, key);
        },
        Operation::Drop { key } => {
            lemma_release_keeps_wf(storage, key);
        },
        Operation::CollectGarbage => {
            lemma_collect_garbage_keeps_wf(storage);
        },
    }
}

/// Whatever is done with a storage that was empty at first, one permitted
/// operation after the other, it is consistent.
pub proof fn law_operations_keep_wf(operations: Seq<Operation>)
    requires
        ConcurrentView::new().permits_all(operations),
    ensures
        ConcurrentView::new().apply_all(operations).wf(),
    decreases operations.len(),
{
    if operations.len() == 0 {
        lemma_new_is_wf();
    } else {
        law_operations_keep_wf(operations.drop_last());
        law_operation_keeps_wf(
            ConcurrentView::new().apply_all(operations.drop_last()),
            operations.last(),
        );
    }
}

/// Whatever was done with a storage that was empty at first, once unused
/// strings were dropped nothing unused is stored, and the trie and the map
/// have the same size.
pub proof fn law_collected_after_any_operations(operations: Seq<Operation>)
    requires
        ConcurrentView::new().permits_all(operations),
    ensures
        ConcurrentView::new().apply_all(operations).collect_garbage().wf(),
        ConcurrentView::new().apply_all(operations).collect_garbage().collected(),
        ConcurrentView::new().apply_all(operations).collect_garbage().store.trie.len()
            == ConcurrentView::new().apply_all(operations).collect_garbage().store.map.len(),
{
    let storage = ConcurrentView::new().apply_all(operations);
    law_operations_keep_wf(operations);
    law_collect_garbage_collects(storage);
    law_trie_and_map_have_one_size(storage.collect_garbage().store);
}

/// After unused strings were dropped, the store holds exactly the keys that
/// have a live handle; each has kept its string, and its count is the number
/// of its handles.
pub proof fn law_collected_store_holds_what_has_handles(storage: ConcurrentView)
    requires
        storage.wf(),
    ensures
        forall|key: IStringKey|
            #![trigger storage.collect_garbage().store.map.contains_key(key)]
            storage.collect_garbage().store.map.contains_key(key) <==> storage.handles_of(key)
                >= 1,
        forall|key: IStringKey| #[trigger]
            storage.collect_garbage().store.map.contains_key(key)
                ==> storage.collect_garbage().store.map[key] == (StoredView {
                string: storage.string_of(key),
                strong_count: storage.handles_of(key) as int,
            }),
        forall|key: IStringKey|
            #![trigger storage.collect_garbage().handles_of(key)]
            storage.collect_garbage().handles_of(key) == storage.handles_of(key),
{
    let drained = storage.drained();
    let after = storage.collect_garbage();
    lemma_collect_garbage_keeps_wf(storage);
    lemma_drained_keeps_strings(storage);
    lemma_drop_unused_of_settled(drained);
    assert forall|key: IStringKey| after.store.map.contains_key(key) <==> storage.handles_of(key)
        >= 1 by {
        assert(storage.handles_of(key) == drained.count_of(key));
    }
    assert forall|key: IStringKey| #[trigger]
        after.store.map.contains_key(key) implies after.store.map[key] == (StoredView {
        string: storage.string_of(key),
        strong_count: storage.handles_of(key) as int,
    }) by {
        assert(storage.handles_of(key) == drained.count_of(key));
        assert(drained.map.contains_key(key));
        assert(storage.store.map.contains_key(key));
    }
}

/// Once unused strings were dropped, nothing unused is stored and nothing
/// waits to be absorbed.
pub proof fn law_collect_garbage_collects(storage: ConcurrentView)
    requires
        storage.wf(),
    ensures
        storage.collect_garbage().wf(),
        storage.collect_garbage().collected(),
{
    let after = storage.collect_garbage();
    lemma_collect_garbage_keeps_wf(storage);
    law_collected_store_holds_what_has_handles(storage);
    assert forall|key: IStringKey| after.store.map.contains_key(key) <==> after.handles_of(key)
        >= 1 by {
        assert(after.handles_of(key) == storage.handles_of(key));
    }
    assert forall|key: IStringKey| #[trigger]
        after.store.map.contains_key(key) implies after.store.map[key].strong_count
        == after.handles_of(key) by {
        assert(after.handles_of(key) == storage.handles_of(key));
    }
}

/// A string all of whose handles were dropped is gone once unused strings were
/// dropped: neither the trie nor the map has an entry for it.
pub proof fn law_string_without_handles_is_dropped(storage: ConcurrentView, string: Seq<char>)
    requires
        storage.wf(),
        forall|key: IStringKey|
            storage.store.map.contains_key(key) && storage.string_of(key) == string
                ==> storage.handles_of(key) == 0,
    ensures
        !storage.collect_garbage().store.trie.contains_key(string),
        forall|key: IStringKey| #[trigger]
            storage.collect_garbage().store.map.contains_key(key)
                ==> storage.collect_garbage().store.map[key].string != string,
{
    let after = storage.collect_garbage();
    lemma_collect_garbage_keeps_wf(storage);
    law_collected_store_holds_what_has_handles(storage);
    assert forall|key: IStringKey| #[trigger]
        after.store.map.contains_key(key) implies after.store.map[key].string != string by {
        lemma_handle_is_stored(storage, key);
    }
    if after.store.trie.contains_key(string) {
        assert(after.store.map.contains_key(after.store.trie[string]));
    }
}

/// A string with a live handle has exactly one entry once unused strings were
/// dropped: its key is in the map with the string and with the number of its
/// handles as its count, the trie leads from the string to the key, and no
/// other key has the string.
pub proof fn law_string_with_handles_has_one_entry(storage: ConcurrentView, key: IStringKey)
    requires
        storage.wf(),
        storage.handles_of(key) >= 1,
    ensures
        storage.collect_garbage().store.map.contains_key(key),
        storage.collect_garbage().store.map[key] == (StoredView {
            string: storage.string_of(key),
            strong_count: storage.handles_of(key) as int,
        }),
        storage.collect_garbage().store.trie.contains_key(storage.string_of(key)),
        storage.collect_garbage().store.trie[storage.string_of(key)] == key,
        forall|other: IStringKey| #[trigger]
            storage.collect_garbage().store.map.contains_key(other)
                && storage.collect_garbage().store.map[other].string == storage.string_of(key)
                ==> other == key,
{
    let after = storage.collect_garbage();
    lemma_collect_garbage_keeps_wf(storage);
    law_collected_store_holds_what_has_handles(storage);
    assert(after.store.map.contains_key(key));
}

/// The trie and the map of a well-formed store have the same size.
pub proof fn law_trie_and_map_have_one_size(store: StorageView)
    requires
        store.wf(),
    ensures
        store.trie.len() == store.map.len(),
{
    assert(store.trie.is_injective()) by {
        assert forall|first: Seq<char>, second: Seq<char>|
            first != second && store.trie.dom().contains(first) && store.trie.dom().contains(
                second,
            ) implies #[trigger] store.trie[first] != #[trigger] store.trie[second] by {
            assert(store.trie.contains_key(first));
            assert(store.trie.contains_key(second));
        }
    }
    store.trie.lemma_injective_values_len();
    assert(store.trie.values() =~= store.map.dom()) by {
        assert forall|key: IStringKey| store.trie.values().contains(key) implies store.map.dom().contains(
            key,
        ) by {
            let string = choose|string: Seq<char>|
                store.trie.contains_key(string) && store.trie[string] == key;
            assert(store.trie.contains_key(string));
        }
        assert forall|key: IStringKey| store.map.dom().contains(key) implies store.trie.values().contains(
            key,
        ) by {
            assert(store.map.contains_key(key));
            assert(store.trie.contains_key(store.map[key].string));
        }
    }
}

/// Interning a string a second time gives the key that the first time gave.
pub proof fn law_equal_strings_get_equal_keys(storage: ConcurrentView, string: Seq<char>)
    requires
        storage.wf(),
        storage.can_intern(string),
    ensures
        storage.insert_or_retain(string).key_for(string) == storage.key_for(string),
{
    law_handle_reads_what_was_interned(storage, string);
    law_operation_keeps_wf(storage, Operation::Intern { string });
    law_live_string_is_found(storage.insert_or_retain(string), storage.key_for(string));
}

/// While a key has a live handle, interning its string gives that key.
pub proof fn law_live_string_is_found(storage: ConcurrentView, key: IStringKey)
    requires
        storage.wf(),
        storage.handles_of(key) >= 1,
    ensures
        storage.store.map.contains_key(key),
        storage.key_for(storage.string_of(key)) == key,
{
    lemma_handle_is_stored(storage, key);
}

/// A key that has a live handle before and after an operation stands for the
/// same string before and after it.
pub proof fn law_operation_keeps_live_strings(
    storage: ConcurrentView,
    operation: Operation,
    key: IStringKey,
)
    requires
        storage.wf(),
        storage.permits(operation),
        storage.handles_of(key) >= 1,
        storage.apply(operation).handles_of(key) >= 1,
    ensures
        storage.apply(operation).store.map.contains_key(key),
        storage.apply(operation).string_of(key) == storage.string_of(key),
{
    let after = storage.apply(operation);
    let drained = storage.drained();
    lemma_handle_is_stored(storage, key);
    lemma_drained_keeps_strings(storage);
    assert(storage.handles_of(key) == drained.count_of(key));
    match operation {
        Operation::Intern { string } => {
            if !storage.store.trie.contains_key(string) {
                lemma_insert_keeps_wf(storage, string);
                let inserted = drained.insert(storage.next_key, string);
                assert(key != storage.next_key) by {
                    assert(storage.store.map.contains_key(key));
                }
                assert(inserted.map.contains_key(key));
                assert(!inserted.is_unused(inserted.strings_to_possibly_free, key));
            }
        },
        Operation::Clone { key: cloned } => {},
        Operation::Drop { key: dropped } => {},
        Operation::CollectGarbage => {
            lemma_collect_garbage_keeps_wf(storage);
            assert(!drained.is_unused(drained.strings_to_possibly_free, key));
        },
    }
}

/// Whatever is done with a storage while a handle of a key is out, the key
/// stands for the same string afterwards: the handle reads what it read.
pub proof fn law_live_handle_keeps_its_string(
    storage: ConcurrentView,
    operations: Seq<Operation>,
    key: IStringKey,
)
    requires
        storage.wf(),
        storage.permits_all(operations),
        forall|n: int|
            0 <= n <= operations.len() ==> #[trigger] storage.apply_all(
                operations.take(n),
            ).handles_of(key) >= 1,
    ensures
        storage.apply_all(operations).wf(),
        storage.apply_all(operations).store.map.contains_key(key),
        storage.apply_all(operations).string_of(key) == storage.string_of(key),
    decreases operations.len(),
{
    if operations.len() == 0 {
        assert(operations.take(0) =~= operations);
        assert(storage.apply_all(operations.take(0)).handles_of(key) >= 1);
        lemma_handle_is_stored(storage, key);
    } else {
        let earlier = operations.drop_last();
        assert forall|n: int| 0 <= n <= earlier.len() implies #[trigger] storage.apply_all(
            earlier.take(n),
        ).handles_of(key) >= 1 by {
            assert(earlier.take(n) =~= operations.take(n));
        }
        law_live_handle_keeps_its_string(storage, earlier, key);
        let before = storage.apply_all(earlier);
        assert(operations.take(operations.len() - 1) =~= earlier);
        assert(storage.apply_all(operations.take(operations.len() - 1)).handles_of(key) >= 1);
        assert(operations.take(operations.len() as int) =~= operations);
        assert(storage.apply_all(operations.take(operations.len() as int)).handles_of(key) >= 1);
        law_operation_keeps_wf(before, operations.last());
        law_operation_keeps_live_strings(before, operations.last(), key);
    }
}

/// The handle that interning gives is live, and the string that is read
/// through it is the string that was interned.
pub proof fn law_handle_reads_what_was_interned(storage: ConcurrentView, string: Seq<char>)
    requires
        storage.wf(),
        storage.can_intern(string),
    ensures
        storage.insert_or_retain(string).handles_of(storage.key_for(string))
            == storage.handles_of(storage.key_for(string)) + 1,
        storage.insert_or_retain(string).store.map.contains_key(storage.key_for(string)),
        storage.insert_or_retain(string).string_of(storage.key_for(string)) == string,
{
    let after = storage.insert_or_retain(string);
    let key = storage.key_for(string);
    if storage.store.trie.contains_key(string) {
        assert(storage.store.map.contains_key(key));
    } else {
        lemma_insert_keeps_wf(storage, string);
        lemma_drained_keeps_strings(storage);
        assert(storage.handles_of(key) == storage.drained().count_of(key));
        if storage.store.map.contains_key(key) {
            assert(key < storage.next_key);
        }
        lemma_handle_is_stored(after, key);
        let inserted = storage.drained().insert(key, string);
        assert(inserted.map.contains_key(key));
        assert(!inserted.is_unused(inserted.strings_to_possibly_free, key));
    }
}

/// Two consistent storages in which every key has the same number of
/// handles, and every key with a handle the same string, hold the same store
/// once unused strings were dropped.
pub proof fn law_collected_store_depends_on_handles(first: ConcurrentView, second: ConcurrentView)
    requires
        first.wf(),
        second.wf(),
        forall|key: IStringKey| first.handles_of(key) == second.handles_of(key),
        forall|key: IStringKey|
            first.handles_of(key) >= 1 ==> first.string_of(key) == second.string_of(key),
    ensures
        first.collect_garbage().store == second.collect_garbage().store,
{
    let a = first.collect_garbage().store;
    let b = second.collect_garbage().store;
    lemma_collect_garbage_keeps_wf(first);
    lemma_collect_garbage_keeps_wf(second);
    law_collected_store_holds_what_has_handles(first);
    law_collected_store_holds_what_has_handles(second);
    assert(a.map =~= b.map) by {
        assert forall|key: IStringKey| a.map.contains_key(key) == b.map.contains_key(key) by {
            assert(first.handles_of(key) == second.handles_of(key));
        }
        assert forall|key: IStringKey| a.map.contains_key(key) implies a.map[key] == b.map[key] by {
            assert(first.handles_of(key) == second.handles_of(key));
            assert(b.map.contains_key(key));
        }
    }
    assert(a.trie =~= b.trie) by {
        assert forall|string: Seq<char>| a.trie.contains_key(string) implies b.trie.contains_key(
            string,
        ) && b.trie[string] == a.trie[string] by {
            assert(a.map.contains_key(a.trie[string]));
            assert(b.map.contains_key(a.trie[string]));
        }
        assert forall|string: Seq<char>| b.trie.contains_key(string) implies a.trie.contains_key(
            string,
        ) by {
            assert(b.map.contains_key(b.trie[string]));
            assert(a.map.contains_key(b.trie[string]));
        }
    }
    assert(a.strings_to_possibly_free =~= b.strings_to_possibly_free);
    assert(a =~= b);
}

/// Making a handle for a string and dropping it again leaves every key with
/// the number of handles that it had, and every key that has a handle with
/// its string.
pub proof fn law_intern_then_drop_keeps_handles(storage: ConcurrentView, string: Seq<char>)
    requires
        storage.wf(),
        storage.can_intern(string),
    ensures
        storage.interned_and_dropped(string, 1).wf(),
        storage.interned_and_dropped(string, 1).can_intern(string),
        forall|key: IStringKey|
            #![trigger storage.interned_and_dropped(string, 1).handles_of(key)]
            storage.interned_and_dropped(string, 1).handles_of(key) == storage.handles_of(key),
        forall|key: IStringKey|
            #![trigger storage.interned_and_dropped(string, 1).string_of(key)]
            storage.handles_of(key) >= 1 ==> storage.interned_and_dropped(string, 1).string_of(
                key,
            ) == storage.string_of(key),
{
    let key = storage.key_for(string);
    let interned = storage.insert_or_retain(string);
    let after = interned.release(key);
    assert(storage.interned_and_dropped(string, 0) == storage);
    assert(storage.interned_and_dropped(string, 1) == after);
    law_operation_keeps_wf(storage, Operation::Intern { string });
    law_handle_reads_what_was_interned(storage, string);
    lemma_release_keeps_wf(interned, key);
    assert(after.store == interned.store);
    assert(after.store.trie.contains_key(string) && after.store.trie[string] == key) by {
        assert(interned.store.map.contains_key(key));
    }
    assert forall|other: IStringKey| after.handles_of(other) == storage.handles_of(other) by {
        if !storage.store.trie.contains_key(string) && other == key {
            lemma_drained_keeps_strings(storage);
            assert(storage.handles_of(key) == storage.drained().count_of(key));
            if storage.store.map.contains_key(key) {
                assert(key < storage.next_key);
            }
        }
    }
    assert forall|other: IStringKey| storage.handles_of(other) >= 1 implies after.string_of(other)
        == storage.string_of(other) by {
        assert(interned.handles_of(other) >= 1);
        law_operation_keeps_live_strings(storage, Operation::Intern { string }, other);
    }
}

/// Making a handle for a string and dropping it again, any number of times
/// over, leaves no trace: once unused strings were dropped, the store is what
/// it would have been without.
pub proof fn law_intern_and_drop_leave_no_trace(
    storage: ConcurrentView,
    string: Seq<char>,
    times: nat,
)
    requires
        storage.wf(),
        storage.can_intern(string),
    ensures
        storage.interned_and_dropped(string, times).wf(),
        storage.interned_and_dropped(string, times).collect_garbage().store
            == storage.collect_garbage().store,
{
    lemma_interned_and_dropped(storage, string, times);
    law_collected_store_depends_on_handles(storage.interned_and_dropped(string, times), storage);
}

/// In a storage that was empty at first, making a handle for a string and
/// dropping it again, any number of times over, leaves the store empty once
/// unused strings were dropped.
pub proof fn law_intern_and_drop_leave_empty_store(string: Seq<char>, times: nat)
    ensures
        ConcurrentView::new().interned_and_dropped(string, times).collect_garbage().store
            == StorageView::empty(),
{
    let storage = ConcurrentView::new();
    lemma_new_is_wf();
    law_intern_and_drop_leave_no_trace(storage, string, times);
    law_collected_store_holds_what_has_handles(storage);
    lemma_collect_garbage_keeps_wf(storage);
    let collected = storage.collect_garbage().store;
    assert(collected.map =~= Map::empty());
    assert(collected.trie =~= Map::empty()) by {
        assert forall|s: Seq<char>| !collected.trie.contains_key(s) by {
            if collected.trie.contains_key(s) {
                assert(collected.map.contains_key(collected.trie[s]));
            }
        }
    }
    assert(collected.strings_to_possibly_free =~= Seq::empty());
    assert(collected =~= StorageView::empty());
}

/// What `times` rounds of interning and dropping keep.
proof fn lemma_interned_and_dropped(storage: ConcurrentView, string: Seq<char>, times: nat)
    requires
        storage.wf(),
        storage.can_intern(string),
    ensures
        storage.interned_and_dropped(string, times).wf(),
        storage.interned_and_dropped(string, times).can_intern(string),
        forall|key: IStringKey|
            #![trigger storage.interned_and_dropped(string, times).handles_of(key)]
            storage.interned_and_dropped(string, times).handles_of(key) == storage.handles_of(
                key,
            ),
        forall|key: IStringKey|
            #![trigger storage.interned_and_dropped(string, times).string_of(key)]
            storage.handles_of(key) >= 1 ==> storage.interned_and_dropped(
                string,
                times,
            ).string_of(key) == storage.string_of(key),
    decreases times,
{
    if times > 0 {
        let before = storage.interned_and_dropped(string, (times - 1) as nat);
        let after = storage.interned_and_dropped(string, times);
        lemma_interned_and_dropped(storage, string, (times - 1) as nat);
        law_intern_then_drop_keeps_handles(before, string);
        assert(before.interned_and_dropped(string, 0) == before);
        assert(before.interned_and_dropped(string, 1) == after);
        assert forall|key: IStringKey| after.handles_of(key) == storage.handles_of(key) by {
            assert(before.handles_of(key) == storage.handles_of(key));
        }
        assert forall|key: IStringKey| storage.handles_of(key) >= 1 implies after.string_of(key)
            == storage.string_of(key) by {
            assert(before.handles_of(key) == storage.handles_of(key));
            assert(before.string_of(key) == storage.string_of(key));
        }
    }
}

/// Cloning a handle and dropping the clone changes nothing that can be seen:
/// readers see the same store, every key has the number of handles that it
/// had, and whatever the writer publishes next, it publishes the same store.
pub proof fn law_clone_then_drop_changes_nothing(storage: ConcurrentView, key: IStringKey)
    requires
        storage.wf(),
        1 <= storage.handles_of(key) < isize::MAX,
    ensures
        storage.retain(key).release(key).wf(),
        storage.retain(key).release(key).store == storage.store,
        storage.retain(key).release(key).next_key == storage.next_key,
        forall|other: IStringKey|
            #![trigger storage.retain(key).release(key).handles_of(other)]
            storage.retain(key).release(key).handles_of(other) == storage.handles_of(other),
        storage.retain(key).release(key).drained() == storage.drained(),
        forall|last: Seq<OpView>|
            #![trigger storage.retain(key).release(key).published(last)]
            storage.retain(key).release(key).published(last).store == storage.published(
                last,
            ).store,
{
    let cloned = storage.retain(key);
    let after = cloned.release(key);
    let drained = storage.drained();
    lemma_handle_is_stored(storage, key);
    lemma_retain_keeps_wf(storage, key);
    lemma_release_keeps_wf(cloned, key);
    lemma_drained_keeps_strings(storage);
    assert(storage.handles_of(key) == drained.count_of(key));
    assert(after.drained() == drained.retain(key).release(key));
    assert(drained.retain(key).release(key).map =~= drained.map);
    assert(drained.retain(key).release(key) =~= drained);
    assert forall|last: Seq<OpView>|
        #![trigger after.published(last)]
        after.published(last).store == storage.published(last).store by {
        lemma_absorb_all_concat(after.store, storage_ops(after.channel), last);
        lemma_absorb_all_concat(storage.store, storage_ops(storage.channel), last);
    }
}

} // verus!
