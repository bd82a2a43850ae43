//! One replica of the store, and the operations that it absorbs.

use crate::boxed::BoxedStr;
use crate::model::lemma_absorb_keeps_wf;
use crate::model::OpView;
use crate::model::StorageView;
use crate::stored::StoredString;
use crate::trie::trie_clone;
use crate::trie::trie_entries;
use crate::trie::trie_get;
use crate::trie::trie_insert;
use crate::trie::trie_len;
use crate::trie::trie_new;
use crate::trie::trie_remove;
use crate::IStringKey;
use radix_trie::Trie;
use std::collections::HashMap;
use vstd::prelude::*;

verus! {

broadcast use vstd::std_specs::hash::group_hash_axioms;

/// An operation that a replica absorbs.
pub enum StringStorageOp {
    /// Insert the string in storage with the given key.
    Insert { key: IStringKey, string: BoxedStr },
    /// Increment the count of the stored string with the given key.
    Retain { key: IStringKey },
    /// Decrement the count of the stored string with the given key.
    Release { key: IStringKey },
    /// Drop all stored strings that are no longer used.
    DropUnusedStrings,
}

impl View for StringStorageOp {
    type V = OpView;

    open spec fn view(&self) -> OpView {
        match *self {
            StringStorageOp::Insert { key, string } => OpView::Insert { key, string: string@ },
            StringStorageOp::Retain { key } => OpView::Retain { key },
            StringStorageOp::Release { key } => OpView::Release { key },
            StringStorageOp::DropUnusedStrings => OpView::DropUnusedStrings,
        }
    }
}

/// An operation that a handle sends to the writer, to be absorbed later.
#[derive(Clone, Copy, Debug, PartialEq, Eq, Structural)]
pub enum ChannelOp {
    /// Eventually increment the count of the stored string with the given key.
    Retain { key: IStringKey },
    /// Eventually decrement the count of the stored string with the given key.
    Release { key: IStringKey },
}

impl ChannelOp {
    /// The storage operation that this one becomes in the writer's log.
    pub open spec fn storage_op(self) -> OpView {
        match self {
            ChannelOp::Retain { key } => OpView::Retain { key },
            ChannelOp::Release { key } => OpView::Release { key },
        }
    }
}

/// One replica of the store: the trie from each string to its key, the map
/// from each key to its string and count, and the keys to look at when unused
/// strings are dropped.
pub struct InnerStringStorage {
    trie: Trie<String, IStringKey>,
    map: HashMap<IStringKey, StoredString>,
    strings_to_possibly_free: Vec<IStringKey>,
}

impl View for InnerStringStorage {
    type V = StorageView;

    closed spec fn view(&self) -> StorageView {
        StorageView {
            trie: trie_entries(self.trie),
            map: self.map@.map_values(|stored: StoredString| stored@),
            strings_to_possibly_free: self.strings_to_possibly_free@,
        }
    }
}

impl Default for InnerStringStorage {
    /// A replica that holds nothing.
    fn default() -> (storage: Self)
        ensures
            storage@ == StorageView::empty(),
            storage@.wf(),
    {
        let storage = InnerStringStorage {
            trie: trie_new(),
            map: HashMap::new(),
            strings_to_possibly_free: Vec::new(),
        };
        assert(storage@ =~= StorageView::empty());
        storage
    }
}

impl InnerStringStorage {
    /// Whether the replica can absorb `operation`.
    pub fn accepts(&self, operation: &StringStorageOp) -> (accepted: bool)
        ensures
            accepted == self@.accepts(operation@),
    {
        match operation {
            StringStorageOp::Insert { key, string } => {
                trie_get(&self.trie, string.get()).is_none() && !self.map.contains_key(key)
            },
            StringStorageOp::Retain { key } => {
                match self.map.get(key) {
                    Some(stored) => stored.strong_count() < isize::MAX,
                    None => false,
                }
            },
            StringStorageOp::Release { key } => {
                match self.map.get(key) {
                    Some(stored) => stored.strong_count() > isize::MIN,
                    None => false,
                }
            },
            StringStorageOp::DropUnusedStrings => true,
        }
    }

    /// Stores `string` under `key`, with one handle.
    fn insert(&mut self, key: IStringKey, string: BoxedStr)
        requires
            old(self)@.accepts(OpView::Insert { key, string: string@ }),
        ensures
            final(self)@ == old(self)@.insert(key, string@),
    {
        let previous_key = trie_insert(&mut self.trie, string.get().to_owned(), key);
        assert(previous_key is None);
        let previous_stored = self.map.insert(key, StoredString::new(string));
        assert(previous_stored is None);
        assert(self@ =~= old(self)@.insert(key, string@));
    }

    /// Counts one more handle for `key`.
    pub fn retain(&mut self, key: IStringKey)
        requires
            old(self)@.accepts(OpView::Retain { key }),
        ensures
            final(self)@ == old(self)@.retain(key),
    {
        let mut stored_string = self.map.remove(&key).unwrap();
        stored_string.retain();
        self.map.insert(key, stored_string);
        assert(self@ =~= old(self)@.retain(key));
    }

    /// Counts one handle less for `key`, and lists the key for removal when
    /// that was its last.
    pub fn release(&mut self, key: IStringKey)
        requires
            old(self)@.accepts(OpView::Release { key }),
        ensures
            final(self)@ == old(self)@.release(key),
    {
        let mut stored_string = self.map.remove(&key).unwrap();
        stored_string.release();
        let droppable = stored_string.is_droppable();
        self.map.insert(key, stored_string);
        if droppable {
            self.strings_to_possibly_free.push(key);
        }
        assert(self@ =~= old(self)@.release(key));
    }

    /// Looks once more at every key listed for removal, removes those that are
    /// stored without a handle, with their strings, and empties the list.
    fn drop_unused_strings(&mut self)
        requires
            old(self)@.wf(),
        ensures
            final(self)@ == old(self)@.drop_unused_strings(),
    {
        let ghost before = self@;
        let mut listed: Vec<IStringKey> = Vec::new();
        std::mem::swap(&mut listed, &mut self.strings_to_possibly_free);
        let mut i: usize = 0;
        while i < listed.len()
            invariant
                i <= listed.len(),
                listed@ == before.strings_to_possibly_free,
                before.wf(),
                self@.strings_to_possibly_free == Seq::<IStringKey>::empty(),
                self@.trie == before.without_unused(listed@.take(i as int)).trie,
                self@.map == before.without_unused(listed@.take(i as int)).map,
            decreases listed.len() - i,
        {
            let string_key = listed[i];
            let ghost seen = listed@.take(i as int);
            let ghost seen_next = listed@.take(i + 1);
            let ghost here = self@;
            proof {
                assert(seen_next =~= seen.push(string_key));
                assert(seen_next[i as int] == string_key);
                assert forall|key: IStringKey|
                    before.is_unused(seen_next, key) == (before.is_unused(seen, key) || (key
                        == string_key && before.is_unused(seen_next, key))) by {
                    if seen_next.contains(key) && key != string_key {
                        let j = choose|j: int| 0 <= j < seen_next.len() && seen_next[j] == key;
                        assert(seen[j] == key);
                    }
                    if seen.contains(key) {
                        let j = choose|j: int| 0 <= j < seen.len() && seen[j] == key;
                        assert(seen_next[j] == key);
                    }
                }
            }
            match self.map.remove(&string_key) {
                Some(stored) => {
                    // make sure that the string is actually unused
                    if stored.is_droppable() {
                        // remove it from the trie as well
                        let removed_key = trie_remove(&mut self.trie, stored.inner().get());
                        proof {
                            assert(here.map.contains_key(string_key));
                            assert(here.map[string_key] == stored@);
                            assert(before.map.contains_key(string_key));
                            assert(removed_key == Some(string_key));
                            assert(before.is_unused(seen_next, string_key));
                            assert(self@.map =~= here.map.remove(string_key));
                            assert(here.map.remove(string_key) =~= before.without_unused(
                                seen_next,
                            ).map);
                            assert forall|string: Seq<char>|
                                before.trie.contains_key(string) && string
                                    != before.map[string_key].string implies before.trie[string]
                                != string_key by {
                                assert(before.map.contains_key(before.trie[string]));
                            }
                            assert(self@.trie =~= before.without_unused(seen_next).trie);
                        }
                    } else {
                        // put it back: it has a handle again
                        self.map.insert(string_key, stored);
                        proof {
                            assert(here.map.contains_key(string_key));
                            assert(here.map[string_key] == stored@);
                            assert(self@.map =~= here.map);
                            assert(!before.is_unused(seen_next, string_key));
                            assert(self@.map =~= before.without_unused(seen_next).map);
                            assert(self@.trie =~= before.without_unused(seen_next).trie);
                        }
                    }
                },
                None => {
                    // removed before this pass, or earlier in it
                    proof {
                        assert(self@.map =~= here.map);
                        assert(!here.map.contains_key(string_key));
                        assert(!before.map.contains_key(string_key) || before.is_unused(
                            seen,
                            string_key,
                        ));
                        assert(self@.map =~= before.without_unused(seen_next).map);
                        assert(self@.trie =~= before.without_unused(seen_next).trie);
                    }
                },
            }
            i = i + 1;
        }
        proof {
            assert(listed@.take(i as int) =~= listed@);
            assert(self@ =~= before.drop_unused_strings());
        }
    }

    /// Absorbs `operation` into the first of two replicas. The operation stays
    /// as it is, for the second replica: an inserted string is stored as an
    /// alias of the one that the operation carries.
    pub fn absorb_first(&mut self, operation: &mut StringStorageOp)
        requires
            old(self)@.wf(),
            old(self)@.accepts(old(operation)@),
        ensures
            final(self)@ == old(self)@.absorb(old(operation)@),
            final(self)@.wf(),
            final(operation)@ == old(operation)@,
    {
        proof {
            lemma_absorb_keeps_wf(self@, operation@);
        }
        match &*operation {
            StringStorageOp::Insert { key, string } => {
                self.insert(*key, string.clone_with_aliasing());
            },
            StringStorageOp::Retain { key } => self.retain(*key),
            StringStorageOp::Release { key } => self.release(*key),
            StringStorageOp::DropUnusedStrings => self.drop_unused_strings(),
        }
    }

    /// Absorbs `operation` into the second of two replicas, where the
    /// operation ends: an inserted string is the one that the operation
    /// carries.
    pub fn absorb_second(&mut self, operation: StringStorageOp)
        requires
            old(self)@.wf(),
            old(self)@.accepts(operation@),
        ensures
            final(self)@ == old(self)@.absorb(operation@),
            final(self)@.wf(),
    {
        proof {
            lemma_absorb_keeps_wf(self@, operation@);
        }
        match operation {
            StringStorageOp::Insert { key, string } => {
                self.insert(key, string);
            },
            StringStorageOp::Retain { key } => self.retain(key),
            StringStorageOp::Release { key } => self.release(key),
            StringStorageOp::DropUnusedStrings => self.drop_unused_strings(),
        }
    }

    /// Makes this replica a copy of `first`, with strings of its own.
    pub fn sync_with(&mut self, first: &Self)
        ensures
            final(self)@ == first@,
    {
        self.trie = trie_clone(&first.trie);
        self.map = first.map.clone();
        self.strings_to_possibly_free = first.strings_to_possibly_free.clone();
        assert(self@ =~= first@);
    }

    /// The key under which `string` is stored, if it is.
    pub fn key_of(&self, string: &str) -> (found: Option<IStringKey>)
        ensures
            found == if self@.trie.contains_key(string@) {
                Some(self@.trie[string@])
            } else {
                None
            },
    {
        trie_get(&self.trie, string)
    }

    /// What is stored under `key`, if anything.
    pub fn get(&self, key: IStringKey) -> (found: Option<&StoredString>)
        ensures
            match found {
                Some(stored) => self@.map.contains_key(key) && stored@ == self@.map[key],
                None => !self@.map.contains_key(key),
            },
    {
        self.map.get(&key)
    }

    /// The number of strings that the trie holds.
    pub fn trie_len(&self) -> (len: usize)
        ensures
            len == self@.trie.len(),
    {
        trie_len(&self.trie)
    }

    /// The number of keys that the map holds.
    pub fn map_len(&self) -> (len: usize)
        ensures
            len == self@.map.len(),
    {
        let len = self.map.len();
        assert(self@.map.dom() =~= self.map@.dom());
        len
    }
}

} // verus!
