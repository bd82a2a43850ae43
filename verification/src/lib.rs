//! Interned strings: a deduplicating, reference-counted string store and the
//! cheap handles that stand for its entries.
//!
//! Two handles of one storage are equal exactly when their strings are, and
//! reading a string through its handle is one lookup. The storage drops a
//! string some time after its last handle is gone.
//!
//! The parts, leaves first:
//! - [`boxed`] and [`stored`]: a string on the heap, and a string with the
//!   count of its handles;
//! - [`trie`]: the interface to the radix trie that finds the key of a string;
//! - [`storage`]: one replica of the store, and how it absorbs an operation;
//! - [`writer`]: the single writer, which hands out keys and gathers the
//!   operations of a publication;
//! - [`concurrent`]: the storage that handles are made from and given back to;
//! - [`model`] and [`protocol`]: what these hold and do, as mathematics;
//! - [`laws`]: what is true of every storage.
//!
//! A storage has one owner. To share one between threads, give every reader a
//! replica of the store and let the handles send their retains and releases
//! to the writer: a replica absorbs the writer's log with
//! [`storage::InnerStringStorage::absorb_first`] and
//! [`storage::InnerStringStorage::absorb_second`].

pub mod boxed;
pub mod concurrent;
pub mod laws;
pub mod model;
pub mod protocol;
pub mod storage;
pub mod stored;
pub mod trie;
pub mod writer;

use crate::concurrent::ConcurrentStringStorage;
use crate::protocol::lemma_handle_is_stored;
use vstd::prelude::*;
use vstd::string::StringExecFns;

verus! {

/// The opaque identifier of an interned string.
pub type IStringKey = u32;

/// An immutable and interned string: a handle to an entry of a storage.
///
/// A handle is made by interning a string, or from another handle with
/// [`IString::clone`], and it is given back with [`IString::drop`]. While a
/// handle is out, its string stays in the storage.
#[derive(PartialEq, Eq, Hash)]
pub struct IString {
    key: IStringKey,
}

impl View for IString {
    type V = IStringKey;

    closed spec fn view(&self) -> IStringKey {
        self.key
    }
}

impl IString {
    /// The key of the entry that this handle stands for.
    pub fn key(&self) -> (key: IStringKey)
        ensures
            key == self@,
    {
        self.key
    }

    /// Interns the given `String` by consuming it. Its allocation is reused
    /// where the string is new to the storage.
    pub fn from(string: String, storage: &mut ConcurrentStringStorage) -> (istring: Self)
        requires
            old(storage).wf(),
            old(storage)@.can_intern(string@),
        ensures
            final(storage).wf(),
            istring@ == old(storage)@.key_for(string@),
            final(storage)@ == old(storage)@.insert_or_retain(string@),
            final(storage)@.handles_of(istring@) == old(storage)@.handles_of(istring@) + 1,
            final(storage)@.store.map.contains_key(istring@),
            final(storage)@.string_of(istring@) == string@,
    {
        IString { key: storage.insert_or_retain(string) }
    }

    /// Interns the given `&str` by copying its contents.
    pub fn from_str(string: &str, storage: &mut ConcurrentStringStorage) -> (istring: Self)
        requires
            old(storage).wf(),
            old(storage)@.can_intern(string@),
        ensures
            final(storage).wf(),
            istring@ == old(storage)@.key_for(string@),
            final(storage)@ == old(storage)@.insert_or_retain(string@),
            final(storage)@.handles_of(istring@) == old(storage)@.handles_of(istring@) + 1,
            final(storage)@.store.map.contains_key(istring@),
            final(storage)@.string_of(istring@) == string@,
    {
        IString { key: storage.insert_or_retain(String::from_str(string)) }
    }

    /// Interns the empty string.
    pub fn default(storage: &mut ConcurrentStringStorage) -> (istring: Self)
        requires
            old(storage).wf(),
            old(storage)@.can_intern(Seq::empty()),
        ensures
            final(storage).wf(),
            istring@ == old(storage)@.key_for(Seq::empty()),
            final(storage)@ == old(storage)@.insert_or_retain(Seq::empty()),
            final(storage)@.handles_of(istring@) == old(storage)@.handles_of(istring@) + 1,
            final(storage)@.store.map.contains_key(istring@),
            final(storage)@.string_of(istring@) == Seq::<char>::empty(),
    {
        IString::from(String::new(), storage)
    }

    /// Another handle to the same string.
    pub fn clone(&self, storage: &mut ConcurrentStringStorage) -> (istring: Self)
        requires
            old(storage).wf(),
            1 <= old(storage)@.handles_of(self@) < isize::MAX,
        ensures
            final(storage).wf(),
            istring@ == self@,
            final(storage)@ == old(storage)@.retain(self@),
    {
        proof {
            lemma_handle_is_stored(storage@, self@);
        }
        storage.retain(self.key);
        IString { key: self.key }
    }

    /// Gives the handle back.
    pub fn drop(self, storage: &mut ConcurrentStringStorage)
        requires
            old(storage).wf(),
            old(storage)@.handles_of(self@) >= 1,
        ensures
            final(storage).wf(),
            final(storage)@ == old(storage)@.release(self@),
    {
        storage.release(self.key);
    }

    /// The string's contents.
    pub fn deref<'a>(&self, storage: &'a ConcurrentStringStorage) -> (string: &'a str)
        requires
            storage.wf(),
            storage@.handles_of(self@) >= 1,
        ensures
            string@ == storage@.string_of(self@),
    {
        proof {
            lemma_handle_is_stored(storage@, self@);
        }
        storage.read(self.key)
    }

    /// Immediately frees all the interned strings that are no longer used.
    ///
    /// Using this function is optional: every interning of a new string frees
    /// them as well.
    pub fn collect_garbage_now(storage: &mut ConcurrentStringStorage)
        requires
            old(storage).wf(),
        ensures
            final(storage).wf(),
            final(storage)@ == old(storage)@.collect_garbage(),
            final(storage)@.collected(),
    {
        storage.collect_garbage();
    }
}

/// Strings that can be interned.
pub trait Intern: Sized {
    /// The characters of the string.
    spec fn contents(&self) -> Seq<char>;

    /// Interns the string in `storage` and returns its handle.
    fn intern(self, storage: &mut ConcurrentStringStorage) -> (istring: IString)
        requires
            old(storage).wf(),
            old(storage)@.can_intern(self.contents()),
        ensures
            final(storage).wf(),
            istring@ == old(storage)@.key_for(self.contents()),
            final(storage)@ == old(storage)@.insert_or_retain(self.contents()),
            final(storage)@.handles_of(istring@) == old(storage)@.handles_of(istring@) + 1,
            final(storage)@.store.map.contains_key(istring@),
            final(storage)@.string_of(istring@) == self.contents(),
    ;
}

impl Intern for String {
    open spec fn contents(&self) -> Seq<char> {
        self@
    }

    /// Interns the given `String` by consuming it.
    fn intern(self, storage: &mut ConcurrentStringStorage) -> (istring: IString) {
        IString::from(self, storage)
    }
}

impl Intern for &str {
    open spec fn contents(&self) -> Seq<char> {
        self@
    }

    /// Interns the given `&str` by copying its contents.
    fn intern(self, storage: &mut ConcurrentStringStorage) -> (istring: IString) {
        IString::from_str(self, storage)
    }
}

} // verus!
