//! The interface to the radix trie that indexes the stored strings.
//!
//! Nothing in this file is proved. Every contract states what the `radix_trie`
//! crate does to the set of entries that a trie holds: a trie keyed by
//! `String` behaves as a finite map from strings to values, because the bytes
//! of a string determine it.

use radix_trie::Trie;
use radix_trie::TrieCommon;
use vstd::prelude::*;

verus! {

/// `radix_trie::Trie`, of which nothing is known here but what the functions
/// of this file state.
#[verifier::external_type_specification]
#[verifier::external_body]
#[verifier::reject_recursive_types(K)]
#[verifier::reject_recursive_types(V)]
pub struct ExTrie<K, V>(Trie<K, V>);

/// The entries of a trie: each string that it holds, with the value stored
/// under it. There are finitely many.
pub uninterp spec fn trie_entries(trie: Trie<String, u32>) -> Map<Seq<char>, u32>;

/// `Trie::new`: a trie without entries.
#[verifier::external_body]
pub(crate) fn trie_new() -> (empty: Trie<String, u32>)
    ensures
        trie_entries(empty) == (Map::<Seq<char>, u32>::empty()),
{
    Trie::new()
}

/// `TrieCommon::len`: the number of entries.
#[verifier::external_body]
pub(crate) fn trie_len(trie: &Trie<String, u32>) -> (len: usize)
    ensures
        len == trie_entries(*trie).len(),
{
    trie.len()
}

/// `Trie::get`: the value stored under `string`, if there is one.
#[verifier::external_body]
pub(crate) fn trie_get(trie: &Trie<String, u32>, string: &str) -> (found: Option<u32>)
    ensures
        found == if trie_entries(*trie).contains_key(string@) {
            Some(trie_entries(*trie)[string@])
        } else {
            None
        },
{
    trie.get(string).copied()
}

/// `Trie::insert`: stores `value` under `string` and returns the value that
/// was stored there before, if there was one.
#[verifier::external_body]
pub(crate) fn trie_insert(trie: &mut Trie<String, u32>, string: String, value: u32) -> (previous:
    Option<u32>)
    ensures
        trie_entries(*final(trie)) == trie_entries(*old(trie)).insert(string@, value),
        previous == if trie_entries(*old(trie)).contains_key(string@) {
            Some(trie_entries(*old(trie))[string@])
        } else {
            None
        },
{
    trie.insert(string, value)
}

/// `Trie::remove`: removes the entry of `string` and returns its value, if
/// there was one.
#[verifier::external_body]
pub(crate) fn trie_remove(trie: &mut Trie<String, u32>, string: &str) -> (removed: Option<u32>)
    ensures
        trie_entries(*final(trie)) == trie_entries(*old(trie)).remove(string@),
        removed == if trie_entries(*old(trie)).contains_key(string@) {
            Some(trie_entries(*old(trie))[string@])
        } else {
            None
        },
{
    trie.remove(string)
}

/// `Trie::clone`: a trie with the same entries.
#[verifier::external_body]
pub(crate) fn trie_clone(trie: &Trie<String, u32>) -> (copy: Trie<String, u32>)
    ensures
        trie_entries(copy) == trie_entries(*trie),
{
    trie.clone()
}

} // verus!
