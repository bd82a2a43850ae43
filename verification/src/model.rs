//! The mathematical model of a store: what a replica holds, and what each
//! operation does to it.

use crate::IStringKey;
use vstd::prelude::*;

verus! {

/// What the store keeps for one key.
pub struct StoredView {
    /// The interned string.
    pub string: Seq<char>,
    /// The number of handles that the absorbed operations account for. It is
    /// signed: a release can be absorbed before the retain that it answers.
    pub strong_count: int,
}

/// An operation on a store.
pub enum OpView {
    /// Store `string` under `key`, with one handle.
    Insert { key: IStringKey, string: Seq<char> },
    /// Count one more handle for `key`.
    Retain { key: IStringKey },
    /// Count one handle less for `key`.
    Release { key: IStringKey },
    /// Remove the strings that are listed for removal and have no handle.
    DropUnusedStrings,
}

/// What a store holds.
#[verifier::ext_equal]
pub struct StorageView {
    /// The key of each stored string.
    pub trie: Map<Seq<char>, IStringKey>,
    /// The string and the handle count of each key.
    pub map: Map<IStringKey, StoredView>,
    /// The keys whose count has reached zero since the last removal.
    pub strings_to_possibly_free: Seq<IStringKey>,
}

impl StorageView {
    /// The store that holds nothing.
    pub open spec fn empty() -> Self {
        StorageView { trie: Map::empty(), map: Map::empty(), strings_to_possibly_free: Seq::empty() }
    }

    /// `trie` and `map` are finite and describe the same pairs of a string and
    /// its key.
    pub open spec fn wf(self) -> bool {
        &&& self.trie.dom().finite()
        &&& self.map.dom().finite()
        &&& forall|string: Seq<char>| #[trigger]
            self.trie.contains_key(string) ==> self.map.contains_key(self.trie[string])
                && self.map[self.trie[string]].string == string
        &&& forall|key: IStringKey| #[trigger]
            self.map.contains_key(key) ==> self.trie.contains_key(self.map[key].string)
                && self.trie[self.map[key].string] == key
    }

    /// The store after `string` has been stored under `key`.
    pub open spec fn insert(self, key: IStringKey, string: Seq<char>) -> Self {
        StorageView {
            trie: self.trie.insert(string, key),
            map: self.map.insert(key, StoredView { string, strong_count: 1 }),
            ..self
        }
    }

    /// The store after the count of `key` has changed by `by`.
    pub open spec fn count(self, key: IStringKey, by: int) -> Self {
        StorageView {
            map: self.map.insert(
                key,
                StoredView { strong_count: self.map[key].strong_count + by, ..self.map[key] },
            ),
            ..self
        }
    }

    /// The store after one more handle has been counted for `key`.
    pub open spec fn retain(self, key: IStringKey) -> Self {
        self.count(key, 1)
    }

    /// The store after one handle less has been counted for `key`: a key whose
    /// count reaches zero is listed for removal.
    pub open spec fn release(self, key: IStringKey) -> Self {
        let counted = self.count(key, -1);
        if counted.map[key].strong_count == 0 {
            StorageView {
                strings_to_possibly_free: self.strings_to_possibly_free.push(key),
                ..counted
            }
        } else {
            counted
        }
    }

    /// `key` is among `listed`, is stored, and no handle is counted for it.
    pub open spec fn is_unused(self, listed: Seq<IStringKey>, key: IStringKey) -> bool {
        listed.contains(key) && self.map.contains_key(key) && self.map[key].strong_count == 0
    }

    /// The store without the keys among `listed` for which no handle is
    /// counted, and without their strings. A listed key that is no longer
    /// stored, or that has a handle again, changes nothing.
    pub open spec fn without_unused(self, listed: Seq<IStringKey>) -> Self {
        StorageView {
            trie: Map::new(
                |string: Seq<char>|
                    self.trie.contains_key(string) && !self.is_unused(listed, self.trie[string]),
                |string: Seq<char>| self.trie[string],
            ),
            map: Map::new(
                |key: IStringKey| self.map.contains_key(key) && !self.is_unused(listed, key),
                |key: IStringKey| self.map[key],
            ),
            ..self
        }
    }

    /// The store after the removal of what is unused: every key listed for
    /// removal is looked at once more, and the list is emptied.
    pub open spec fn drop_unused_strings(self) -> Self {
        StorageView {
            strings_to_possibly_free: Seq::empty(),
            ..self.without_unused(self.strings_to_possibly_free)
        }
    }

    /// The store can absorb `op`: an inserted string and its key are new, a
    /// counted key is stored, and its count stays within `isize`.
    pub open spec fn accepts(self, op: OpView) -> bool {
        match op {
            OpView::Insert { key, string } => !self.trie.contains_key(string)
                && !self.map.contains_key(key),
            OpView::Retain { key } => self.map.contains_key(key) && self.map[key].strong_count
                < isize::MAX,
            OpView::Release { key } => self.map.contains_key(key) && self.map[key].strong_count
                > isize::MIN,
            OpView::DropUnusedStrings => true,
        }
    }

    /// The store after it has absorbed `op`.
    pub open spec fn absorb(self, op: OpView) -> Self {
        match op {
            OpView::Insert { key, string } => self.insert(key, string),
            OpView::Retain { key } => self.retain(key),
            OpView::Release { key } => self.release(key),
            OpView::DropUnusedStrings => self.drop_unused_strings(),
        }
    }

    /// The store can absorb `ops` one after the other.
    pub open spec fn accepts_all(self, ops: Seq<OpView>) -> bool
        decreases ops.len(),
    {
        if ops.len() == 0 {
            true
        } else {
            self.accepts_all(ops.drop_last()) && self.absorb_all(ops.drop_last()).accepts(
                ops.last(),
            )
        }
    }

    /// The store after it has absorbed `ops` one after the other.
    pub open spec fn absorb_all(self, ops: Seq<OpView>) -> Self
        decreases ops.len(),
    {
        if ops.len() == 0 {
            self
        } else {
            self.absorb_all(ops.drop_last()).absorb(ops.last())
        }
    }

    /// No count is negative, and every key whose count is zero is listed for
    /// removal: the next removal leaves exactly the keys that have a handle.
    pub open spec fn settled(self) -> bool {
        forall|key: IStringKey| #[trigger]
            self.map.contains_key(key) ==> self.map[key].strong_count >= 0 && (
            self.map[key].strong_count == 0 ==> self.strings_to_possibly_free.contains(key))
    }
}

/// An operation that it can absorb leaves a well-formed store well-formed.
pub proof fn lemma_absorb_keeps_wf(store: StorageView, op: OpView)
    requires
        store.wf(),
        store.accepts(op),
    ensures
        store.absorb(op).wf(),
{
    let after = store.absorb(op);
    match op {
        OpView::Insert { key, string } => {
            assert forall|s: Seq<char>| #[trigger] after.trie.contains_key(s) implies after.map.contains_key(
                after.trie[s],
            ) && after.map[after.trie[s]].string == s by {
                if s != string {
                    assert(store.trie.contains_key(s));
                }
            }
            assert forall|k: IStringKey| #[trigger] after.map.contains_key(k) implies after.trie.contains_key(
                after.map[k].string,
            ) && after.trie[after.map[k].string] == k by {
                if k != key {
                    assert(store.map.contains_key(k));
                }
            }
        },
        OpView::Retain { key } => {
            lemma_count_keeps_wf(store, key, 1);
        },
        OpView::Release { key } => {
            lemma_count_keeps_wf(store, key, -1);
        },
        OpView::DropUnusedStrings => {
            lemma_without_unused_keeps_wf(store, store.strings_to_possibly_free);
        },
    }
}

/// A change of a count leaves a well-formed store well-formed.
pub proof fn lemma_count_keeps_wf(store: StorageView, key: IStringKey, by: int)
    requires
        store.wf(),
        store.map.contains_key(key),
    ensures
        store.count(key, by).wf(),
        store.count(key, by).trie == store.trie,
        store.count(key, by).map.dom() == store.map.dom(),
{
    let after = store.count(key, by);
    assert(after.map.dom() =~= store.map.dom());
    assert forall|s: Seq<char>| #[trigger] after.trie.contains_key(s) implies after.map.contains_key(
        after.trie[s],
    ) && after.map[after.trie[s]].string == s by {
        assert(store.trie.contains_key(s));
    }
    assert forall|k: IStringKey| #[trigger] after.map.contains_key(k) implies after.trie.contains_key(
        after.map[k].string,
    ) && after.trie[after.map[k].string] == k by {
        assert(store.map.contains_key(k));
    }
}

/// The removal of unused keys leaves a well-formed store well-formed.
pub proof fn lemma_without_unused_keeps_wf(store: StorageView, listed: Seq<IStringKey>)
    requires
        store.wf(),
    ensures
        store.without_unused(listed).wf(),
{
    let after = store.without_unused(listed);
    assert(after.trie.dom().subset_of(store.trie.dom()));
    assert(after.map.dom().subset_of(store.map.dom()));
    vstd::set_lib::lemma_len_subset(after.trie.dom(), store.trie.dom());
    vstd::set_lib::lemma_len_subset(after.map.dom(), store.map.dom());
    assert forall|s: Seq<char>| #[trigger] after.trie.contains_key(s) implies after.map.contains_key(
        after.trie[s],
    ) && after.map[after.trie[s]].string == s by {
        assert(store.trie.contains_key(s));
    }
    assert forall|k: IStringKey| #[trigger] after.map.contains_key(k) implies after.trie.contains_key(
        after.map[k].string,
    ) && after.trie[after.map[k].string] == k by {
        assert(store.map.contains_key(k));
    }
}

impl StorageView {
    /// The count of `key`: zero for a key that is not stored.
    pub open spec fn count_of(self, key: IStringKey) -> int {
        if self.map.contains_key(key) {
            self.map[key].strong_count
        } else {
            0
        }
    }

    /// Every stored key has at least one handle, and none is listed for
    /// removal: the state right after unused strings were dropped.
    pub open spec fn all_used(self) -> bool {
        &&& self.strings_to_possibly_free.len() == 0
        &&& forall|key: IStringKey| #[trigger]
            self.map.contains_key(key) ==> self.map[key].strong_count >= 1
    }
}

impl OpView {
    /// The operation only changes a count.
    pub open spec fn is_count(self) -> bool {
        self is Retain || self is Release
    }
}

/// Absorbing `ops` and then `op` is absorbing `ops.push(op)`.
pub proof fn lemma_absorb_all_push(store: StorageView, ops: Seq<OpView>, op: OpView)
    ensures
        store.absorb_all(ops.push(op)) == store.absorb_all(ops).absorb(op),
        store.accepts_all(ops.push(op)) == (store.accepts_all(ops) && store.absorb_all(
            ops,
        ).accepts(op)),
{
    assert(ops.push(op).drop_last() =~= ops);
}

/// Absorbing the one operation `op` is absorbing `seq![op]`.
pub proof fn lemma_absorb_all_one(store: StorageView, op: OpView)
    ensures
        store.absorb_all(seq![op]) == store.absorb(op),
        store.accepts_all(seq![op]) == store.accepts(op),
{
    assert(seq![op] =~= Seq::<OpView>::empty().push(op));
    lemma_absorb_all_push(store, Seq::empty(), op);
}

/// Absorbing `first` and then `second` is absorbing `seq![first, second]`.
pub proof fn lemma_absorb_all_two(store: StorageView, first: OpView, second: OpView)
    ensures
        store.absorb_all(seq![first, second]) == store.absorb(first).absorb(second),
        store.accepts_all(seq![first, second]) == (store.accepts(first) && store.absorb(
            first,
        ).accepts(second)),
{
    assert(seq![first, second] =~= seq![first].push(second));
    lemma_absorb_all_one(store, first);
    lemma_absorb_all_push(store, seq![first], second);
}

/// Absorbing `first` and then `second` is absorbing `first + second`.
pub proof fn lemma_absorb_all_concat(store: StorageView, first: Seq<OpView>, second: Seq<OpView>)
    ensures
        store.absorb_all(first + second) == store.absorb_all(first).absorb_all(second),
        store.accepts_all(first + second) == (store.accepts_all(first) && store.absorb_all(
            first,
        ).accepts_all(second)),
    decreases second.len(),
{
    if second.len() == 0 {
        assert(first + second =~= first);
    } else {
        lemma_absorb_all_concat(store, first, second.drop_last());
        assert((first + second).drop_last() =~= first + second.drop_last());
    }
}

/// A store that can absorb `ops` can absorb each of their beginnings.
pub proof fn lemma_accepts_prefix(store: StorageView, ops: Seq<OpView>, n: int)
    requires
        store.accepts_all(ops),
        0 <= n <= ops.len(),
    ensures
        store.accepts_all(ops.take(n)),
    decreases ops.len(),
{
    if n < ops.len() {
        lemma_accepts_prefix(store, ops.drop_last(), n);
        assert(ops.drop_last().take(n) =~= ops.take(n));
    } else {
        assert(ops.take(n) =~= ops);
    }
}

/// Operations that it can absorb leave a well-formed store well-formed.
pub proof fn lemma_absorb_all_keeps_wf(store: StorageView, ops: Seq<OpView>)
    requires
        store.wf(),
        store.accepts_all(ops),
    ensures
        store.absorb_all(ops).wf(),
    decreases ops.len(),
{
    if ops.len() > 0 {
        lemma_absorb_all_keeps_wf(store, ops.drop_last());
        lemma_absorb_keeps_wf(store.absorb_all(ops.drop_last()), ops.last());
    }
}

/// Operations that only change counts leave the trie, the stored keys and
/// their strings as they are.
pub proof fn lemma_counts_keep_strings(store: StorageView, ops: Seq<OpView>)
    requires
        store.accepts_all(ops),
        forall|i: int| 0 <= i < ops.len() ==> (#[trigger] ops[i]).is_count(),
    ensures
        store.absorb_all(ops).trie == store.trie,
        store.absorb_all(ops).map.dom() == store.map.dom(),
        forall|key: IStringKey| #[trigger]
            store.map.contains_key(key) ==> store.absorb_all(ops).map[key].string
                == store.map[key].string,
    decreases ops.len(),
{
    if ops.len() > 0 {
        let before = store.absorb_all(ops.drop_last());
        lemma_counts_keep_strings(store, ops.drop_last());
        assert(ops.last() == ops[ops.len() - 1]);
        assert(ops.last().is_count());
        assert(before.absorb(ops.last()).map.dom() =~= before.map.dom());
    }
}

/// The removal of unused strings from a settled store leaves exactly the keys
/// that have a handle, each with its string and count, and lists none.
pub proof fn lemma_drop_unused_of_settled(store: StorageView)
    requires
        store.settled(),
    ensures
        store.drop_unused_strings().all_used(),
        store.drop_unused_strings().settled(),
        forall|key: IStringKey|
            #![trigger store.drop_unused_strings().map.contains_key(key)]
            store.drop_unused_strings().map.contains_key(key) <==> store.count_of(key) > 0,
        forall|key: IStringKey| #[trigger]
            store.drop_unused_strings().map.contains_key(key)
                ==> store.drop_unused_strings().map[key] == store.map[key],
        forall|key: IStringKey|
            #![trigger store.drop_unused_strings().count_of(key)]
            store.drop_unused_strings().count_of(key) == store.count_of(key),
{
    let after = store.drop_unused_strings();
    assert forall|key: IStringKey| #[trigger] after.map.contains_key(key) implies after.map[key].strong_count
        >= 1 by {
        assert(store.map.contains_key(key));
    }
    assert forall|key: IStringKey| after.map.contains_key(key) <==> store.count_of(key) > 0 by {
        if store.map.contains_key(key) {
            assert(store.map[key].strong_count >= 0);
        }
    }
}

/// A change of a count by one that leaves it at zero or more, with the key
/// listed when it is zero, keeps a settled store settled.
pub proof fn lemma_count_ops_keep_settled(store: StorageView, op: OpView)
    requires
        store.settled(),
        store.accepts(op),
        op is Retain || (op matches OpView::Release { key } && store.map[key].strong_count >= 1)
            || op is Insert,
    ensures
        store.absorb(op).settled(),
{
    let after = store.absorb(op);
    assert forall|key: IStringKey| #[trigger] after.map.contains_key(key) implies after.map[key].strong_count
        >= 0 && (after.map[key].strong_count == 0 ==> after.strings_to_possibly_free.contains(
        key,
    )) by {
        match op {
            OpView::Insert { key: inserted, string } => {
                if key != inserted {
                    assert(store.map.contains_key(key));
                }
            },
            OpView::Retain { key: counted } => {
                assert(store.map.contains_key(key));
            },
            OpView::Release { key: counted } => {
                assert(store.map.contains_key(key));
                if after.map[key].strong_count == 0 {
                    if key == counted {
                        let listed = store.strings_to_possibly_free.push(counted);
                        assert(listed[listed.len() - 1] == counted);
                    } else {
                        let i = choose|i: int|
                            0 <= i < store.strings_to_possibly_free.len()
                                && store.strings_to_possibly_free[i] == key;
                        assert(after.strings_to_possibly_free[i] == key);
                    }
                }
            },
            OpView::DropUnusedStrings => {},
        }
    }
}

} // verus!
