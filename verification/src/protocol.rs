//! The protocol between the handles and the storage, as a state and its
//! steps: what the making and the dropping of a handle and a publication do,
//! and what stays true through all of them.

use crate::model::lemma_absorb_all_concat;
use crate::model::lemma_absorb_all_keeps_wf;
use crate::model::lemma_absorb_all_one;
use crate::model::lemma_absorb_all_push;
use crate::model::lemma_absorb_all_two;
use crate::model::lemma_absorb_keeps_wf;
use crate::model::lemma_count_ops_keep_settled;
use crate::model::lemma_counts_keep_strings;
use crate::model::lemma_drop_unused_of_settled;
use crate::model::OpView;
use crate::model::StorageView;
use crate::storage::ChannelOp;
use crate::writer::storage_ops;
use crate::IStringKey;
use vstd::prelude::*;

verus! {

/// What the storage holds, and how many handles are out.
#[verifier::ext_equal]
pub struct ConcurrentView {
    /// The store as published last: what readers see.
    pub store: StorageView,
    /// The operations that handles have sent since, oldest first.
    pub channel: Seq<ChannelOp>,
    /// The key that the next new string gets.
    pub next_key: IStringKey,
    /// The number of live handles of each key that has any. Only the making
    /// and the dropping of a handle change it.
    pub handles: Map<IStringKey, nat>,
}

impl ConcurrentView {
    /// The storage that holds nothing and has handed out nothing.
    pub open spec fn new() -> Self {
        ConcurrentView {
            store: StorageView::empty(),
            channel: Seq::empty(),
            next_key: 0,
            handles: Map::empty(),
        }
    }

    /// The number of live handles of `key`.
    pub open spec fn handles_of(self, key: IStringKey) -> nat {
        if self.handles.contains_key(key) {
            self.handles[key]
        } else {
            0
        }
    }

    /// The store as it will be once the writer has absorbed what was sent.
    pub open spec fn drained(self) -> StorageView {
        self.store.absorb_all(storage_ops(self.channel))
    }

    /// The storage is consistent: the store is well-formed and holds only
    /// keys that were handed out, it can absorb what was sent, and after that
    /// the count of every key is the number of its live handles, with every
    /// key that has none listed for removal.
    pub open spec fn wf(self) -> bool {
        &&& self.store.wf()
        &&& self.store.accepts_all(storage_ops(self.channel))
        &&& self.drained().settled()
        &&& forall|key: IStringKey| #[trigger]
            self.store.map.contains_key(key) ==> key < self.next_key
        &&& forall|key: IStringKey|
            #![trigger self.handles_of(key)]
            #![trigger self.drained().count_of(key)]
            self.handles_of(key) == self.drained().count_of(key)
    }

    /// Nothing unused is stored and nothing waits to be absorbed: the store
    /// holds exactly the keys that have a live handle, and the count of each
    /// is the number of its handles.
    pub open spec fn collected(self) -> bool {
        &&& self.channel.len() == 0
        &&& self.store.strings_to_possibly_free.len() == 0
        &&& forall|key: IStringKey|
            #![trigger self.store.map.contains_key(key)]
            #![trigger self.handles_of(key)]
            self.store.map.contains_key(key) <==> self.handles_of(key) >= 1
        &&& forall|key: IStringKey| #[trigger]
            self.store.map.contains_key(key) ==> self.store.map[key].strong_count
                == self.handles_of(key)
    }

    /// The storage after a handle has sent `op`.
    pub open spec fn sent(self, op: ChannelOp) -> Self {
        ConcurrentView { channel: self.channel.push(op), ..self }
    }

    /// The storage after one more handle of `key` was made.
    pub open spec fn retain(self, key: IStringKey) -> Self {
        ConcurrentView {
            handles: self.handles.insert(key, self.handles_of(key) + 1),
            ..self.sent(ChannelOp::Retain { key })
        }
    }

    /// The storage after a handle of `key` was dropped.
    pub open spec fn release(self, key: IStringKey) -> Self {
        ConcurrentView {
            handles: self.handles.insert(key, (self.handles_of(key) - 1) as nat),
            ..self.sent(ChannelOp::Release { key })
        }
    }

    /// The storage after the writer has absorbed what was sent, then `last`,
    /// and has published the result.
    pub open spec fn published(self, last: Seq<OpView>) -> Self {
        ConcurrentView {
            store: self.store.absorb_all(storage_ops(self.channel) + last),
            channel: Seq::empty(),
            ..self
        }
    }

    /// The storage after the new string `string` was stored, with its first
    /// handle: a publication that ends with the insertion under the next key
    /// and the removal of unused strings.
    pub open spec fn insert(self, string: Seq<char>) -> Self {
        ConcurrentView {
            next_key: (self.next_key + 1) as IStringKey,
            handles: self.handles.insert(self.next_key, 1),
            ..self.published(
                seq![OpView::Insert { key: self.next_key, string }, OpView::DropUnusedStrings],
            )
        }
    }

    /// The key of the handle that interning `string` gives: the key under
    /// which readers see the string, or else the next key.
    pub open spec fn key_for(self, string: Seq<char>) -> IStringKey {
        if self.store.trie.contains_key(string) {
            self.store.trie[string]
        } else {
            self.next_key
        }
    }

    /// A handle for `string` can be made: the count of its key, or else the
    /// keys, are not used up.
    pub open spec fn can_intern(self, string: Seq<char>) -> bool {
        if self.store.trie.contains_key(string) {
            self.handles_of(self.store.trie[string]) < isize::MAX
        } else {
            self.next_key < IStringKey::MAX
        }
    }

    /// The storage after a handle for `string` was made: a retain where
    /// readers see the string, an insertion where they do not.
    pub open spec fn insert_or_retain(self, string: Seq<char>) -> Self {
        if self.store.trie.contains_key(string) {
            self.retain(self.store.trie[string])
        } else {
            self.insert(string)
        }
    }

    /// The storage after unused strings were dropped: a publication that ends
    /// with their removal.
    pub open spec fn collect_garbage(self) -> Self {
        self.published(seq![OpView::DropUnusedStrings])
    }
}

/// What the owner of handles can do with a storage.
pub enum Operation {
    /// Make a handle for `string`.
    Intern { string: Seq<char> },
    /// Make one more handle of `key`, from one that is out.
    Clone { key: IStringKey },
    /// Drop a handle of `key`.
    Drop { key: IStringKey },
    /// Drop the strings that no handle uses.
    CollectGarbage,
}

impl ConcurrentView {
    /// The string that `key` stands for.
    pub open spec fn string_of(self, key: IStringKey) -> Seq<char> {
        self.store.map[key].string
    }

    /// `operation` can be done: a handle that is cloned or dropped is out, and
    /// neither the keys nor a count are used up.
    pub open spec fn permits(self, operation: Operation) -> bool {
        match operation {
            Operation::Intern { string } => self.can_intern(string),
            Operation::Clone { key } => 1 <= self.handles_of(key) < isize::MAX,
            Operation::Drop { key } => self.handles_of(key) >= 1,
            Operation::CollectGarbage => true,
        }
    }

    /// The storage after `operation`.
    pub open spec fn apply(self, operation: Operation) -> Self {
        match operation {
            Operation::Intern { string } => self.insert_or_retain(string),
            Operation::Clone { key } => self.retain(key),
            Operation::Drop { key } => self.release(key),
            Operation::CollectGarbage => self.collect_garbage(),
        }
    }

    /// `operations` can be done one after the other.
    pub open spec fn permits_all(self, operations: Seq<Operation>) -> bool
        decreases operations.len(),
    {
        if operations.len() == 0 {
            true
        } else {
            self.permits_all(operations.drop_last()) && self.apply_all(
                operations.drop_last(),
            ).permits(operations.last())
        }
    }

    /// The storage after `operations`, done one after the other.
    pub open spec fn apply_all(self, operations: Seq<Operation>) -> Self
        decreases operations.len(),
    {
        if operations.len() == 0 {
            self
        } else {
            self.apply_all(operations.drop_last()).apply(operations.last())
        }
    }

    /// The storage after a handle for `string` was made and dropped again,
    /// `times` times over.
    pub open spec fn interned_and_dropped(self, string: Seq<char>, times: nat) -> Self
        decreases times,
    {
        if times == 0 {
            self
        } else {
            let before = self.interned_and_dropped(string, (times - 1) as nat);
            before.insert_or_retain(string).release(before.key_for(string))
        }
    }
}

/// What was sent only changes counts.
pub proof fn lemma_storage_ops_are_counts(channel: Seq<ChannelOp>)
    ensures
        forall|i: int| 0 <= i < storage_ops(channel).len() ==> (#[trigger] storage_ops(
            channel,
        )[i]).is_count(),
{
}

/// In a consistent storage, what readers see and what the writer will have
/// once it has absorbed what was sent hold the same strings under the same
/// keys.
pub proof fn lemma_drained_keeps_strings(storage: ConcurrentView)
    requires
        storage.wf(),
    ensures
        storage.drained().wf(),
        storage.drained().trie == storage.store.trie,
        storage.drained().map.dom() == storage.store.map.dom(),
        forall|key: IStringKey| #[trigger]
            storage.store.map.contains_key(key) ==> storage.drained().map[key].string
                == storage.store.map[key].string,
{
    lemma_storage_ops_are_counts(storage.channel);
    lemma_counts_keep_strings(storage.store, storage_ops(storage.channel));
    lemma_absorb_all_keeps_wf(storage.store, storage_ops(storage.channel));
}

/// A key with a live handle is stored.
pub proof fn lemma_handle_is_stored(storage: ConcurrentView, key: IStringKey)
    requires
        storage.wf(),
        storage.handles_of(key) >= 1,
    ensures
        storage.store.map.contains_key(key),
{
    lemma_drained_keeps_strings(storage);
    assert(storage.drained().count_of(key) >= 1);
}

/// The empty storage is consistent.
pub proof fn lemma_new_is_wf()
    ensures
        ConcurrentView::new().wf(),
{
    let storage = ConcurrentView::new();
    assert(storage_ops(storage.channel) =~= Seq::empty());
}

/// One more handle of a stored key, where the count has room for it, keeps
/// the storage consistent.
pub proof fn lemma_retain_keeps_wf(storage: ConcurrentView, key: IStringKey)
    requires
        storage.wf(),
        storage.store.map.contains_key(key),
        storage.handles_of(key) < isize::MAX,
    ensures
        storage.retain(key).wf(),
        storage.retain(key).drained() == storage.drained().retain(key),
{
    let after = storage.retain(key);
    let op = ChannelOp::Retain { key };
    lemma_drained_keeps_strings(storage);
    assert(storage_ops(after.channel) =~= storage_ops(storage.channel).push(op.storage_op()));
    lemma_absorb_all_push(storage.store, storage_ops(storage.channel), op.storage_op());
    assert(storage.drained().count_of(key) == storage.handles_of(key));
    lemma_count_ops_keep_settled(storage.drained(), op.storage_op());
    assert forall|k: IStringKey| after.handles_of(k) == after.drained().count_of(k) by {
        assert(storage.handles_of(k) == storage.drained().count_of(k));
    }
}

/// One handle less of a key that has one keeps the storage consistent.
pub proof fn lemma_release_keeps_wf(storage: ConcurrentView, key: IStringKey)
    requires
        storage.wf(),
        storage.handles_of(key) >= 1,
    ensures
        storage.release(key).wf(),
        storage.release(key).drained() == storage.drained().release(key),
{
    let after = storage.release(key);
    let op = ChannelOp::Release { key };
    lemma_drained_keeps_strings(storage);
    assert(storage_ops(after.channel) =~= storage_ops(storage.channel).push(op.storage_op()));
    lemma_absorb_all_push(storage.store, storage_ops(storage.channel), op.storage_op());
    assert(storage.drained().count_of(key) == storage.handles_of(key));
    lemma_count_ops_keep_settled(storage.drained(), op.storage_op());
    assert forall|k: IStringKey| after.handles_of(k) == after.drained().count_of(k) by {
        assert(storage.handles_of(k) == storage.drained().count_of(k));
    }
}

/// Dropping the unused strings keeps the storage consistent, and leaves in
/// the store exactly the keys that have a live handle, each with its string
/// and with the number of its handles as its count.
pub proof fn lemma_collect_garbage_keeps_wf(storage: ConcurrentView)
    requires
        storage.wf(),
    ensures
        storage.store.accepts_all(storage_ops(storage.channel) + seq![OpView::DropUnusedStrings]),
        storage.collect_garbage().wf(),
        storage.collect_garbage().store == storage.drained().drop_unused_strings(),
        storage.collect_garbage().store.all_used(),
{
    let after = storage.collect_garbage();
    let last = seq![OpView::DropUnusedStrings];
    lemma_drained_keeps_strings(storage);
    lemma_absorb_all_concat(storage.store, storage_ops(storage.channel), last);
    lemma_absorb_all_one(storage.drained(), OpView::DropUnusedStrings);
    lemma_absorb_keeps_wf(storage.drained(), OpView::DropUnusedStrings);
    lemma_drop_unused_of_settled(storage.drained());
    assert(storage_ops(after.channel) =~= Seq::<OpView>::empty());
    assert forall|k: IStringKey| after.handles_of(k) == after.drained().count_of(k) by {
        assert(storage.handles_of(k) == storage.drained().count_of(k));
        assert(storage.drained().drop_unused_strings().count_of(k) == storage.drained().count_of(
            k,
        ));
    }
    assert forall|k: IStringKey| #[trigger] after.store.map.contains_key(k) implies k
        < after.next_key by {
        assert(storage.drained().map.contains_key(k));
        assert(storage.store.map.contains_key(k));
    }
}

/// Storing a string that readers do not see, while keys are left, keeps the
/// storage consistent.
pub proof fn lemma_insert_keeps_wf(storage: ConcurrentView, string: Seq<char>)
    requires
        storage.wf(),
        !storage.store.trie.contains_key(string),
        storage.next_key < IStringKey::MAX,
    ensures
        storage.store.accepts_all(
            storage_ops(storage.channel) + seq![
                OpView::Insert { key: storage.next_key, string },
                OpView::DropUnusedStrings,
            ],
        ),
        storage.insert(string).wf(),
        storage.insert(string).store == storage.drained().insert(
            storage.next_key,
            string,
        ).drop_unused_strings(),
        storage.insert(string).store.all_used(),
{
    let after = storage.insert(string);
    let key = storage.next_key;
    let insert = OpView::Insert { key, string };
    let last = seq![insert, OpView::DropUnusedStrings];
    let drained = storage.drained();
    let inserted = drained.insert(key, string);
    lemma_drained_keeps_strings(storage);
    lemma_absorb_all_concat(storage.store, storage_ops(storage.channel), last);
    lemma_absorb_all_two(drained, insert, OpView::DropUnusedStrings);
    assert(!drained.map.contains_key(key)) by {
        if storage.store.map.contains_key(key) {
            assert(key < storage.next_key);
        }
    }
    assert(drained.accepts(insert));
    lemma_absorb_keeps_wf(drained, insert);
    lemma_count_ops_keep_settled(drained, insert);
    lemma_absorb_keeps_wf(inserted, OpView::DropUnusedStrings);
    lemma_drop_unused_of_settled(inserted);
    assert(storage_ops(after.channel) =~= Seq::<OpView>::empty());
    assert forall|k: IStringKey| after.handles_of(k) == after.drained().count_of(k) by {
        assert(storage.handles_of(k) == drained.count_of(k));
        assert(inserted.drop_unused_strings().count_of(k) == inserted.count_of(k));
    }
    assert forall|k: IStringKey| #[trigger] after.store.map.contains_key(k) implies k
        < after.next_key by {
        assert(inserted.map.contains_key(k));
        if k != key {
            assert(storage.store.map.contains_key(k));
        }
    }
}

} // verus!
