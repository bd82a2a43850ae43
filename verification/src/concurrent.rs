//! The storage behind the handles: the store that readers see, the writer, and
//! the operations that handles have sent and the writer has not yet absorbed.

use crate::boxed::BoxedStr;
use crate::laws::law_collect_garbage_collects;
use crate::laws::law_handle_reads_what_was_interned;
use crate::model::lemma_accepts_prefix;
use crate::model::OpView;
use crate::protocol::lemma_collect_garbage_keeps_wf;
use crate::protocol::lemma_insert_keeps_wf;
use crate::protocol::lemma_new_is_wf;
use crate::protocol::lemma_release_keeps_wf;
use crate::protocol::lemma_retain_keeps_wf;
use crate::protocol::ConcurrentView;
use crate::storage::ChannelOp;
use crate::storage::InnerStringStorage;
use crate::storage::StringStorageOp;
use crate::writer::op_views;
use crate::writer::storage_ops;
use crate::writer::UniqueWriter;
use crate::IStringKey;
use vstd::prelude::*;

verus! {

/// The storage behind the handles. One owner drives it: it interns strings,
/// takes the retains and releases of the handles, and publishes. Readers see
/// the store as it was published last; what handles send waits in the channel
/// until the writer publishes next.
pub struct ConcurrentStringStorage {
    writer: UniqueWriter,
    store: InnerStringStorage,
    channel: Vec<ChannelOp>,
    handles: Ghost<Map<IStringKey, nat>>,
}

impl View for ConcurrentStringStorage {
    type V = ConcurrentView;

    closed spec fn view(&self) -> ConcurrentView {
        ConcurrentView {
            store: self.store@,
            channel: self.channel@,
            next_key: self.writer@.next_key,
            handles: self.handles@,
        }
    }
}

impl ConcurrentStringStorage {
    /// The writer has nothing logged that it has not published.
    pub closed spec fn log_is_empty(&self) -> bool {
        self.writer@.oplog.len() == 0
    }

    /// The storage is consistent, and nothing waits in the writer's log.
    pub open spec fn wf(&self) -> bool {
        self@.wf() && self.log_is_empty()
    }

    /// A storage that holds nothing.
    pub fn new() -> (storage: Self)
        ensures
            storage.wf(),
            storage@ == ConcurrentView::new(),
    {
        let storage = ConcurrentStringStorage {
            writer: UniqueWriter::new(),
            store: InnerStringStorage::default(),
            channel: Vec::new(),
            handles: Ghost(Map::empty()),
        };
        proof {
            lemma_new_is_wf();
            assert(storage@ =~= ConcurrentView::new());
        }
        storage
    }

    /// Makes a handle's key for `string`. Where readers see the string, its
    /// key is retained and nothing is published; where they do not, the string
    /// is stored under the next key.
    pub fn insert_or_retain(&mut self, string: String) -> (key: IStringKey)
        requires
            old(self).wf(),
            old(self)@.can_intern(string@),
        ensures
            final(self).wf(),
            key == old(self)@.key_for(string@),
            final(self)@ == old(self)@.insert_or_retain(string@),
            final(self)@.handles_of(key) == old(self)@.handles_of(key) + 1,
            final(self)@.store.map.contains_key(key),
            final(self)@.string_of(key) == string@,
    {
        proof {
            law_handle_reads_what_was_interned(self@, string@);
        }
        let boxed = BoxedStr::from(string);
        let found_key = self.store.key_of(boxed.get());
        if let Some(key) = found_key {
            // string is already in storage
            self.retain(key);
            key
        } else {
            // string is not in storage yet
            self.insert(boxed)
        }
    }

    /// Stores the new string `string` and publishes.
    fn insert(&mut self, string: BoxedStr) -> (key: IStringKey)
        requires
            old(self).wf(),
            !old(self)@.store.trie.contains_key(string@),
            old(self)@.next_key < IStringKey::MAX,
        ensures
            final(self).wf(),
            key == old(self)@.next_key,
            final(self)@ == old(self)@.insert(string@),
    {
        let ghost before = self@;
        let mut received: Vec<ChannelOp> = Vec::new();
        std::mem::swap(&mut received, &mut self.channel);
        let key = self.writer.do_pending_ops_and_insert(received, string);
        proof {
            lemma_insert_keeps_wf(before, string@);
            assert(self.writer@.oplog =~= storage_ops(before.channel) + seq![
                OpView::Insert { key, string: string@ },
                OpView::DropUnusedStrings,
            ]);
        }
        self.publish();
        proof {
            self.handles@ = before.handles.insert(key, 1);
            assert(self@ =~= before.insert(string@));
        }
        key
    }

    /// Makes what the writer has logged visible to the readers.
    fn publish(&mut self)
        requires
            old(self).store@.wf(),
            old(self).store@.accepts_all(old(self).writer@.oplog),
        ensures
            final(self).log_is_empty(),
            final(self).store@ == old(self).store@.absorb_all(old(self).writer@.oplog),
            final(self).writer@.next_key == old(self).writer@.next_key,
            final(self).channel == old(self).channel,
            final(self).handles == old(self).handles,
    {
        let oplog = self.writer.take_oplog();
        absorb_all(&mut self.store, oplog);
    }

    /// Counts, at the next publication, one more handle for `key`.
    pub fn retain(&mut self, key: IStringKey)
        requires
            old(self).wf(),
            old(self)@.store.map.contains_key(key),
            old(self)@.handles_of(key) < isize::MAX,
        ensures
            final(self).wf(),
            final(self)@ == old(self)@.retain(key),
    {
        proof {
            lemma_retain_keeps_wf(self@, key);
        }
        self.channel.push(ChannelOp::Retain { key });
        proof {
            self.handles@ = self.handles@.insert(key, old(self)@.handles_of(key) + 1);
            assert(self@ =~= old(self)@.retain(key));
        }
    }

    /// Counts, at the next publication, one handle less for `key`.
    pub fn release(&mut self, key: IStringKey)
        requires
            old(self).wf(),
            old(self)@.handles_of(key) >= 1,
        ensures
            final(self).wf(),
            final(self)@ == old(self)@.release(key),
    {
        proof {
            lemma_release_keeps_wf(self@, key);
        }
        self.channel.push(ChannelOp::Release { key });
        proof {
            self.handles@ = self.handles@.insert(key, (old(self)@.handles_of(key) - 1) as nat);
            assert(self@ =~= old(self)@.release(key));
        }
    }

    /// The string that readers see under `key`.
    pub fn read(&self, key: IStringKey) -> (string: &str)
        requires
            self@.store.map.contains_key(key),
        ensures
            string@ == self@.store.map[key].string,
    {
        let stored_string = self.store.get(key).unwrap();
        stored_string.inner().get()
    }

    /// Drops the strings that no handle uses, and publishes.
    pub fn collect_garbage(&mut self)
        requires
            old(self).wf(),
        ensures
            final(self).wf(),
            final(self)@ == old(self)@.collect_garbage(),
            final(self)@.collected(),
    {
        let ghost before = self@;
        let mut received: Vec<ChannelOp> = Vec::new();
        std::mem::swap(&mut received, &mut self.channel);
        self.writer.collect_garbage(received);
        proof {
            lemma_collect_garbage_keeps_wf(before);
            assert(self.writer@.oplog =~= storage_ops(before.channel) + seq![
                OpView::DropUnusedStrings,
            ]);
        }
        self.publish();
        proof {
            assert(self@ =~= before.collect_garbage());
            law_collect_garbage_collects(before);
        }
    }

    /// The store that readers see.
    pub fn store(&self) -> (store: &InnerStringStorage)
        ensures
            store@ == self@.store,
    {
        &self.store
    }
}

/// Absorbs `oplog` into `store`, oldest operation first.
fn absorb_all(store: &mut InnerStringStorage, oplog: Vec<StringStorageOp>)
    requires
        old(store)@.wf(),
        old(store)@.accepts_all(op_views(oplog@)),
    ensures
        final(store)@ == old(store)@.absorb_all(op_views(oplog@)),
        final(store)@.wf(),
{
    let ghost ops = op_views(oplog@);
    for operation in it: oplog
        invariant
            ops == op_views(it.seq()),
            old(store)@.accepts_all(ops),
            store@.wf(),
            store@ == old(store)@.absorb_all(ops.take(it.index() as int)),
    {
        proof {
            assert(ops.take(it.index() + 1).drop_last() =~= ops.take(it.index() as int));
            lemma_accepts_prefix(old(store)@, ops, it.index() + 1);
        }
        store.absorb_second(operation);
    }
    proof {
        assert(ops.take(ops.len() as int) =~= ops);
    }
}

} // verus!
