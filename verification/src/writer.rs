//! The single writer: it hands out keys and gathers the operations of the
//! next publication.

use crate::boxed::BoxedStr;
use crate::model::OpView;
use crate::storage::ChannelOp;
use crate::storage::StringStorageOp;
use crate::IStringKey;
use vstd::prelude::*;

verus! {

/// What a writer holds.
pub struct WriterView {
    /// The key that the next new string gets.
    pub next_key: IStringKey,
    /// The operations appended since the last publication, oldest first.
    pub oplog: Seq<OpView>,
}

/// The storage operations that the operations received from the handles
/// become, in the order in which they were received.
pub open spec fn storage_ops(received: Seq<ChannelOp>) -> Seq<OpView> {
    received.map_values(|op: ChannelOp| op.storage_op())
}

/// The operations of a log.
pub open spec fn op_views(oplog: Seq<StringStorageOp>) -> Seq<OpView> {
    oplog.map_values(|op: StringStorageOp| op@)
}

/// The single writer of a store. It keeps the next free key and the log of
/// operations that the next publication makes visible to the readers.
pub struct UniqueWriter {
    next_key: IStringKey,
    oplog: Vec<StringStorageOp>,
}

impl View for UniqueWriter {
    type V = WriterView;

    closed spec fn view(&self) -> WriterView {
        WriterView { next_key: self.next_key, oplog: op_views(self.oplog@) }
    }
}

impl UniqueWriter {
    /// A writer that has handed out no key and logged nothing.
    pub fn new() -> (writer: Self)
        ensures
            writer@ == (WriterView { next_key: 0, oplog: Seq::empty() }),
    {
        let writer = UniqueWriter { next_key: 0, oplog: Vec::new() };
        assert(writer@.oplog =~= Seq::empty());
        writer
    }

    /// The key that the next new string gets.
    pub fn next_key(&self) -> (key: IStringKey)
        ensures
            key == self@.next_key,
    {
        self.next_key
    }

    /// Appends to the log what the handles have sent: each retain and each
    /// release, in the order in which they were received.
    pub fn drain_channel_ops(&mut self, received: Vec<ChannelOp>)
        ensures
            final(self)@ == (WriterView {
                oplog: old(self)@.oplog + storage_ops(received@),
                ..old(self)@
            }),
    {
        let mut i: usize = 0;
        while i < received.len()
            invariant
                i <= received.len(),
                self@ == (WriterView {
                    oplog: old(self)@.oplog + storage_ops(received@.take(i as int)),
                    ..old(self)@
                }),
            decreases received.len() - i,
        {
            let operation = received[i];
            let ghost logged = self@.oplog;
            match operation {
                ChannelOp::Retain { key } => {
                    self.oplog.push(StringStorageOp::Retain { key });
                },
                ChannelOp::Release { key } => {
                    self.oplog.push(StringStorageOp::Release { key });
                },
            }
            proof {
                assert(self@.oplog =~= logged.push(operation.storage_op()));
                assert(storage_ops(received@.take(i + 1)) =~= storage_ops(
                    received@.take(i as int),
                ).push(operation.storage_op()));
            }
            i = i + 1;
        }
        proof {
            assert(received@.take(i as int) =~= received@);
        }
    }

    /// Logs what is needed to store the new string `string`: what the handles
    /// have sent, then the insertion under a fresh key, then the removal of
    /// unused strings. Returns the key.
    pub fn do_pending_ops_and_insert(&mut self, received: Vec<ChannelOp>, string: BoxedStr) -> (key:
        IStringKey)
        requires
            old(self)@.next_key < IStringKey::MAX,
        ensures
            key == old(self)@.next_key,
            final(self)@ == (WriterView {
                next_key: (key + 1) as IStringKey,
                oplog: old(self)@.oplog + storage_ops(received@) + seq![
                    OpView::Insert { key, string: string@ },
                    OpView::DropUnusedStrings,
                ],
            }),
    {
        // add pending operations
        self.drain_channel_ops(received);
        let ghost drained = self@.oplog;

        // insert
        let key = self.next_key;
        self.next_key = self.next_key + 1;
        self.oplog.push(StringStorageOp::Insert { key, string });

        // drop what is unused
        self.oplog.push(StringStorageOp::DropUnusedStrings);
        proof {
            assert(self@.oplog =~= drained + seq![
                OpView::Insert { key, string: string@ },
                OpView::DropUnusedStrings,
            ]);
        }
        key
    }

    /// Logs what is needed to drop the unused strings: what the handles have
    /// sent, then the removal.
    pub fn collect_garbage(&mut self, received: Vec<ChannelOp>)
        ensures
            final(self)@ == (WriterView {
                oplog: old(self)@.oplog + storage_ops(received@) + seq![OpView::DropUnusedStrings],
                ..old(self)@
            }),
    {
        // add pending operations
        self.drain_channel_ops(received);
        let ghost drained = self@.oplog;
        // drop what is unused
        self.oplog.push(StringStorageOp::DropUnusedStrings);
        proof {
            assert(self@.oplog =~= drained + seq![OpView::DropUnusedStrings]);
        }
    }

    /// Hands over the log for publication, and starts an empty one.
    pub fn take_oplog(&mut self) -> (oplog: Vec<StringStorageOp>)
        ensures
            op_views(oplog@) == old(self)@.oplog,
            final(self)@ == (WriterView { oplog: Seq::empty(), ..old(self)@ }),
    {
        let mut oplog: Vec<StringStorageOp> = Vec::new();
        std::mem::swap(&mut oplog, &mut self.oplog);
        proof {
            assert(self@.oplog =~= Seq::empty());
        }
        oplog
    }
}

} // verus!
