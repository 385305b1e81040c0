//! The streaming loader's core: a pending list of training-data shards
//! consumed one at a time, and the flow-control decisions its background
//! workers take. The threads, the channel and the sleep live with the
//! caller; every decision they take comes from here.

use vstd::prelude::*;
use crate::errors::DataError;
use crate::traindata::{TrainData, TrainView, wf_train, spec_train_sized, spec_train_file_bytes};

verus! {

/// What a loader worker does next: stop because no file is pending, load
/// one batch, or wait because enough batches are already outstanding.
#[derive(Clone, Copy, Debug, PartialEq, Eq, Structural)]
pub enum WorkerAction {
    Exit,
    Load,
    Wait,
}

/// A worker may send when the consumer is ahead of the producers or fewer
/// than `prefetch` sent batches are still unread.
pub open spec fn spec_can_dispatch(read: int, sent: int, prefetch: int) -> bool {
    read > sent || sent - read < prefetch
}

/// The backpressure rule: keeps at most `prefetch` batches outstanding.
pub fn can_dispatch(read: usize, sent: usize, prefetch: usize) -> (r: bool)
    ensures
        r == spec_can_dispatch(read as int, sent as int, prefetch as int),
{
    read > sent || sent - read < prefetch
}

/// One worker-loop decision: exit on an empty list, load under the
/// backpressure bound, wait otherwise.
pub fn worker_action(files_empty: bool, read: usize, sent: usize, prefetch: usize) -> (r:
    WorkerAction)
    ensures
        r == if files_empty {
            WorkerAction::Exit
        } else if spec_can_dispatch(read as int, sent as int, prefetch as int) {
            WorkerAction::Load
        } else {
            WorkerAction::Wait
        },
{
    if files_empty {
        WorkerAction::Exit
    } else if can_dispatch(read, sent, prefetch) {
        WorkerAction::Load
    } else {
        WorkerAction::Wait
    }
}

/// The worker count a prefetch request maps to: at least one, at most
/// five.
pub fn clamp_prefetch(prefetch: usize) -> (r: usize)
    ensures
        r == if prefetch < 1 {
            1int
        } else if prefetch > 5 {
            5int
        } else {
            prefetch as int
        },
        1 <= r <= 5,
{
    if prefetch < 1 {
        1
    } else if prefetch > 5 {
        5
    } else {
        prefetch
    }
}

/// Supplies training batches from a list of in-memory shards, newest
/// first, one per `next` call: exactly one batch per shard, then end of
/// sequence.
pub struct TrainDataLoader {
    shards: Vec<Vec<u8>>,
    prefetch: usize,
}

impl TrainDataLoader {
    /// The shards not yet consumed.
    pub closed spec fn remaining(&self) -> Seq<Seq<u8>> {
        self.shards.deep_view()
    }

    /// The clamped prefetch bound the loader was built with.
    pub closed spec fn prefetch(&self) -> int {
        self.prefetch as int
    }

    /// A loader over `files`, with the prefetch request clamped to 1..=5.
    pub fn new(files: Vec<Vec<u8>>, prefetch: usize) -> (r: TrainDataLoader)
        ensures
            r.remaining() == files.deep_view(),
            1 <= r.prefetch() <= 5,
    {
        TrainDataLoader { shards: files, prefetch: clamp_prefetch(prefetch) }
    }

    /// How many shards are still pending.
    pub fn pending(&self) -> (r: usize)
        ensures
            r == self.remaining().len(),
    {
        self.shards.len()
    }

    /// Yields the next batch: decodes the last pending shard, or reports
    /// the end of the sequence once every shard has been consumed. A
    /// failure names only shards that are no serialized batch, so over a
    /// whole run on well-formed shards this yields exactly one batch per
    /// shard, then `None`.
    pub fn next(&mut self) -> (r: Result<Option<TrainData>, DataError>)
        ensures
            final(self).prefetch() == old(self).prefetch(),
            match r {
                Ok(None) => {
                    &&& old(self).remaining().len() == 0
                    &&& final(self).remaining() == old(self).remaining()
                },
                Ok(Some(td)) => {
                    &&& old(self).remaining().len() > 0
                    &&& final(self).remaining() == old(self).remaining().drop_last()
                    &&& wf_train(td@)
                    &&& forall|t: TrainView|
                        wf_train(t) && spec_train_sized(t) && old(self).remaining().last()
                            == spec_train_file_bytes(t) ==> td@ == t
                },
                Err(e) => {
                    &&& old(self).remaining().len() > 0
                    &&& final(self).remaining() == old(self).remaining().drop_last()
                    &&& e == DataError::Format
                    &&& forall|t: TrainView|
                        wf_train(t) && spec_train_sized(t) ==> old(self).remaining().last()
                            != spec_train_file_bytes(t)
                },
            },
    {
        let shard: Vec<u8> = match self.shards.pop() {
            Some(s) => s,
            None => {
                proof {
                    assert(old(self).shards@.len() == 0);
                }
                return Ok(None);
            },
        };
        proof {
            assert(self.shards.deep_view() =~= old(self).remaining().drop_last());
            assert(shard@ == old(self).remaining().last());
        }
        match TrainData::decode_bin(&shard) {
            Ok(td) => Ok(Some(td)),
            Err(e) => Err(e),
        }
    }
}

} // verus!
