//! Subscriptions to blocks and proofs: older ones first, then new ones as they come.

use vstd::prelude::*;

use crate::block_number::BlockNumber;
use crate::bytes::copy_bytes;
use crate::db::upsert::column;
use crate::errors::{DatabaseError, StateSubscriptionError};
use crate::state::replica::{BlockCache, ProofCache};

verus! {

/// A block that is sent to a subscriber, with the latest committed block.
#[derive(Clone, Debug, PartialEq, Eq)]
pub struct BlockSubscriptionEvent {
    pub block: Vec<u8>,
    pub committed_chain_tip: BlockNumber,
}

/// The proof of a block that is sent to a subscriber, with the latest proven block.
#[derive(Clone, Debug, PartialEq, Eq)]
pub struct ProofSubscriptionEvent {
    pub block_num: BlockNumber,
    pub proof: Vec<u8>,
    pub proven_chain_tip: BlockNumber,
}

/// What a subscription does next.
#[derive(Clone, Copy, Debug, PartialEq, Eq, Structural)]
pub enum StreamStep {
    /// Sends the next block.
    Send(BlockNumber),
    /// Waits until the tip moves.
    AwaitTip,
}

/// The position of a subscription.
#[derive(Clone, Copy, Debug, PartialEq, Eq, Structural)]
pub struct StreamCursor {
    pub next: BlockNumber,
}

impl StreamCursor {
    /// Starts a subscription at a block.
    pub fn new(from: BlockNumber) -> (r: Self)
        ensures
            r.next == from,
    {
        StreamCursor { next: from }
    }

    /// Returns what comes next: the next block if it is not past the tip.
    pub fn step(&self, tip: BlockNumber) -> (r: StreamStep)
        ensures
            r == (if self.next@ <= tip@ {
                StreamStep::Send(self.next)
            } else {
                StreamStep::AwaitTip
            }),
    {
        if self.next.0 <= tip.0 {
            StreamStep::Send(self.next)
        } else {
            StreamStep::AwaitTip
        }
    }

    /// Goes on after a block was sent. Returns whether the subscription goes on: it ends if the
    /// subscriber is gone.
    pub fn sent(&mut self, delivered: bool) -> (more: bool)
        requires
            old(self).next@ < u32::MAX,
        ensures
            more == delivered,
            final(self).next@ == (if delivered {
                old(self).next@ + 1
            } else {
                old(self).next@
            }),
    {
        if delivered {
            self.next = self.next.child();
        }
        delivered
    }
}

/// The blocks that a subscription sends for the given tips, one after the other, while it is not
/// ahead of them.
pub open spec fn sent_blocks(from: int, tips: Seq<BlockNumber>) -> Seq<int>
    decreases tips.len(),
{
    if tips.len() == 0 {
        Seq::empty()
    } else {
        let before = sent_blocks(from, tips.drop_last());
        let next = from + before.len();
        if next <= tips.last()@ {
            before.push(next)
        } else {
            before
        }
    }
}

/// A subscription sends the blocks from its start on in order, without a gap and none twice.
pub proof fn lemma_blocks_are_sent_in_order(from: int, tips: Seq<BlockNumber>, i: int)
    requires
        0 <= i < sent_blocks(from, tips).len(),
    ensures
        sent_blocks(from, tips)[i] == from + i,
    decreases tips.len(),
{
    if tips.len() > 0 {
        let before = sent_blocks(from, tips.drop_last());
        if i < before.len() {
            lemma_blocks_are_sent_in_order(from, tips.drop_last(), i);
        }
    }
}

/// The block that a subscription sends: the one in the cache, or else the one that was loaded.
pub open spec fn fetched_block(
    block_num: BlockNumber,
    cached: Option<Seq<u8>>,
    loaded: Result<Option<Vec<u8>>, DatabaseError>,
) -> Result<Seq<u8>, StateSubscriptionError> {
    match cached {
        Some(bytes) => Ok(bytes),
        None => match loaded {
            Err(source) => Err(StateSubscriptionError::BlockLoad { block_num, source }),
            Ok(None) => Err(StateSubscriptionError::BlockNotFound(block_num)),
            Ok(Some(bytes)) => Ok(bytes@),
        },
    }
}

/// The proof that a subscription sends: the one in the cache, or else the one that was loaded.
pub open spec fn fetched_proof(
    block_num: BlockNumber,
    cached: Option<Seq<u8>>,
    loaded: Result<Option<Vec<u8>>, DatabaseError>,
) -> Result<Seq<u8>, StateSubscriptionError> {
    match cached {
        Some(bytes) => Ok(bytes),
        None => match loaded {
            Err(source) => Err(StateSubscriptionError::ProofLoad { block_num, source }),
            Ok(None) => Err(StateSubscriptionError::ProofNotFound(block_num)),
            Ok(Some(bytes)) => Ok(bytes@),
        },
    }
}

/// Returns the bytes of a cached block, or `None` if the block is to be loaded.
pub fn cached_block(cache: &BlockCache, block_num: BlockNumber) -> (r: Option<Vec<u8>>)
    ensures
        match r {
            None => forall|i: int| 0 <= i < cache@.len() ==> (#[trigger] cache@[i]).0 != block_num,
            Some(bytes) => exists|i: int|
                {
                    &&& 0 <= i < cache@.len()
                    &&& (#[trigger] cache@[i]).0 == block_num
                    &&& cache@[i].1.0.block_bytes@ == bytes@
                    &&& forall|j: int| i < j < cache@.len() ==> (#[trigger] cache@[j]).0 != block_num
                },
        },
{
    match cache.get(block_num) {
        None => None,
        Some(entry) => Some(copy_bytes(&entry.0.block_bytes)),
    }
}

/// Returns the bytes of a cached proof, or `None` if the proof is to be loaded.
pub fn cached_proof(cache: &ProofCache, block_num: BlockNumber) -> (r: Option<Vec<u8>>)
    ensures
        match r {
            None => forall|i: int| 0 <= i < cache@.len() ==> (#[trigger] cache@[i]).0 != block_num,
            Some(bytes) => exists|i: int|
                {
                    &&& 0 <= i < cache@.len()
                    &&& (#[trigger] cache@[i]).0 == block_num
                    &&& cache@[i].1.0.proof_bytes@ == bytes@
                    &&& forall|j: int| i < j < cache@.len() ==> (#[trigger] cache@[j]).0 != block_num
                },
        },
{
    match cache.get(block_num) {
        None => None,
        Some(entry) => Some(copy_bytes(&entry.0.proof_bytes)),
    }
}

/// Takes the bytes of a block from the cache, or as they were loaded.
pub fn fetch_block(
    block_num: BlockNumber,
    cached: Option<Vec<u8>>,
    loaded: Result<Option<Vec<u8>>, DatabaseError>,
) -> (r: Result<Vec<u8>, StateSubscriptionError>)
    ensures
        match fetched_block(block_num, column(cached), loaded) {
            Err(error) => r == Err::<Vec<u8>, StateSubscriptionError>(error),
            Ok(bytes) => r matches Ok(found) && found@ == bytes,
        },
        match (cached, loaded) {
            (Some(bytes), _) => r matches Ok(found) && found@ == bytes@,
            (None, Ok(Some(bytes))) => r matches Ok(found) && found@ == bytes@,
            (None, Ok(None)) => r == Err::<Vec<u8>, StateSubscriptionError>(
                StateSubscriptionError::BlockNotFound(block_num),
            ),
            (None, Err(source)) => r == Err::<Vec<u8>, StateSubscriptionError>(
                StateSubscriptionError::BlockLoad { block_num, source },
            ),
        },
{
    match cached {
        Some(bytes) => Ok(bytes),
        None => match loaded {
            Err(source) => Err(StateSubscriptionError::BlockLoad { block_num, source }),
            Ok(None) => Err(StateSubscriptionError::BlockNotFound(block_num)),
            Ok(Some(bytes)) => Ok(bytes),
        },
    }
}

/// Takes the bytes of a proof from the cache, or as they were loaded.
pub fn fetch_proof(
    block_num: BlockNumber,
    cached: Option<Vec<u8>>,
    loaded: Result<Option<Vec<u8>>, DatabaseError>,
) -> (r: Result<Vec<u8>, StateSubscriptionError>)
    ensures
        match fetched_proof(block_num, column(cached), loaded) {
            Err(error) => r == Err::<Vec<u8>, StateSubscriptionError>(error),
            Ok(bytes) => r matches Ok(found) && found@ == bytes,
        },
        match (cached, loaded) {
            (Some(bytes), _) => r matches Ok(found) && found@ == bytes@,
            (None, Ok(Some(bytes))) => r matches Ok(found) && found@ == bytes@,
            (None, Ok(None)) => r == Err::<Vec<u8>, StateSubscriptionError>(
                StateSubscriptionError::ProofNotFound(block_num),
            ),
            (None, Err(source)) => r == Err::<Vec<u8>, StateSubscriptionError>(
                StateSubscriptionError::ProofLoad { block_num, source },
            ),
        },
{
    match cached {
        Some(bytes) => Ok(bytes),
        None => match loaded {
            Err(source) => Err(StateSubscriptionError::ProofLoad { block_num, source }),
            Ok(None) => Err(StateSubscriptionError::ProofNotFound(block_num)),
            Ok(Some(bytes)) => Ok(bytes),
        },
    }
}

} // verus!
