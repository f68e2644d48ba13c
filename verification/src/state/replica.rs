//! The recent blocks and proofs that are kept in memory for subscribers.

use std::collections::VecDeque;
use std::sync::Arc;
use vstd::prelude::*;

use crate::block_number::BlockNumber;

verus! {

// NOTIFICATIONS
// ================================================================================================

/// An encoded block.
#[derive(Clone, Debug, PartialEq, Eq)]
pub struct Block {
    pub block_num: BlockNumber,
    pub block_bytes: Vec<u8>,
}

/// A committed block, shared by all subscribers.
#[derive(Clone, Debug)]
pub struct BlockNotification(pub Arc<Block>);

impl BlockNotification {
    /// Creates the notification of a block.
    pub fn new(block_num: BlockNumber, block_bytes: Vec<u8>) -> (r: Self)
        ensures
            r.0.block_num == block_num,
            r.0.block_bytes == block_bytes,
    {
        BlockNotification(Arc::new(Block { block_num, block_bytes }))
    }

    /// Returns the number of the block.
    pub fn block_num(&self) -> (r: BlockNumber)
        ensures
            r == self.0.block_num,
    {
        self.0.block_num
    }

    /// Returns the encoded block.
    pub fn block_bytes(&self) -> (r: &[u8])
        ensures
            r@ == self.0.block_bytes@,
    {
        self.0.block_bytes.as_slice()
    }
}

/// An encoded proof of a block.
#[derive(Clone, Debug, PartialEq, Eq)]
pub struct Proof {
    pub block_num: BlockNumber,
    pub proof_bytes: Vec<u8>,
}

/// A proven block, shared by all subscribers.
#[derive(Clone, Debug)]
pub struct ProofNotification(pub Arc<Proof>);

impl ProofNotification {
    /// Creates the notification of a proof.
    pub fn new(block_num: BlockNumber, proof_bytes: Vec<u8>) -> (r: Self)
        ensures
            r.0.block_num == block_num,
            r.0.proof_bytes == proof_bytes,
    {
        ProofNotification(Arc::new(Proof { block_num, proof_bytes }))
    }

    /// Returns the number of the block.
    pub fn block_num(&self) -> (r: BlockNumber)
        ensures
            r == self.0.block_num,
    {
        self.0.block_num
    }

    /// Returns the encoded proof.
    pub fn proof_bytes(&self) -> (r: &[u8])
        ensures
            r@ == self.0.proof_bytes@,
    {
        self.0.proof_bytes.as_slice()
    }
}

// CACHES
// ================================================================================================

/// The number of recent blocks that are kept.
pub const BLOCK_CACHE_CAPACITY: usize = 512;

/// The number of recent proofs that are kept.
pub const PROOF_CACHE_CAPACITY: usize = 512;

/// A cache that keeps the values that were added last.
#[derive(Clone, Debug)]
pub struct FifoCache<V> {
    capacity: usize,
    entries: VecDeque<(BlockNumber, V)>,
}

/// The cache of recent blocks.
pub type BlockCache = FifoCache<BlockNotification>;

/// The cache of recent proofs.
pub type ProofCache = FifoCache<ProofNotification>;

impl<V> View for FifoCache<V> {
    type V = Seq<(BlockNumber, V)>;

    closed spec fn view(&self) -> Seq<(BlockNumber, V)> {
        self.entries@
    }
}

/// The last entries of a sequence, at most as many as fit.
pub open spec fn newest<T>(entries: Seq<T>, capacity: nat) -> Seq<T> {
    if entries.len() <= capacity {
        entries
    } else {
        entries.skip(entries.len() - capacity)
    }
}

impl<V> FifoCache<V> {
    /// The number of values that the cache keeps.
    pub closed spec fn spec_capacity(&self) -> nat {
        self.capacity as nat
    }

    /// Whether the cache keeps at least one value, and no more than its capacity.
    pub open spec fn is_valid(&self) -> bool {
        0 < self.spec_capacity() && self@.len() <= self.spec_capacity()
    }

    /// Creates an empty cache.
    pub fn new(capacity: usize) -> (r: Self)
        requires
            capacity > 0,
        ensures
            r.is_valid(),
            r.spec_capacity() == capacity,
            r@.len() == 0,
    {
        FifoCache { capacity, entries: VecDeque::new() }
    }

    /// Adds a value, and drops the oldest one if there are too many.
    pub fn push(&mut self, block_num: BlockNumber, value: V)
        requires
            old(self).is_valid(),
        ensures
            final(self).is_valid(),
            final(self).spec_capacity() == old(self).spec_capacity(),
            final(self)@ == newest(old(self)@.push((block_num, value)), old(self).spec_capacity()),
            final(self)@ == (if old(self)@.len() < old(self).spec_capacity() {
                old(self)@.push((block_num, value))
            } else {
                old(self)@.drop_first().push((block_num, value))
            }),
    {
        let ghost before = self.entries@;
        if self.entries.len() == self.capacity {
            let _ = self.entries.pop_front();
        }
        self.entries.push_back((block_num, value));
        assert(self.entries@ =~= newest(before.push((block_num, value)), self.capacity as nat));
    }

    /// Returns the value of a block that was added last, or `None` if none is kept.
    pub fn get(&self, block_num: BlockNumber) -> (r: Option<&V>)
        ensures
            match r {
                None => forall|i: int| 0 <= i < self@.len() ==> (#[trigger] self@[i]).0 != block_num,
                Some(value) => exists|i: int|
                    {
                        &&& 0 <= i < self@.len()
                        &&& #[trigger] self@[i] == (block_num, *value)
                        &&& forall|j: int| i < j < self@.len() ==> (#[trigger] self@[j]).0
                            != block_num
                    },
            },
    {
        let mut i: usize = self.entries.len();
        while i > 0
            invariant
                i <= self.entries@.len(),
                forall|j: int|
                    i <= j < self.entries@.len() ==> (#[trigger] self.entries@[j]).0 != block_num,
            decreases i,
        {
            i = i - 1;
            if self.entries[i].0 == block_num {
                assert(self@[i as int] == (block_num, self.entries@[i as int].1));
                return Some(&self.entries[i].1);
            }
        }
        None
    }
}

/// If blocks are added in order, the cache holds the latest ones without a gap: whatever it no longer
/// holds is older than everything that it holds.
pub proof fn lemma_cache_holds_latest<V>(
    entries: Seq<(BlockNumber, V)>,
    capacity: nat,
    first: int,
)
    requires
        capacity > 0,
        forall|i: int| 0 <= i < entries.len() ==> (#[trigger] entries[i]).0@ == first + i,
    ensures
        forall|i: int|
            0 <= i < newest(entries, capacity).len() ==> (#[trigger] newest(
                entries,
                capacity,
            )[i]).0@ == first + entries.len() - newest(entries, capacity).len() + i,
{
}

} // verus!
