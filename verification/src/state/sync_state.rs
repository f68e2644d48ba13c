//! What a client asks for to catch up with the chain.

use vstd::prelude::*;

use crate::block_number::{BlockNumber, BlockRange};
use crate::db::transactions::NoteSyncRecord;
use crate::errors::{DatabaseError, NoteSyncError, StateSyncError};
use crate::state::apply_block::{BlockHeader, InnerState, InnerView};
use crate::state::trees::{
    block_path_of, chain_delta, chain_delta_of, open_block_at, proves_inclusion, BlockInclusionProof,
};
use crate::word::Word;

verus! {

/// A value with the chain tip that it was read at.
#[derive(Clone, Debug, PartialEq, Eq)]
pub struct Scoped<T> {
    pub chain_tip: BlockNumber,
    pub value: T,
}

/// Checks that a range ends at the chain tip or before.
pub fn check_sync_range(block_range: BlockRange, chain_tip: BlockNumber) -> (r: Result<
    (),
    DatabaseError,
>)
    ensures
        r == (if block_range.end@ > chain_tip@ {
            Err::<(), DatabaseError>(DatabaseError::UnknownBlock(block_range.end))
        } else {
            Ok(())
        }),
{
    if block_range.end.0 > chain_tip.0 {
        Err(DatabaseError::UnknownBlock(block_range.end))
    } else {
        Ok(())
    }
}

/// Takes the result of a query of a range as it was read at a chain tip. A range that ends past the
/// tip is refused, whatever the query returned.
pub fn scope_query<T>(
    block_range: BlockRange,
    chain_tip: BlockNumber,
    result: Result<T, DatabaseError>,
) -> (r: Result<Scoped<T>, DatabaseError>)
    ensures
        r == (if block_range.end@ > chain_tip@ {
            Err::<Scoped<T>, DatabaseError>(DatabaseError::UnknownBlock(block_range.end))
        } else {
            match result {
                Err(error) => Err(error),
                Ok(value) => Ok(Scoped { chain_tip, value }),
            }
        }),
{
    check_sync_range(block_range, chain_tip)?;
    match result {
        Ok(value) => Ok(Scoped { chain_tip, value }),
        Err(error) => Err(error),
    }
}

// CHAIN
// ================================================================================================

/// The data by which a client extends its chain to the given number of blocks.
#[derive(Clone, Debug, PartialEq, Eq)]
pub struct ChainDelta {
    pub chain_length: usize,
    pub data: Vec<Word>,
}

/// Returns the data by which a client that has all blocks up to the start of the range extends its
/// chain to the chain before the end of the range.
pub fn sync_chain_mmr(inner: &InnerState, block_range: BlockRange) -> (r: Result<
    ChainDelta,
    StateSyncError,
>)
    requires
        inner@.is_valid(),
        block_range.start@ < u32::MAX,
    ensures
        ({
            let from = block_range.start@;
            let to = block_range.end@;
            if to > inner@.tip()@ {
                r == Err::<ChainDelta, StateSyncError>(
                    StateSyncError::UnknownBlock(block_range.end),
                )
            } else if from > to {
                r == Err::<ChainDelta, StateSyncError>(StateSyncError::FailedToBuildMmrDelta)
            } else if from == to {
                r matches Ok(delta) && delta.chain_length == from && delta.data@.len() == 0
            } else {
                r matches Ok(delta) && delta.chain_length == to && delta.data@ == chain_delta_of(
                    inner@.blocks.take(to),
                    (from + 1) as nat,
                )
            }
        }),
{
    let block_from = block_range.start;
    let block_to = block_range.end;
    if block_to.0 > inner.latest_block_num().0 {
        return Err(StateSyncError::UnknownBlock(block_to));
    }
    if block_from == block_to {
        return Ok(ChainDelta { chain_length: block_from.0 as usize, data: Vec::new() });
    }
    let from: usize = (block_from.0 + 1) as usize;
    let to: usize = block_to.0 as usize;
    match chain_delta(&inner.blockchain, from, to) {
        Some(data) => Ok(ChainDelta { chain_length: to, data }),
        None => Err(StateSyncError::FailedToBuildMmrDelta),
    }
}

// NOTES
// ================================================================================================

/// The estimated size of a block of notes without its notes.
pub const BLOCK_OVERHEAD_BYTES: usize = 1600;

/// The estimated size of the record of a note.
pub const NOTE_RECORD_BYTES: usize = 700;

/// The notes of a block that match a request.
#[derive(Clone, Debug, PartialEq, Eq)]
pub struct NoteSyncUpdate {
    pub block_header: BlockHeader,
    pub notes: Vec<NoteSyncRecord>,
}

impl NoteSyncUpdate {
    /// The estimated size of the update.
    pub open spec fn size(self) -> nat {
        BLOCK_OVERHEAD_BYTES as nat + self.notes@.len() * NOTE_RECORD_BYTES as nat
    }
}

/// The estimated size of updates.
pub open spec fn updates_size(results: Seq<(NoteSyncUpdate, BlockInclusionProof)>) -> nat
    decreases results.len(),
{
    if results.len() == 0 {
        0
    } else {
        updates_size(results.drop_last()) + results.last().0.size()
    }
}

/// The updates that were collected so far, and where to look for the next one.
#[derive(Clone, Debug, PartialEq, Eq)]
pub struct NoteSyncScan {
    pub results: Vec<(NoteSyncUpdate, BlockInclusionProof)>,
    pub accumulated_size: usize,
    pub current_from: BlockNumber,
    pub block_end: BlockNumber,
}

impl NoteSyncScan {
    /// Whether the updates are of blocks in ascending order up to the end of the range, each with a
    /// proof that its block is part of the chain up to the end of the range, and more than one only
    /// as far as the payload takes them.
    pub open spec fn is_valid(self, inner: InnerView, max_payload: nat) -> bool {
        &&& self.block_end@ <= inner.tip()@
        &&& self.accumulated_size == updates_size(self.results@)
        &&& self.results@.len() > 1 ==> updates_size(self.results@) <= max_payload
        &&& forall|i: int|
            0 <= i < self.results@.len() ==> {
                let block_num = (#[trigger] self.results@[i]).0.block_header.block_num;
                &&& block_num@ <= self.block_end@
                &&& block_num@ < self.current_from@
                &&& proves_inclusion(
                    self.results@[i].1,
                    inner.blocks.take(self.block_end@ + 1),
                    block_num,
                )
            }
        &&& forall|i: int, j: int|
            0 <= i < j < self.results@.len() ==> (#[trigger] self.results@[i]).0.block_header.block_num@
                < (#[trigger] self.results@[j]).0.block_header.block_num@
        &&& self.results@.len() > 0 ==> self.current_from@
            == self.results@.last().0.block_header.block_num@ + 1
    }

    /// Starts to collect the notes of a range of blocks.
    pub fn new(inner: &InnerState, block_range: BlockRange) -> (r: Result<Self, NoteSyncError>)
        requires
            inner@.is_valid(),
        ensures
            if block_range.end@ > inner@.tip()@ {
                r == Err::<Self, NoteSyncError>(
                    NoteSyncError::FutureBlock {
                        chain_tip: inner@.tip(),
                        block_to: block_range.end,
                    },
                )
            } else {
                r matches Ok(scan) && scan.results@.len() == 0 && scan.current_from
                    == block_range.start && scan.block_end == block_range.end && forall|
                    max_payload: nat,
                | #[trigger] scan.is_valid(inner@, max_payload)
            },
    {
        let chain_tip = inner.latest_block_num();
        if block_range.end.0 > chain_tip.0 {
            return Err(NoteSyncError::FutureBlock { chain_tip, block_to: block_range.end });
        }
        Ok(
            NoteSyncScan {
                results: Vec::new(),
                accumulated_size: 0,
                current_from: block_range.start,
                block_end: block_range.end,
            },
        )
    }

    /// Returns the range in which the next block with matching notes is looked for.
    pub fn next_range(&self) -> (r: BlockRange)
        ensures
            r.start == self.current_from,
            r.end == self.block_end,
    {
        BlockRange::new(self.current_from, self.block_end)
    }

    /// Adds the notes of the next block that has matching ones. Returns whether to go on: `false` if
    /// the update would exceed the payload, in which case it is left out unless it is the first.
    pub fn add(&mut self, inner: &InnerState, update: NoteSyncUpdate, max_payload: usize) -> (r:
        Result<bool, NoteSyncError>)
        requires
            inner@.is_valid(),
            old(self).is_valid(inner@, max_payload as nat),
            update.block_header.block_num@ >= old(self).current_from@,
            old(self).accumulated_size + update.size() <= usize::MAX,
        ensures
            final(self).is_valid(inner@, max_payload as nat),
            final(self).block_end == old(self).block_end,
            ({
                let exceeds = old(self).accumulated_size + update.size() > max_payload;
                if old(self).results@.len() > 0 && exceeds {
                    r == Ok::<bool, NoteSyncError>(false) && *final(self) == *old(self)
                } else if update.block_header.block_num@ > old(self).block_end@ {
                    r == Err::<bool, NoteSyncError>(NoteSyncError::MmrError) && *final(self) == *old(
                        self,
                    )
                } else {
                    &&& r == Ok::<bool, NoteSyncError>(true)
                    &&& final(self).results@.len() == old(self).results@.len() + 1
                    &&& final(self).results@.drop_last() == old(self).results@
                    &&& final(self).results@.last().0 == update
                }
            }),
    {
        let size: usize = BLOCK_OVERHEAD_BYTES + update.notes.len() * NOTE_RECORD_BYTES;
        let accumulated: usize = self.accumulated_size + size;
        if self.results.len() > 0 && accumulated > max_payload {
            return Ok(false);
        }
        let block_num = update.block_header.block_num;
        let checkpoint = self.block_end.child();
        let opened = match open_block_at(&inner.blockchain, block_num, checkpoint) {
            Some(opened) => opened,
            None => return Err(NoteSyncError::MmrError),
        };
        let ghost before = self.results@;
        self.results.push((update, opened));
        self.accumulated_size = accumulated;
        self.current_from = block_num.child();
        assert(self.results@.drop_last() =~= before);
        Ok(true)
    }

    /// Ends the collection. Returns the updates with the last block that was checked: the block of
    /// the last update, or the end of the range if there is none.
    pub fn finish(self) -> (r: (Vec<(NoteSyncUpdate, BlockInclusionProof)>, BlockNumber))
        ensures
            r.0 == self.results,
            r.1 == (if self.results@.len() == 0 {
                self.block_end
            } else {
                self.results@.last().0.block_header.block_num
            }),
    {
        let last = if self.results.len() == 0 {
            self.block_end
        } else {
            self.results[self.results.len() - 1].0.block_header.block_num
        };
        (self.results, last)
    }
}

/// The size of an update is estimated as 1600 bytes for its block and 700 for each of its notes, and that
/// of updates as the sum of their sizes.
pub proof fn lemma_sizes_of_updates(
    results: Seq<(NoteSyncUpdate, BlockInclusionProof)>,
    more: Seq<(NoteSyncUpdate, BlockInclusionProof)>,
    update: NoteSyncUpdate,
)
    ensures
        update.size() == 1600 + 700 * update.notes@.len(),
        updates_size(results + more) == updates_size(results) + updates_size(more),
        more.len() == 1 ==> updates_size(more) == more[0].0.size(),
        updates_size(results) >= 1600 * results.len(),
    decreases results.len() + more.len(),
{
    if more.len() > 0 {
        assert((results + more).drop_last() =~= results + more.drop_last());
        lemma_sizes_of_updates(results, more.drop_last(), update);
    } else {
        assert(results + more =~= results);
        if results.len() > 0 {
            lemma_sizes_of_updates(results.drop_last(), Seq::empty(), update);
        }
    }
}

/// The updates of a scan are of the range, in ascending order, and each of them comes with a proof for the
/// chain of the blocks up to the end of the range.
pub proof fn lemma_updates_of_scans(
    scan: NoteSyncScan,
    inner: InnerView,
    max_payload: nat,
    i: int,
)
    requires
        scan.is_valid(inner, max_payload),
        scan.block_end.0 < inner.blocks.len(),
        0 <= i < scan.results@.len(),
    ensures
        ({
            let (update, proof) = scan.results@[i];
            let block_num = update.block_header.block_num.0;
            &&& block_num <= scan.block_end.0
            &&& block_num < scan.current_from.0
            &&& proof.chain_length == scan.block_end.0 + 1
            &&& proof.position == block_num
            &&& proof.block_commitment == inner.blocks[block_num as int]
            &&& proof.path@ == block_path_of(
                inner.blocks.take(scan.block_end.0 + 1),
                block_num as nat,
            )
        }),
        forall|j: int|
            i < j < scan.results@.len() ==> scan.results@[i].0.block_header.block_num.0 < (
            #[trigger] scan.results@[j]).0.block_header.block_num.0,
        scan.results@.len() > 1 ==> scan.accumulated_size <= max_payload,
{
    let (update, proof) = scan.results@[i];
    assert(proves_inclusion(
        proof,
        inner.blocks.take(scan.block_end@ + 1),
        update.block_header.block_num,
    ));
}

} // verus!
