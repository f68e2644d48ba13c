//! The tips of the chain, and what the store shows of the blocks up to them.

use vstd::prelude::*;

use crate::block_number::BlockNumber;
use crate::state::apply_block::{BlockHeader, InnerState};
use crate::state::trees::{
    chain_peaks_at, chain_peaks_of, chain_tip, open_block, proves_inclusion, BlockInclusionProof,
};
use crate::word::Word;

verus! {

/// How final a chain tip is.
#[derive(Clone, Copy, Debug, PartialEq, Eq, Structural)]
pub enum Finality {
    /// The latest committed block, which need not be proven.
    Committed,
    /// The latest block that is proven with all blocks before it.
    Proven,
}

/// The tips of the chain.
#[derive(Clone, Copy, Debug, PartialEq, Eq, Structural)]
pub struct ChainTips {
    pub committed: BlockNumber,
    pub proven: BlockNumber,
}

impl ChainTips {
    /// The tip of the given finality.
    pub open spec fn tip(self, finality: Finality) -> BlockNumber {
        match finality {
            Finality::Committed => self.committed,
            Finality::Proven => self.proven,
        }
    }

    /// Returns the tip of the given finality.
    pub fn chain_tip(&self, finality: Finality) -> (r: BlockNumber)
        ensures
            r == self.tip(finality),
            finality == Finality::Committed ==> r == self.committed,
            finality == Finality::Proven ==> r == self.proven,
    {
        match finality {
            Finality::Committed => self.committed,
            Finality::Proven => self.proven,
        }
    }

    /// Returns whether a block is to be read from the block store, which holds blocks that are not
    /// committed yet.
    pub fn may_load_block(&self, block_num: BlockNumber) -> (r: bool)
        ensures
            r == (block_num@ <= self.tip(Finality::Committed)@),
            r == (block_num.0 <= self.committed.0),
    {
        block_num.0 <= self.chain_tip(Finality::Committed).0
    }

    /// Returns whether the proof of a block is to be read from the block store, which holds proofs of
    /// blocks that come after blocks without proof.
    pub fn may_load_proof(&self, block_num: BlockNumber) -> (r: bool)
        ensures
            r == (block_num@ <= self.tip(Finality::Proven)@),
            r == (block_num.0 <= self.proven.0),
    {
        block_num.0 <= self.chain_tip(Finality::Proven).0
    }
}

/// Takes a header that was read from the database, with a proof that its block is part of the chain
/// if one is requested. The block need not be part of the chain in memory yet, which fails.
pub fn get_block_header(
    inner: &InnerState,
    block_header: Option<BlockHeader>,
    include_mmr_proof: bool,
) -> (r: Result<(Option<BlockHeader>, Option<BlockInclusionProof>), MmrError>)
    requires
        inner@.is_valid(),
    ensures
        match block_header {
            None => r == Ok::<(Option<BlockHeader>, Option<BlockInclusionProof>), MmrError>(
                (None, None),
            ),
            Some(header) => if !include_mmr_proof {
                r == Ok::<(Option<BlockHeader>, Option<BlockInclusionProof>), MmrError>(
                    (Some(header), None),
                )
            } else if header.block_num@ <= inner@.tip()@ {
                r matches Ok((found, Some(opened))) && found == Some(header) && proves_inclusion(
                    opened,
                    inner@.blocks,
                    header.block_num,
                )
            } else {
                r == Err::<(Option<BlockHeader>, Option<BlockInclusionProof>), MmrError>(
                    MmrError(header.block_num),
                )
            },
        },
{
    let header = match block_header {
        Some(header) => header,
        None => return Ok((None, None)),
    };
    if !include_mmr_proof {
        return Ok((Some(header), None));
    }
    let tip = inner.latest_block_num();
    if header.block_num.0 > tip.0 {
        return Err(MmrError(header.block_num));
    }
    proof {
        assert(inner@.blocks.take(inner@.blocks.len() as int) =~= inner@.blocks);
    }
    match open_block(&inner.blockchain, header.block_num) {
        Some(opened) => Ok((Some(header), Some(opened))),
        None => Err(MmrError(header.block_num)),
    }
}

/// Takes the latest header of the database with the peaks of the chain before its block. Returns
/// `None` if the requester already has the latest block.
pub fn get_current_blockchain_data(
    inner: &InnerState,
    block_num: Option<BlockNumber>,
    latest_header: BlockHeader,
) -> (r: Result<Option<(BlockHeader, Vec<Word>)>, MmrError>)
    requires
        inner@.is_valid(),
    ensures
        if block_num == Some(inner@.tip()) {
            r == Ok::<Option<(BlockHeader, Vec<Word>)>, MmrError>(None)
        } else if latest_header.block_num@ <= inner@.blocks.len() {
            r matches Ok(Some((header, peaks))) && header == latest_header && peaks@
                == chain_peaks_of(inner@.blocks.take(latest_header.block_num@))
        } else {
            r == Err::<Option<(BlockHeader, Vec<Word>)>, MmrError>(
                MmrError(latest_header.block_num),
            )
        },
{
    if let Some(number) = block_num {
        if number == inner.latest_block_num() {
            return Ok(None);
        }
    }
    match chain_peaks_at(&inner.blockchain, latest_header.block_num) {
        Some(peaks) => Ok(Some((latest_header, peaks))),
        None => Err(MmrError(latest_header.block_num)),
    }
}

/// The error of a block that is not part of the chain.
#[derive(Clone, Copy, Debug, PartialEq, Eq, Structural)]
pub struct MmrError(pub BlockNumber);

} // verus!
