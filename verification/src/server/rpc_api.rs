//! The endpoints for clients.

use vstd::prelude::*;
use vstd::string::*;

use crate::account_id::AccountId;
use crate::block_number::{BlockNumber, BlockRange};
use crate::errors::{DatabaseError, NoteSyncError, StateSyncError};
use crate::genesis::SealedHeader;
use crate::server::api::{
    check_limit, convert_digests_to_words, digest_words, validate_nullifiers, Code, ConversionError,
    Digest, Status,
};
use crate::state::apply_block::InnerState;
use crate::state::chain::{ChainTips, Finality};
use crate::state::sync_state::{sync_chain_mmr, ChainDelta};
use crate::state::trees::{are_canonical, chain_delta_of, nullifier_witness, nullifier_witness_of};
use crate::word::Word;

verus! {

// ERRORS
// ================================================================================================

/// Errors of a request for the proofs of nullifiers.
#[derive(Clone, Debug, PartialEq, Eq)]
pub enum CheckNullifiersError {
    /// The request names too many nullifiers.
    Limit(Status),
    /// A nullifier is not a word.
    DeserializationFailed(ConversionError),
}

/// Errors of a request for nullifiers that were spent.
#[derive(Clone, Copy, Debug, PartialEq, Eq, Structural)]
pub enum SyncNullifiersError {
    /// The prefixes do not have the length that is supported.
    InvalidPrefixLength(u32),
}

/// Errors of a request for notes.
#[derive(Clone, Debug, PartialEq, Eq)]
pub enum SyncNotesError {
    /// The range cannot be answered.
    NoteSync(NoteSyncError),
    /// The request names too many tags.
    Limit(Status),
}

/// Errors of a request for an extension of a client's chain.
#[derive(Clone, Debug, PartialEq, Eq)]
pub enum SyncChainMmrError {
    /// The request names no range.
    MissingBlockRange,
    /// The range starts past the tip.
    FutureBlock { chain_tip: BlockNumber, block_from: BlockNumber },
    /// The range ends before it starts.
    StartGreaterThanEnd { start: BlockNumber, end: BlockNumber },
    /// The extension could not be computed.
    Internal(StateSyncError),
}

/// Errors of a request for notes by their identifiers.
#[derive(Clone, Debug, PartialEq, Eq)]
pub enum GetNotesByIdError {
    /// The request names too many notes.
    Limit(Status),
    /// An identifier is not a word.
    DeserializationFailed(ConversionError),
}

/// The account's state is not on chain.
#[derive(Clone, Copy, Debug, PartialEq, Eq, Structural)]
pub struct AccountNotPublic(pub AccountId);

// RESPONSES
// ================================================================================================

/// Items up to a block, with the chain tip at that time.
#[derive(Clone, Debug, PartialEq, Eq)]
pub struct Paginated<T> {
    pub chain_tip: BlockNumber,
    pub block_num: BlockNumber,
    pub items: Vec<T>,
}

/// Answers with the items of all blocks up to the given one.
pub fn paginate<T>(chain_tip: BlockNumber, block_num: BlockNumber, items: Vec<T>) -> (r: Paginated<
    T,
>)
    ensures
        r == (Paginated { chain_tip, block_num, items }),
{
    Paginated { chain_tip, block_num, items }
}

/// What the store tells of itself.
#[derive(Clone, Debug, PartialEq, Eq)]
pub struct StoreStatus {
    pub version: String,
    pub status: String,
    pub chain_tip: BlockNumber,
}

/// Tells that the store is connected, and where its chain ends.
pub fn status(version: String, chain_tip: BlockNumber) -> (r: StoreStatus)
    ensures
        r.version == version,
        r.status@ == "connected"@,
        r.chain_tip == chain_tip,
{
    StoreStatus { version, status: String::from_str("connected"), chain_tip }
}

// NULLIFIERS
// ================================================================================================

/// Answers a request for the proofs whether nullifiers are spent, in the order of the request.
pub fn check_nullifiers(inner: &InnerState, nullifiers: &Vec<Digest>, limit: usize) -> (r: Result<
    Vec<Vec<u8>>,
    CheckNullifiersError,
>)
    ensures
        nullifiers@.len() > limit <==> r matches Err(CheckNullifiersError::Limit(_)),
        nullifiers@.len() <= limit ==> match digest_words(nullifiers@) {
            Err(error) => r == Err::<Vec<Vec<u8>>, CheckNullifiersError>(
                CheckNullifiersError::DeserializationFailed(error),
            ),
            Ok(words) => r matches Ok(proofs) && proofs@.len() == words.len() && forall|i: int|
                0 <= i < words.len() ==> (#[trigger] proofs@[i])@ == nullifier_witness_of(
                    inner@.nullifiers,
                    words[i],
                ),
        },
{
    match check_limit(nullifiers.len(), limit) {
        Ok(()) => {},
        Err(status) => return Err(CheckNullifiersError::Limit(status)),
    }
    let words = match validate_nullifiers(nullifiers) {
        Ok(words) => words,
        Err(error) => return Err(CheckNullifiersError::DeserializationFailed(error)),
    };
    let mut proofs: Vec<Vec<u8>> = Vec::new();
    let mut i: usize = 0;
    while i < words.len()
        invariant
            i <= words@.len(),
            are_canonical(words@),
            proofs@.len() == i,
            forall|k: int|
                0 <= k < i ==> (#[trigger] proofs@[k])@ == nullifier_witness_of(
                    inner@.nullifiers,
                    words@[k],
                ),
        decreases words@.len() - i,
    {
        proofs.push(nullifier_witness(&inner.nullifier_tree, words[i]));
        i = i + 1;
    }
    Ok(proofs)
}

/// The number of bits of the prefixes by which nullifiers are requested.
pub const NULLIFIER_PREFIX_LEN: u32 = 16;

/// Checks the length of the prefixes of a request for nullifiers.
pub fn check_prefix_len(prefix_len: u32) -> (r: Result<(), SyncNullifiersError>)
    ensures
        r == (if prefix_len == NULLIFIER_PREFIX_LEN {
            Ok::<(), SyncNullifiersError>(())
        } else {
            Err(SyncNullifiersError::InvalidPrefixLength(prefix_len))
        }),
{
    if prefix_len != NULLIFIER_PREFIX_LEN {
        return Err(SyncNullifiersError::InvalidPrefixLength(prefix_len));
    }
    Ok(())
}

// NOTES
// ================================================================================================

/// Checks a request for the notes of a range with the given number of tags.
pub fn check_sync_notes(
    block_range: BlockRange,
    chain_tip: BlockNumber,
    tag_count: usize,
    limit: usize,
) -> (r: Result<(), SyncNotesError>)
    ensures
        block_range.end@ > chain_tip@ ==> r == Err::<(), SyncNotesError>(
            SyncNotesError::NoteSync(
                NoteSyncError::FutureBlock { chain_tip, block_to: block_range.end },
            ),
        ),
        block_range.end@ <= chain_tip@ ==> if tag_count > limit {
            r matches Err(SyncNotesError::Limit(status)) && status.code == Code::OutOfRange
        } else {
            r == Ok::<(), SyncNotesError>(())
        },
{
    if block_range.end.0 > chain_tip.0 {
        return Err(
            SyncNotesError::NoteSync(
                NoteSyncError::FutureBlock { chain_tip, block_to: block_range.end },
            ),
        );
    }
    match check_limit(tag_count, limit) {
        Ok(()) => Ok(()),
        Err(status) => Err(SyncNotesError::Limit(status)),
    }
}

/// Reads the note identifiers of a request.
pub fn read_note_ids(ids: &Vec<Digest>, limit: usize) -> (r: Result<Vec<Word>, GetNotesByIdError>)
    ensures
        ids@.len() > limit <==> r matches Err(GetNotesByIdError::Limit(_)),
        ids@.len() <= limit ==> match digest_words(ids@) {
            Err(error) => r == Err::<Vec<Word>, GetNotesByIdError>(
                GetNotesByIdError::DeserializationFailed(error),
            ),
            Ok(words) => r matches Ok(found) && found@ == words,
        },
{
    match check_limit(ids.len(), limit) {
        Ok(()) => {},
        Err(status) => return Err(GetNotesByIdError::Limit(status)),
    }
    match convert_digests_to_words(ids) {
        Ok(words) => Ok(words),
        Err(error) => Err(GetNotesByIdError::DeserializationFailed(error)),
    }
}

// CHAIN
// ================================================================================================

/// The range of blocks of a request. Without an end it reaches up to the tip.
#[derive(Clone, Copy, Debug, PartialEq, Eq, Structural)]
pub struct RequestedRange {
    pub block_from: u32,
    pub block_to: Option<u32>,
}

/// The end of a requested range, which is at most the tip.
pub open spec fn range_end(block_to: Option<u32>, tip: BlockNumber) -> BlockNumber {
    match block_to {
        None => tip,
        Some(number) => if number <= tip@ {
            BlockNumber(number)
        } else {
            tip
        },
    }
}

/// The range that a request for an extension of a client's chain stands for.
pub open spec fn chain_range(request: Option<RequestedRange>, tip: BlockNumber) -> Result<
    BlockRange,
    SyncChainMmrError,
> {
    match request {
        None => Err(SyncChainMmrError::MissingBlockRange),
        Some(range) => {
            let start = BlockNumber(range.block_from);
            let end = range_end(range.block_to, tip);
            if start@ > tip@ {
                Err(SyncChainMmrError::FutureBlock { chain_tip: tip, block_from: start })
            } else if start@ > end@ {
                Err(SyncChainMmrError::StartGreaterThanEnd { start, end })
            } else {
                Ok(BlockRange { start, end })
            }
        },
    }
}

/// Returns the range that a request for an extension of a client's chain stands for, which ends at
/// the tip of the requested finality at the latest. Committed blocks are final enough unless the
/// request says otherwise.
pub fn read_chain_range(
    request: Option<RequestedRange>,
    finality: Option<Finality>,
    tips: ChainTips,
) -> (r: Result<BlockRange, SyncChainMmrError>)
    ensures
        r == chain_range(
            request,
            tips.tip(
                match finality {
                    Some(finality) => finality,
                    None => Finality::Committed,
                },
            ),
        ),
        r matches Ok(range) ==> range.start@ <= range.end@,
{
    let range = match request {
        Some(range) => range,
        None => return Err(SyncChainMmrError::MissingBlockRange),
    };
    let tip = match finality {
        Some(finality) => tips.chain_tip(finality),
        None => tips.chain_tip(Finality::Committed),
    };
    let start = BlockNumber(range.block_from);
    if start.0 > tip.0 {
        return Err(SyncChainMmrError::FutureBlock { chain_tip: tip, block_from: start });
    }
    let end = match range.block_to {
        None => tip,
        Some(number) => if number <= tip.0 {
            BlockNumber(number)
        } else {
            tip
        },
    };
    if start.0 > end.0 {
        return Err(SyncChainMmrError::StartGreaterThanEnd { start, end });
    }
    Ok(BlockRange { start, end })
}

/// An extension of a client's chain.
#[derive(Clone, Debug, PartialEq, Eq)]
pub struct ChainExtension {
    pub block_range: BlockRange,
    pub mmr_delta: ChainDelta,
}

/// Whether an extension is the one of the given range.
pub open spec fn is_chain_extension(
    extension: ChainExtension,
    blocks: Seq<Word>,
    range: BlockRange,
) -> bool {
    &&& extension.block_range == range
    &&& extension.mmr_delta.chain_length == range.end@
    &&& if range.start == range.end {
        extension.mmr_delta.data@.len() == 0
    } else {
        extension.mmr_delta.data@ == chain_delta_of(
            blocks.take(range.end@),
            (range.start@ + 1) as nat,
        )
    }
}

/// The tip at which a chain ends for a client that asks for blocks of a finality.
pub open spec fn effective_tip(
    finality: Option<Finality>,
    committed: BlockNumber,
    proven: BlockNumber,
) -> BlockNumber {
    if finality == Some(Finality::Proven) {
        proven
    } else {
        committed
    }
}

/// Computes the extension of a client's chain that a request asks for. The header of the block that its
/// range ends with is still to be read.
pub fn extend_chain(
    inner: &InnerState,
    request: Option<RequestedRange>,
    finality: Option<Finality>,
    proven: BlockNumber,
) -> (r: Result<ChainExtension, SyncChainMmrError>)
    requires
        inner@.is_valid(),
        proven@ <= inner@.tip()@,
    ensures
        match chain_range(request, effective_tip(finality, inner@.tip(), proven)) {
            Err(error) => r == Err::<ChainExtension, SyncChainMmrError>(error),
            Ok(range) => r matches Ok(extension) && is_chain_extension(
                extension,
                inner@.blocks,
                range,
            ),
        },
        match (request, finality) {
            (None, _) => r == Err::<ChainExtension, SyncChainMmrError>(
                SyncChainMmrError::MissingBlockRange,
            ),
            (Some(range), Some(Finality::Proven)) => if range.block_from > proven.0 {
                r == Err::<ChainExtension, SyncChainMmrError>(
                    SyncChainMmrError::FutureBlock {
                        chain_tip: proven,
                        block_from: BlockNumber(range.block_from),
                    },
                )
            } else {
                &&& range.block_to is None || range.block_to->0 > proven.0 ==> (r matches Ok(
                    extension,
                ) && extension.block_range.end == proven)
                &&& r matches Ok(extension) ==> extension.block_range.end.0 <= proven.0
            },
            (Some(range), _) => if range.block_from > inner@.blocks.len() - 1 {
                r == Err::<ChainExtension, SyncChainMmrError>(
                    SyncChainMmrError::FutureBlock {
                        chain_tip: BlockNumber((inner@.blocks.len() - 1) as u32),
                        block_from: BlockNumber(range.block_from),
                    },
                )
            } else {
                range.block_to is None || range.block_to->0 > inner@.blocks.len() - 1 ==> (
                r matches Ok(extension) && extension.block_range.end.0 == inner@.blocks.len() - 1)
            },
        },
        match (request, r) {
            (Some(range), Ok(extension)) => extension.block_range.start.0 == range.block_from && (
            range.block_to matches Some(to) ==> extension.block_range.end.0 <= to),
            _ => true,
        },
{
    let tips = ChainTips { committed: inner.latest_block_num(), proven };
    let block_range = match read_chain_range(request, finality, tips) {
        Ok(block_range) => block_range,
        Err(error) => return Err(error),
    };
    match sync_chain_mmr(inner, block_range) {
        Ok(mmr_delta) => Ok(ChainExtension { block_range, mmr_delta }),
        Err(error) => Err(SyncChainMmrError::Internal(error)),
    }
}

/// The answer to a request for an extension of a client's chain, with the header of the block that the
/// range ends with.
#[derive(Clone, Debug, PartialEq, Eq)]
pub struct SyncChainMmrResponse {
    pub block_range: BlockRange,
    pub mmr_delta: ChainDelta,
    pub block_header: SealedHeader,
}

/// Answers a request for an extension of a client's chain. `header` is what the database holds for the
/// block that the range ends with. It holds the headers of all blocks of the chain.
pub fn sync_chain_mmr_response(
    extension: Result<ChainExtension, SyncChainMmrError>,
    header: Result<Option<SealedHeader>, DatabaseError>,
) -> (r: Result<SyncChainMmrResponse, SyncChainMmrError>)
    requires
        extension matches Ok(extension) ==> match header {
            Err(_) => true,
            Ok(None) => false,
            Ok(Some(header)) => header.header.block_num == extension.block_range.end,
        },
    ensures
        match extension {
            Err(error) => r == Err::<SyncChainMmrResponse, SyncChainMmrError>(error),
            Ok(extension) => match header {
                Err(error) => r == Err::<SyncChainMmrResponse, SyncChainMmrError>(
                    SyncChainMmrError::Internal(StateSyncError::DatabaseError(error)),
                ),
                Ok(header) => r == Ok::<SyncChainMmrResponse, SyncChainMmrError>(
                    SyncChainMmrResponse {
                        block_range: extension.block_range,
                        mmr_delta: extension.mmr_delta,
                        block_header: header->0,
                    },
                ),
            },
        },
        r matches Ok(response) ==> response.block_header.header.block_num
            == response.block_range.end,
{
    let ChainExtension { block_range, mmr_delta } = match extension {
        Ok(extension) => extension,
        Err(error) => return Err(error),
    };
    match header {
        Err(error) => Err(SyncChainMmrError::Internal(StateSyncError::DatabaseError(error))),
        Ok(header) => match header {
            Some(block_header) => Ok(
                SyncChainMmrResponse { block_range, mmr_delta, block_header },
            ),
            None => {
                assert(false);
                Err(SyncChainMmrError::Internal(StateSyncError::UnknownBlock(block_range.end)))
            },
        },
    }
}

/// The range that a request stands for ends at the proven tip if only proven blocks are requested, and
/// at the committed tip otherwise, or before that where the request says so. It starts where the request
/// says, and a request that starts past its tip is refused.
pub proof fn lemma_finality_bounds_the_range(
    request: RequestedRange,
    finality: Option<Finality>,
    committed: BlockNumber,
    proven: BlockNumber,
)
    requires
        proven.0 <= committed.0,
    ensures
        ({
            let r = chain_range(Some(request), effective_tip(finality, committed, proven));
            let tip: u32 = match finality {
                Some(Finality::Proven) => proven.0,
                Some(Finality::Committed) => committed.0,
                None => committed.0,
            };
            &&& r is Ok <==> request.block_from <= tip && (request.block_to matches Some(to)
                ==> request.block_from <= to)
            &&& r matches Ok(range) ==> range.start.0 == request.block_from && range.end.0 <= tip
            &&& r matches Ok(range) ==> match request.block_to {
                None => range.end.0 == tip,
                Some(to) => range.end.0 == to || (range.end.0 == tip && tip < to),
            }
            &&& request.block_from > tip <==> r is Err && r->Err_0 is FutureBlock
            &&& r matches Err(SyncChainMmrError::FutureBlock { chain_tip, block_from })
                ==> chain_tip.0 == tip && block_from.0 == request.block_from
        }),
{
}

/// A request for an extension of a client's chain is answered with the requested range, cut at the tip
/// of the requested finality, the extension by that range, and the header of the block that it ends
/// with. A range that starts past the tip, or that ends before it starts, is refused.
pub proof fn lemma_chain_requests_are_answered(
    blocks: Seq<Word>,
    request: RequestedRange,
    tip: BlockNumber,
    extension: Result<ChainExtension, SyncChainMmrError>,
    header: SealedHeader,
    answer: Result<SyncChainMmrResponse, SyncChainMmrError>,
)
    requires
        match chain_range(Some(request), tip) {
            Err(error) => extension == Err::<ChainExtension, SyncChainMmrError>(error),
            Ok(range) => extension matches Ok(extension) && is_chain_extension(
                extension,
                blocks,
                range,
            ),
        },
        match extension {
            Err(error) => answer == Err::<SyncChainMmrResponse, SyncChainMmrError>(error),
            Ok(extension) => answer == Ok::<SyncChainMmrResponse, SyncChainMmrError>(
                SyncChainMmrResponse {
                    block_range: extension.block_range,
                    mmr_delta: extension.mmr_delta,
                    block_header: header,
                },
            ) && header.header.block_num == extension.block_range.end,
        },
    ensures
        ({
            let from = BlockNumber(request.block_from);
            let to = match request.block_to {
                Some(to) if to <= tip.0 => BlockNumber(to),
                _ => tip,
            };
            if from.0 > tip.0 {
                answer == Err::<SyncChainMmrResponse, SyncChainMmrError>(
                    SyncChainMmrError::FutureBlock { chain_tip: tip, block_from: from },
                )
            } else if from.0 > to.0 {
                answer == Err::<SyncChainMmrResponse, SyncChainMmrError>(
                    SyncChainMmrError::StartGreaterThanEnd { start: from, end: to },
                )
            } else {
                &&& answer matches Ok(response)
                &&& response.block_range == (BlockRange { start: from, end: to })
                &&& response.block_header == header
                &&& header.header.block_num == to
            }
        }),
{
}

// ACCOUNTS
// ================================================================================================

/// Checks a request for the changes of an account's vault or storage maps.
pub fn check_public_account(account_id: AccountId) -> (r: Result<(), AccountNotPublic>)
    ensures
        r == (if account_id.has_public_state() {
            Ok::<(), AccountNotPublic>(())
        } else {
            Err(AccountNotPublic(account_id))
        }),
{
    if !account_id.has_public_state() {
        return Err(AccountNotPublic(account_id));
    }
    Ok(())
}

} // verus!
