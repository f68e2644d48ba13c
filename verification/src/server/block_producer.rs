//! The endpoints for the block producer.

use vstd::prelude::*;
use vstd::string::*;

use crate::account_code::has_short_code;
use crate::account_id::AccountId;
use crate::block_number::BlockNumber;
use crate::block_set::BlockSet;
use crate::errors::ApplyBlockError;
use crate::genesis::SealedHeader;
use crate::server::api::{
    conversion_error_to_status, convert_digests_to_words, decoded_batches, digest_words, distinct,
    distinct_words, invalid_argument, is_query_for, ordered_batches_of_bytes, read_block_numbers,
    read_ordered_batches, validate_note_commitments, validate_nullifiers, BatchesError,
    BlockInputsQuery, Code, Digest, Status,
};
use crate::state::apply_block::{are_output_notes, BlockBody};
use crate::state::inputs::{NullifierInfo, TransactionInputs};
use crate::state::signed_block::{check_output_notes, signed_block_error, SignedBlock};
use crate::word::Word;

verus! {

// APPLYING A BLOCK
// ================================================================================================

/// A request to apply a block.
pub struct ApplyBlockRequest {
    /// The encoded batches of the block.
    pub ordered_batches: Vec<u8>,
    /// The header, the body and the signature, unless the request holds no block. A part that could
    /// not be decoded is missing.
    pub block: Option<BlockParts>,
}

/// The parts of a block. The signature is encoded.
pub struct BlockParts {
    pub header: Option<SealedHeader>,
    pub body: Option<BlockBody>,
    pub signature: Option<Vec<u8>>,
}

/// Why a request to apply a block cannot be read.
#[derive(Clone, Copy, Debug, PartialEq, Eq, Structural)]
pub enum ApplyBlockRequestError {
    /// The batches may hold the code of an account with a single procedure, and were not decoded.
    ShortCode,
    /// The batches could not be decoded.
    InvalidBatches,
    /// The request holds no block.
    MissingBlock,
    /// The header could not be decoded.
    InvalidHeader,
    /// The body could not be decoded.
    InvalidBody,
    /// The signature could not be decoded.
    InvalidSignature,
}

/// A request to apply a block that could be read.
pub struct ReadBlock {
    pub sealed: SealedHeader,
    pub body: BlockBody,
    pub signature: Vec<u8>,
    /// What the inputs of the block are requested for.
    pub inputs: BlockInputsQuery,
}

/// The error of a request whose batches could be read: the first part that is missing.
pub open spec fn parts_error(block: Option<BlockParts>) -> Option<ApplyBlockRequestError> {
    match block {
        None => Some(ApplyBlockRequestError::MissingBlock),
        Some(block) => if block.header is None {
            Some(ApplyBlockRequestError::InvalidHeader)
        } else if block.body is None {
            Some(ApplyBlockRequestError::InvalidBody)
        } else if block.signature is None {
            Some(ApplyBlockRequestError::InvalidSignature)
        } else {
            None
        },
    }
}

/// The error of a request to apply a block: the batches come first.
pub open spec fn request_error(request: ApplyBlockRequest) -> Option<ApplyBlockRequestError> {
    if has_short_code(request.ordered_batches@) {
        Some(ApplyBlockRequestError::ShortCode)
    } else if ordered_batches_of_bytes(request.ordered_batches@) is None {
        Some(ApplyBlockRequestError::InvalidBatches)
    } else {
        parts_error(request.block)
    }
}

/// Whether a read block has the parts of a request.
pub open spec fn has_parts(read: ReadBlock, block: BlockParts) -> bool {
    &&& Some(read.sealed) == block.header
    &&& Some(read.body) == block.body
    &&& Some(read.signature) == block.signature
}

/// Reads the parts of a block, given what the inputs of the block are requested for.
pub fn read_block_parts(inputs: BlockInputsQuery, block: Option<BlockParts>) -> (r: Result<
    ReadBlock,
    ApplyBlockRequestError,
>)
    ensures
        match parts_error(block) {
            Some(error) => r == Err::<ReadBlock, ApplyBlockRequestError>(error),
            None => r matches Ok(read) && has_parts(read, block->0) && read.inputs == inputs,
        },
{
    let block = match block {
        Some(block) => block,
        None => return Err(ApplyBlockRequestError::MissingBlock),
    };
    let sealed = match block.header {
        Some(header) => header,
        None => return Err(ApplyBlockRequestError::InvalidHeader),
    };
    let body = match block.body {
        Some(body) => body,
        None => return Err(ApplyBlockRequestError::InvalidBody),
    };
    let signature = match block.signature {
        Some(signature) => signature,
        None => return Err(ApplyBlockRequestError::InvalidSignature),
    };
    Ok(ReadBlock { sealed, body, signature, inputs })
}

/// Reads a request to apply a block. The inputs of the block are requested before the block is
/// applied, since they are stored with it for its proof.
pub fn read_apply_block_request(request: ApplyBlockRequest) -> (r: Result<
    ReadBlock,
    ApplyBlockRequestError,
>)
    ensures
        match request_error(request) {
            Some(error) => r == Err::<ReadBlock, ApplyBlockRequestError>(error),
            None => r matches Ok(read) && has_parts(read, request.block->0) && is_query_for(
                read.inputs,
                decoded_batches(ordered_batches_of_bytes(request.ordered_batches@)->0),
            ),
        },
{
    let inputs = match read_ordered_batches(&request.ordered_batches) {
        Ok(inputs) => inputs,
        Err(BatchesError::ShortCode) => return Err(ApplyBlockRequestError::ShortCode),
        Err(BatchesError::Undecodable) => return Err(ApplyBlockRequestError::InvalidBatches),
    };
    read_block_parts(inputs, request.block)
}

/// Takes the parts of a request as a signed block. Where they do not make up one, or the notes of the
/// body have no positions in a block, nothing is applied.
pub fn take_signed_block(sealed: SealedHeader, body: BlockBody, signature: Vec<u8>) -> (r: Result<
    SignedBlock,
    ApplyOutcome,
>)
    ensures
        match r {
            Ok(block) => {
                &&& are_output_notes(body.output_notes@)
                &&& signed_block_error(sealed, body, signature@) is None
                &&& block == (SignedBlock { sealed, body, signature })
            },
            Err(outcome) => {
                &&& outcome == ApplyOutcome::NotSigned
                &&& are_output_notes(body.output_notes@) ==> signed_block_error(
                    sealed,
                    body,
                    signature@,
                ) is Some
            },
        },
{
    if !check_output_notes(&body.output_notes) {
        return Err(ApplyOutcome::NotSigned);
    }
    match SignedBlock::new(sealed, body, signature) {
        Ok(block) => Ok(block),
        Err(_) => Err(ApplyOutcome::NotSigned),
    }
}

/// What came of a request to apply a block that could be read.
pub enum ApplyOutcome {
    /// The inputs of the block could not be read.
    InputsFailed,
    /// The block is not signed, or its parts do not belong together.
    NotSigned,
    /// The task that applies the block went away.
    TaskFailed,
    /// The block was applied, or it was not.
    Applied(Result<(), ApplyBlockError>),
}

/// The answer to a request to apply a block.
#[derive(Clone, Debug, PartialEq, Eq)]
pub struct ApplyBlockResponse {
    /// The kind of error, if there was one.
    pub code: Option<Code>,
    /// The block that the proof scheduler is told of.
    pub new_tip: Option<BlockNumber>,
}

/// Answers a request to apply a block. The proof scheduler is told of every block that was applied,
/// and of no other. A block that is not valid is the fault of the caller, as are inputs that cannot
/// be read.
pub fn apply_block_response(block_num: BlockNumber, outcome: &ApplyOutcome) -> (r:
    ApplyBlockResponse)
    ensures
        r.new_tip == (if *outcome matches ApplyOutcome::Applied(Ok(_)) {
            Some(block_num)
        } else {
            None
        }),
        r.code == (match *outcome {
            ApplyOutcome::Applied(Ok(())) => None,
            ApplyOutcome::InputsFailed => Some(Code::InvalidArgument),
            ApplyOutcome::Applied(Err(ApplyBlockError::InvalidBlockError(_))) => Some(
                Code::InvalidArgument,
            ),
            _ => Some(Code::Internal),
        }),
{
    match outcome {
        ApplyOutcome::InputsFailed => ApplyBlockResponse {
            code: Some(Code::InvalidArgument),
            new_tip: None,
        },
        ApplyOutcome::NotSigned => ApplyBlockResponse { code: Some(Code::Internal), new_tip: None },
        ApplyOutcome::TaskFailed => ApplyBlockResponse {
            code: Some(Code::Internal),
            new_tip: None,
        },
        ApplyOutcome::Applied(Ok(())) => ApplyBlockResponse {
            code: None,
            new_tip: Some(block_num),
        },
        ApplyOutcome::Applied(Err(ApplyBlockError::InvalidBlockError(_))) => ApplyBlockResponse {
            code: Some(Code::InvalidArgument),
            new_tip: None,
        },
        ApplyOutcome::Applied(Err(_)) => ApplyBlockResponse {
            code: Some(Code::Internal),
            new_tip: None,
        },
    }
}

// INPUTS
// ================================================================================================

/// Reads a request for the inputs of a block. The note commitments are a set.
pub fn read_block_inputs_request(
    account_ids: Vec<AccountId>,
    nullifiers: &Vec<Digest>,
    unauthenticated_notes: &Vec<Digest>,
    reference_blocks: &Vec<u32>,
) -> (r: Result<BlockInputsQuery, Status>)
    ensures
        match (digest_words(nullifiers@), digest_words(unauthenticated_notes@)) {
            (Err(_), _) => r matches Err(status) && status.code == Code::InvalidArgument
                && status.message@ == "Invalid nullifier format"@,
            (Ok(_), Err(_)) => r matches Err(status) && status.code == Code::InvalidArgument
                && status.message@ == "Digest field is not in the modulus range"@,
            (Ok(nullifiers), Ok(notes)) => r matches Ok(query) && {
                &&& query.account_ids == account_ids
                &&& query.nullifiers@ == nullifiers
                &&& query.unauthenticated_note_commitments@ == distinct(notes)
                &&& query.reference_blocks.is_valid()
                &&& query.reference_blocks@ == reference_blocks@.map_values(
                    |number: u32| BlockNumber(number),
                ).to_set()
            },
        },
{
    let nullifiers = match validate_nullifiers(nullifiers) {
        Ok(nullifiers) => nullifiers,
        Err(error) => return Err(conversion_error_to_status(&error)),
    };
    let notes = match validate_note_commitments(unauthenticated_notes) {
        Ok(notes) => notes,
        Err(status) => return Err(status),
    };
    Ok(
        BlockInputsQuery {
            account_ids,
            nullifiers,
            unauthenticated_note_commitments: distinct_words(&notes),
            reference_blocks: read_block_numbers(reference_blocks),
        },
    )
}

/// What the inputs of a batch are requested for.
#[derive(Clone, Debug, PartialEq, Eq)]
pub struct BatchInputsQuery {
    pub note_commitments: Vec<Word>,
    pub reference_blocks: BlockSet,
}

/// Reads a request for the inputs of a batch. The note commitments are a set.
pub fn read_batch_inputs_request(note_commitments: &Vec<Digest>, reference_blocks: &Vec<u32>) -> (r:
    Result<BatchInputsQuery, Status>)
    ensures
        match digest_words(note_commitments@) {
            Err(_) => r matches Err(status) && status.code == Code::InvalidArgument
                && status.message@ == "Invalid note commitment"@,
            Ok(notes) => r matches Ok(query) && {
                &&& query.note_commitments@ == distinct(notes)
                &&& query.reference_blocks.is_valid()
                &&& query.reference_blocks@ == reference_blocks@.map_values(
                    |number: u32| BlockNumber(number),
                ).to_set()
            },
        },
{
    let notes = match convert_digests_to_words(note_commitments) {
        Ok(notes) => notes,
        Err(_) => return Err(invalid_argument("Invalid note commitment")),
    };
    Ok(
        BatchInputsQuery {
            note_commitments: distinct_words(&notes),
            reference_blocks: read_block_numbers(reference_blocks),
        },
    )
}

/// What the inputs of a transaction are requested for.
#[derive(Clone, Debug, PartialEq, Eq)]
pub struct TransactionInputsQuery {
    pub nullifiers: Vec<Word>,
    pub unauthenticated_note_commitments: Vec<Word>,
}

/// Reads a request for the inputs of a transaction.
pub fn read_transaction_inputs_request(
    nullifiers: &Vec<Digest>,
    unauthenticated_notes: &Vec<Digest>,
) -> (r: Result<TransactionInputsQuery, Status>)
    ensures
        match (digest_words(nullifiers@), digest_words(unauthenticated_notes@)) {
            (Err(_), _) => r matches Err(status) && status.code == Code::InvalidArgument
                && status.message@ == "Invalid nullifier format"@,
            (Ok(_), Err(_)) => r matches Err(status) && status.code == Code::InvalidArgument
                && status.message@ == "Digest field is not in the modulus range"@,
            (Ok(nullifiers), Ok(notes)) => r matches Ok(query) && query.nullifiers@ == nullifiers
                && query.unauthenticated_note_commitments@ == notes,
        },
{
    let nullifiers = match validate_nullifiers(nullifiers) {
        Ok(nullifiers) => nullifiers,
        Err(error) => return Err(conversion_error_to_status(&error)),
    };
    match validate_note_commitments(unauthenticated_notes) {
        Ok(unauthenticated_note_commitments) => Ok(
            TransactionInputsQuery { nullifiers, unauthenticated_note_commitments },
        ),
        Err(status) => Err(status),
    }
}

/// The answer to a request for the inputs of a transaction.
#[derive(Clone, Debug, PartialEq, Eq)]
pub struct TransactionInputsResponse {
    pub account_id: AccountId,
    pub account_commitment: Word,
    pub nullifiers: Vec<NullifierInfo>,
    pub found_unauthenticated_notes: Vec<Word>,
    pub new_account_id_prefix_is_unique: Option<bool>,
    pub block_height: u32,
}

/// Answers a request for the inputs of a transaction.
pub fn transaction_inputs_response(
    account_id: AccountId,
    inputs: TransactionInputs,
    chain_tip: BlockNumber,
) -> (r: TransactionInputsResponse)
    ensures
        r.account_id == account_id,
        r.account_commitment == inputs.account_commitment,
        r.nullifiers == inputs.nullifiers,
        r.found_unauthenticated_notes == inputs.found_unauthenticated_notes,
        r.new_account_id_prefix_is_unique == inputs.new_account_id_prefix_is_unique,
        r.block_height == chain_tip@,
{
    TransactionInputsResponse {
        account_id,
        account_commitment: inputs.account_commitment,
        nullifiers: inputs.nullifiers,
        found_unauthenticated_notes: inputs.found_unauthenticated_notes,
        new_account_id_prefix_is_unique: inputs.new_account_id_prefix_is_unique,
        block_height: chain_tip.as_u32(),
    }
}

// LAWS
// ================================================================================================

/// A request to apply a block is read exactly if its batches can be decoded and the block has a header,
/// a body and a signature, and all of them are taken as they are. The error tells the first part that is
/// missing.
pub proof fn lemma_requests_with_all_parts_are_read(
    request: ApplyBlockRequest,
    result: Result<ReadBlock, ApplyBlockRequestError>,
)
    requires
        match request_error(request) {
            Some(error) => result == Err::<ReadBlock, ApplyBlockRequestError>(error),
            None => result matches Ok(read) && has_parts(read, request.block->0),
        },
    ensures
        result is Ok <==> {
            &&& !has_short_code(request.ordered_batches@)
            &&& ordered_batches_of_bytes(request.ordered_batches@) is Some
            &&& request.block matches Some(block) && block.header is Some && block.body is Some
                && block.signature is Some
        },
        result matches Ok(read) ==> request.block matches Some(block) && block.header == Some(
            read.sealed,
        ) && block.body == Some(read.body) && block.signature == Some(read.signature),
        result matches Err(error) ==> match error {
            ApplyBlockRequestError::ShortCode => has_short_code(request.ordered_batches@),
            ApplyBlockRequestError::InvalidBatches => ordered_batches_of_bytes(
                request.ordered_batches@,
            ) is None,
            ApplyBlockRequestError::MissingBlock => request.block is None,
            ApplyBlockRequestError::InvalidHeader => request.block is Some
                && request.block->0.header is None,
            ApplyBlockRequestError::InvalidBody => request.block is Some
                && request.block->0.header is Some && request.block->0.body is None,
            ApplyBlockRequestError::InvalidSignature => request.block is Some
                && request.block->0.header is Some && request.block->0.body is Some
                && request.block->0.signature is None,
        },
{
}

} // verus!
