//! Blocks that the validator signed, and the checks of what a block holds.

use vstd::prelude::*;

use crate::db::entries::{has_distinct_keys, pairs_by_key};
use crate::db::transactions::BlockNoteIndex;
use crate::db::updates::BlockAccountUpdate;
use crate::errors::InvalidBlockError;
use crate::genesis::{is_signature, verify_signature, SealedHeader};
use crate::notes::check_note_header;
use crate::protocol::{check_account_id, is_valid_account_id};
use crate::state::apply_block::{
    are_output_notes, block_note_tree, commitment_updates, is_body_for, is_note_index, note_leaves,
    note_root, note_root_of, BlockBody, InnerState, OutputNote, MAX_BATCHES_PER_BLOCK,
    MAX_OUTPUT_NOTES_PER_BATCH,
};
use crate::state::trees::{
    are_account_updates, are_canonical, check_created_nullifiers, fits_nullifiers,
};
use crate::word::Word;

verus! {

/// A block with the validator's signature over its header. The signature is encoded.
#[derive(Clone, Debug, PartialEq, Eq)]
pub struct SignedBlock {
    pub sealed: SealedHeader,
    pub body: BlockBody,
    pub signature: Vec<u8>,
}

/// Why parts do not make up a signed block.
#[derive(Clone, Copy, Debug, PartialEq, Eq, Structural)]
pub enum SignedBlockError {
    /// The signature is not one of the header by the validator that the header names.
    InvalidSignature,
    /// The header does not commit to the transactions of the body.
    TxCommitmentMismatch { header: Word, body: Word },
    /// The header does not commit to the notes of the body.
    NoteRootMismatch { header: Word, body: Word },
}

/// The error of parts that do not make up a signed block. Of several the first counts: the
/// signature, the transactions, the notes.
pub open spec fn signed_block_error(
    sealed: SealedHeader,
    body: BlockBody,
    signature: Seq<u8>,
) -> Option<SignedBlockError> {
    let notes = note_root_of(pairs_by_key(note_leaves(body.output_notes@)));
    if !is_signature(signature, sealed.header.commitment, sealed.validator_key@) {
        Some(SignedBlockError::InvalidSignature)
    } else if sealed.header.tx_commitment != body.transactions_commitment {
        Some(
            SignedBlockError::TxCommitmentMismatch {
                header: sealed.header.tx_commitment,
                body: body.transactions_commitment,
            },
        )
    } else if sealed.header.note_root != notes {
        Some(SignedBlockError::NoteRootMismatch { header: sealed.header.note_root, body: notes })
    } else {
        None
    }
}

impl SignedBlock {
    /// Creates a signed block, if its parts belong together.
    pub fn new(sealed: SealedHeader, body: BlockBody, signature: Vec<u8>) -> (r: Result<
        Self,
        SignedBlockError,
    >)
        requires
            are_output_notes(body.output_notes@),
        ensures
            r == (match signed_block_error(sealed, body, signature@) {
                Some(error) => Err::<SignedBlock, SignedBlockError>(error),
                None => Ok(SignedBlock { sealed, body, signature }),
            }),
    {
        if !verify_signature(&signature, sealed.header.commitment, &sealed.validator_key) {
            return Err(SignedBlockError::InvalidSignature);
        }
        if sealed.header.tx_commitment != body.transactions_commitment {
            return Err(
                SignedBlockError::TxCommitmentMismatch {
                    header: sealed.header.tx_commitment,
                    body: body.transactions_commitment,
                },
            );
        }
        let root = note_root(&block_note_tree(&body.output_notes));
        if sealed.header.note_root != root {
            return Err(
                SignedBlockError::NoteRootMismatch { header: sealed.header.note_root, body: root },
            );
        }
        Ok(SignedBlock { sealed, body, signature })
    }
}

// CHECKS
// ================================================================================================

/// Returns whether the updates are of valid accounts with different prefixes, and their commitments
/// are canonical. An update may be there more than once.
pub fn check_account_updates(updates: &Vec<BlockAccountUpdate>) -> (r: bool)
    ensures
        r == are_account_updates(commitment_updates(updates@)),
{
    let ghost pairs = commitment_updates(updates@);
    let mut i: usize = 0;
    while i < updates.len()
        invariant
            i <= updates@.len(),
            pairs == commitment_updates(updates@),
            forall|k: int|
                0 <= k < i ==> is_valid_account_id((#[trigger] pairs[k]).0)
                    && pairs[k].1.is_canonical(),
            forall|j: int, k: int|
                0 <= j < k < i ==> (#[trigger] pairs[j]).0.prefix != (#[trigger] pairs[k]).0.prefix
                    || pairs[j] == pairs[k],
        decreases updates@.len() - i,
    {
        let account_id = updates[i].account_id;
        let commitment = updates[i].final_state_commitment;
        assert(pairs[i as int] == (
            updates@[i as int].account_id,
            updates@[i as int].final_state_commitment,
        ));
        if !check_account_id(account_id) || !commitment.check_canonical() {
            return false;
        }
        let mut j: usize = 0;
        while j < i
            invariant
                j <= i < updates@.len(),
                pairs == commitment_updates(updates@),
                pairs[i as int] == (account_id, commitment),
                forall|k: int|
                    0 <= k < j ==> (#[trigger] pairs[k]).0.prefix != account_id.prefix || pairs[k]
                        == (account_id, commitment),
            decreases i - j,
        {
            let other = &updates[j];
            assert(pairs[j as int] == (other.account_id, other.final_state_commitment));
            if other.account_id.prefix == account_id.prefix && (other.account_id != account_id
                || other.final_state_commitment != commitment) {
                assert(pairs[j as int].0.prefix == pairs[i as int].0.prefix);
                assert(pairs[j as int] != pairs[i as int]);
                return false;
            }
            j = j + 1;
        }
        i = i + 1;
    }
    true
}

/// Checks that a body is one that the trees can take: no header commits to a state after any other
/// body.
pub fn check_body(inner: &InnerState, body: &BlockBody) -> (r: Result<(), InvalidBlockError>)
    ensures
        r is Ok <==> is_body_for(inner@, *body) && are_output_notes(body.output_notes@),
        r matches Err(error) ==> error == (if !(are_canonical(body.created_nullifiers@)
            && fits_nullifiers(inner@.nullifiers, body.created_nullifiers@)) {
            InvalidBlockError::NewBlockInvalidNullifierRoot
        } else if !are_account_updates(commitment_updates(body.updated_accounts@)) {
            InvalidBlockError::NewBlockDuplicateAccountIdPrefix
        } else {
            InvalidBlockError::NewBlockInvalidNoteRoot
        }),
{
    if !check_created_nullifiers(&inner.nullifier_tree, &body.created_nullifiers) {
        return Err(InvalidBlockError::NewBlockInvalidNullifierRoot);
    }
    if !check_account_updates(&body.updated_accounts) {
        return Err(InvalidBlockError::NewBlockDuplicateAccountIdPrefix);
    }
    if !check_output_notes(&body.output_notes) {
        return Err(InvalidBlockError::NewBlockInvalidNoteRoot);
    }
    Ok(())
}

/// Returns whether notes have positions in a block, no two the same, and headers of notes.
pub fn check_output_notes(notes: &Vec<(BlockNoteIndex, OutputNote)>) -> (r: bool)
    ensures
        r == are_output_notes(notes@),
{
    let mut i: usize = 0;
    while i < notes.len()
        invariant
            i <= notes@.len(),
            forall|k: int|
                0 <= k < i ==> is_note_index((#[trigger] notes@[k]).0)
                    && crate::notes::is_note_header(notes@[k].1@.header()),
            forall|j: int, k: int|
                0 <= j < k < i ==> (#[trigger] notes@[j]).0 != (#[trigger] notes@[k]).0,
        decreases notes@.len() - i,
    {
        let index = notes[i].0;
        let header = match &notes[i].1 {
            OutputNote::Public { header, .. } => header,
            OutputNote::Private { header } => header,
        };
        assert(header@ == notes@[i as int].1@.header());
        if index.batch_idx >= MAX_BATCHES_PER_BLOCK || index.note_idx_in_batch
            >= MAX_OUTPUT_NOTES_PER_BATCH || !check_note_header(header) {
            assert(!is_note_index(notes@[i as int].0) || !crate::notes::is_note_header(
                notes@[i as int].1@.header(),
            ));
            return false;
        }
        let mut j: usize = 0;
        while j < i
            invariant
                j <= i < notes@.len(),
                index == notes@[i as int].0,
                forall|k: int| 0 <= k < j ==> (#[trigger] notes@[k]).0 != index,
            decreases i - j,
        {
            if notes[j].0 == index {
                assert(notes@[j as int].0 == notes@[i as int].0);
                assert(!has_distinct_keys(notes@));
                return false;
            }
            j = j + 1;
        }
        i = i + 1;
    }
    true
}

} // verus!
