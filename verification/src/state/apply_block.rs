//! Applying a block: the checks that come before any change, and the change of the state in memory
//! once the block is stored.

use miden_protocol::block::account_tree::AccountMutationSet;
use miden_protocol::block::nullifier_tree::NullifierMutationSet;
use miden_protocol::block::{
    BlockNoteIndex as ProtocolNoteIndex, BlockNoteTree, Blockchain,
};
use miden_protocol::note::{NoteId, NoteMetadata as ProtocolNoteMetadata};
use miden_protocol::utils::serde::{Deserializable, Serializable};
use miden_protocol::Felt;
use vstd::prelude::*;

use crate::account_id::AccountId;
use crate::block_number::BlockNumber;
use crate::bytes::copy_bytes;
use crate::db::entries::{has_distinct_keys, pairs_by_key};
use crate::db::transactions::BlockNoteIndex;
use crate::db::updates::BlockAccountUpdate;
use crate::errors::{ApplyBlockError, InvalidBlockError};
use crate::notes::{is_note_header, note_commitment, note_commitment_of, NoteHeader, NoteHeaderView};
use crate::state::trees::{
    account_root, account_root_of, account_states, accounts_after, accounts_before, any_conflict,
    any_spent, apply_account_changes, apply_nullifier_changes, are_account_updates, are_canonical,
    chain_blocks, chain_commitment, chain_commitment_of, chain_tip, changed_account_root,
    changed_nullifier_root, commitment_in, compute_account_changes, compute_nullifier_changes,
    conflicts_with, fits_nullifiers, has_unique_prefixes, new_chain, nullifier_block_num,
    nullifier_blocks, nullifier_root, nullifier_root_of, nullifiers_after, nullifiers_before,
    push_block, with_spent, with_updates, AccountCommitments, SpentNullifiers,
};
use crate::word::Word;

verus! {

// STATE IN MEMORY
// ================================================================================================

/// The state that changes with each block.
pub struct InnerState {
    pub nullifier_tree: SpentNullifiers,
    pub blockchain: Blockchain,
    pub account_tree: AccountCommitments,
}

/// What the state holds.
#[verifier::ext_equal]
pub struct InnerView {
    pub nullifiers: vstd::map::Map<Word, BlockNumber>,
    pub blocks: Seq<Word>,
    pub accounts: vstd::map::Map<AccountId, Word>,
}

impl View for InnerState {
    type V = InnerView;

    open spec fn view(&self) -> InnerView {
        InnerView {
            nullifiers: nullifier_blocks(self.nullifier_tree),
            blocks: chain_blocks(self.blockchain),
            accounts: account_states(self.account_tree),
        }
    }
}

impl InnerView {
    /// Whether there is a genesis block, the number of blocks is in range, and no two accounts have
    /// the same prefix.
    pub open spec fn is_valid(self) -> bool {
        &&& 0 < self.blocks.len() <= u32::MAX
        &&& has_unique_prefixes(self.accounts)
    }

    /// The number of the latest block.
    pub open spec fn tip(self) -> BlockNumber {
        BlockNumber((self.blocks.len() - 1) as u32)
    }
}

impl InnerState {
    /// Creates the state of a chain that consists of the genesis block.
    pub fn new(genesis_commitment: Word) -> (r: Self)
        requires
            genesis_commitment.is_canonical(),
        ensures
            r@.is_valid(),
            r@.blocks == seq![genesis_commitment],
            r@.nullifiers == vstd::map::Map::<Word, BlockNumber>::empty(),
            r@.accounts == vstd::map::Map::<AccountId, Word>::empty(),
    {
        let mut blockchain = new_chain();
        push_block(&mut blockchain, genesis_commitment);
        InnerState {
            nullifier_tree: SpentNullifiers::new(),
            blockchain,
            account_tree: AccountCommitments::new(),
        }
    }

    /// Returns the number of the latest block.
    pub fn latest_block_num(&self) -> (r: BlockNumber)
        requires
            self@.is_valid(),
        ensures
            r == self@.tip(),
            r.0 == self@.blocks.len() - 1,
    {
        match chain_tip(&self.blockchain) {
            Some(block_num) => block_num,
            None => BlockNumber::genesis(),
        }
    }
}

// BLOCKS
// ================================================================================================

/// The header of a block, with the commitment to it.
#[derive(Clone, Copy, Debug, PartialEq, Eq, Structural)]
pub struct BlockHeader {
    pub block_num: BlockNumber,
    pub commitment: Word,
    pub prev_block_commitment: Word,
    pub chain_commitment: Word,
    pub account_root: Word,
    pub nullifier_root: Word,
    pub note_root: Word,
    pub tx_commitment: Word,
}

/// A note that a block creates. The details of a public note are encoded. What is attached to a note is
/// a part of the metadata in its header.
#[derive(Clone, Debug, PartialEq, Eq)]
pub enum OutputNote {
    /// A note whose details are public.
    Public { header: NoteHeader, details: Vec<u8>, nullifier: Word },
    /// A note of which only the header is known.
    Private { header: NoteHeader },
}

/// What a note that a block creates holds.
pub enum OutputNoteView {
    Public { header: NoteHeaderView, details: Seq<u8>, nullifier: Word },
    Private { header: NoteHeaderView },
}

impl View for OutputNote {
    type V = OutputNoteView;

    open spec fn view(&self) -> OutputNoteView {
        match self {
            OutputNote::Public { header, details, nullifier } => OutputNoteView::Public {
                header: header@,
                details: details@,
                nullifier: *nullifier,
            },
            OutputNote::Private { header } => OutputNoteView::Private { header: header@ },
        }
    }
}

impl OutputNoteView {
    /// The header of the note.
    pub open spec fn header(self) -> NoteHeaderView {
        match self {
            OutputNoteView::Public { header, .. } => header,
            OutputNoteView::Private { header } => header,
        }
    }
}

/// The body of a block, with the commitment to its transactions.
#[derive(Clone, Debug, PartialEq, Eq)]
pub struct BlockBody {
    pub transactions_commitment: Word,
    pub updated_accounts: Vec<BlockAccountUpdate>,
    pub created_nullifiers: Vec<Word>,
    pub output_notes: Vec<(BlockNoteIndex, OutputNote)>,
}

/// The updates of accounts as the account tree takes them.
pub open spec fn commitment_updates(updates: Seq<BlockAccountUpdate>) -> Seq<(AccountId, Word)> {
    updates.map_values(
        |update: BlockAccountUpdate| (update.account_id, update.final_state_commitment),
    )
}

/// The number of batches of a block is smaller than this.
pub const MAX_BATCHES_PER_BLOCK: usize = 64;

/// The number of output notes of a batch is at most this.
pub const MAX_OUTPUT_NOTES_PER_BATCH: usize = 1024;

/// Whether the position is one of a note in a block.
pub open spec fn is_note_index(index: BlockNoteIndex) -> bool {
    index.batch_idx < MAX_BATCHES_PER_BLOCK && index.note_idx_in_batch < MAX_OUTPUT_NOTES_PER_BATCH
}

/// Whether notes have positions in a block, no two the same, and headers of notes.
pub open spec fn are_output_notes(notes: Seq<(BlockNoteIndex, OutputNote)>) -> bool {
    &&& has_distinct_keys(notes)
    &&& forall|i: int|
        0 <= i < notes.len() ==> is_note_index((#[trigger] notes[i]).0) && is_note_header(
            notes[i].1@.header(),
        )
}

/// Whether a body is one that the trees can take: canonical nullifiers, not too many of them alike,
/// and updates of valid accounts with different prefixes, though an update may be there more than once.
pub open spec fn is_body_for(inner: InnerView, body: BlockBody) -> bool {
    &&& are_canonical(body.created_nullifiers@)
    &&& fits_nullifiers(inner.nullifiers, body.created_nullifiers@)
    &&& are_account_updates(commitment_updates(body.updated_accounts@))
}

// HEADER VALIDATION
// ================================================================================================

/// The error of a header that does not fit its body or the previous block, if it does not.
pub open spec fn header_error(
    header: BlockHeader,
    body: BlockBody,
    prev_block: Option<BlockHeader>,
) -> Option<ApplyBlockError> {
    if header.tx_commitment != body.transactions_commitment {
        Some(
            ApplyBlockError::InvalidBlockError(
                InvalidBlockError::InvalidBlockTxCommitment {
                    expected: body.transactions_commitment,
                    actual: header.tx_commitment,
                },
            ),
        )
    } else {
        match prev_block {
            None => Some(ApplyBlockError::DbBlockHeaderEmpty),
            Some(prev) => if header.block_num@ != prev.block_num@ + 1 {
                Some(
                    ApplyBlockError::InvalidBlockError(
                        InvalidBlockError::NewBlockInvalidBlockNum {
                            expected: BlockNumber((prev.block_num@ + 1) as u32),
                            submitted: header.block_num,
                        },
                    ),
                )
            } else if header.prev_block_commitment != prev.commitment {
                Some(
                    ApplyBlockError::InvalidBlockError(
                        InvalidBlockError::NewBlockInvalidPrevCommitment,
                    ),
                )
            } else {
                None
            },
        }
    }
}

/// Checks that a header fits its body and comes next after the latest block of the database.
pub fn validate_block_header(
    header: &BlockHeader,
    body: &BlockBody,
    prev_block: &Option<BlockHeader>,
) -> (r: Result<(), ApplyBlockError>)
    requires
        prev_block matches Some(prev) ==> prev.block_num@ < u32::MAX,
    ensures
        match header_error(*header, *body, *prev_block) {
            Some(error) => r == Err::<(), ApplyBlockError>(error),
            None => r is Ok,
        },
{
    if header.tx_commitment != body.transactions_commitment {
        return Err(
            ApplyBlockError::InvalidBlockError(
                InvalidBlockError::InvalidBlockTxCommitment {
                    expected: body.transactions_commitment,
                    actual: header.tx_commitment,
                },
            ),
        );
    }
    let prev = match prev_block {
        Some(prev) => prev,
        None => return Err(ApplyBlockError::DbBlockHeaderEmpty),
    };
    let expected = prev.block_num.child();
    if header.block_num != expected {
        return Err(
            ApplyBlockError::InvalidBlockError(
                InvalidBlockError::NewBlockInvalidBlockNum {
                    expected,
                    submitted: header.block_num,
                },
            ),
        );
    }
    if header.prev_block_commitment != prev.commitment {
        return Err(
            ApplyBlockError::InvalidBlockError(InvalidBlockError::NewBlockInvalidPrevCommitment),
        );
    }
    Ok(())
}

// TREE MUTATIONS
// ================================================================================================

/// The changes of the trees by a block, with the roots of the trees that they were computed for.
pub struct TreeMutations {
    pub nullifier_tree_old_root: Word,
    pub nullifier_tree_update: NullifierMutationSet,
    pub account_tree_old_root: Word,
    pub account_tree_update: AccountMutationSet,
}

/// The state after a block.
pub open spec fn state_after(inner: InnerView, header: BlockHeader, body: BlockBody) -> InnerView {
    InnerView {
        nullifiers: with_spent(inner.nullifiers, body.created_nullifiers@, header.block_num),
        blocks: inner.blocks.push(header.commitment),
        accounts: with_updates(inner.accounts, commitment_updates(body.updated_accounts@)),
    }
}

/// Whether changes turn the trees of a state into those of another one.
pub open spec fn are_mutations(
    mutations: TreeMutations,
    before: InnerView,
    after: InnerView,
) -> bool {
    &&& mutations.nullifier_tree_old_root == nullifier_root_of(before.nullifiers)
    &&& mutations.account_tree_old_root == account_root_of(before.accounts)
    &&& nullifiers_before(mutations.nullifier_tree_update) == before.nullifiers
    &&& nullifiers_after(mutations.nullifier_tree_update) == after.nullifiers
    &&& accounts_before(mutations.account_tree_update) == before.accounts
    &&& accounts_after(mutations.account_tree_update) == after.accounts
}

/// The nullifiers that are spent already, in order.
pub open spec fn spent_among(
    spent: vstd::map::Map<Word, BlockNumber>,
    nullifiers: Seq<Word>,
) -> Seq<Word> {
    nullifiers.filter(|nullifier: Word| spent.contains_key(nullifier))
}

fn find_spent(tree: &SpentNullifiers, nullifiers: &Vec<Word>) -> (r: Vec<Word>)
    requires
        are_canonical(nullifiers@),
    ensures
        r@ == spent_among(nullifier_blocks(*tree), nullifiers@),
        r@.len() > 0 <==> any_spent(nullifier_blocks(*tree), nullifiers@),
{
    let ghost spent = nullifier_blocks(*tree);
    let ghost is_spent = |nullifier: Word| spent.contains_key(nullifier);
    let mut found: Vec<Word> = Vec::new();
    let mut i: usize = 0;
    proof {
        reveal(Seq::filter);
        assert(nullifiers@.take(0).filter(is_spent) =~= Seq::empty());
    }
    while i < nullifiers.len()
        invariant
            i <= nullifiers@.len(),
            are_canonical(nullifiers@),
            spent == nullifier_blocks(*tree),
            is_spent == (|nullifier: Word| spent.contains_key(nullifier)),
            found@ == nullifiers@.take(i as int).filter(is_spent),
            found@.len() > 0 <==> any_spent(spent, nullifiers@.take(i as int)),
        decreases nullifiers@.len() - i,
    {
        let ghost before = nullifiers@.take(i as int);
        let ghost upto = nullifiers@.take(i + 1);
        proof {
            reveal(Seq::filter);
            assert(upto.drop_last() =~= before);
            assert(upto.last() == nullifiers@[i as int]);
        }
        let nullifier = nullifiers[i];
        if nullifier_block_num(tree, nullifier).is_some() {
            found.push(nullifier);
            assert(spent.contains_key(upto[i as int]));
        } else {
            proof {
                if any_spent(spent, before) {
                    let k = choose|k: int|
                        0 <= k < before.len() && spent.contains_key(#[trigger] before[k]);
                    assert(spent.contains_key(upto[k]));
                }
                if any_spent(spent, upto) {
                    let k = choose|k: int|
                        0 <= k < upto.len() && spent.contains_key(#[trigger] upto[k]);
                    assert(k < i);
                    assert(spent.contains_key(before[k]));
                }
            }
        }
        i = i + 1;
    }
    assert(nullifiers@.take(i as int) =~= nullifiers@);
    found
}

fn collect_commitment_updates(updates: &Vec<BlockAccountUpdate>) -> (r: Vec<(AccountId, Word)>)
    ensures
        r@ == commitment_updates(updates@),
{
    let mut pairs: Vec<(AccountId, Word)> = Vec::new();
    let mut i: usize = 0;
    while i < updates.len()
        invariant
            i <= updates@.len(),
            pairs@ =~= commitment_updates(updates@).take(i as int),
        decreases updates@.len() - i,
    {
        pairs.push((updates[i].account_id, updates[i].final_state_commitment));
        i = i + 1;
    }
    assert(pairs@ =~= commitment_updates(updates@));
    pairs
}

/// Whether the trees and the chain take a block: its nullifiers are not spent, it adds no account with
/// the prefix of another one, and its header commits to the chain before and the trees after it.
pub open spec fn trees_accept(inner: InnerView, header: BlockHeader, body: BlockBody) -> bool {
    let after = state_after(inner, header, body);
    &&& !any_spent(inner.nullifiers, body.created_nullifiers@)
    &&& chain_commitment_of(inner.blocks) == header.chain_commitment
    &&& nullifier_root_of(after.nullifiers) == header.nullifier_root
    &&& !any_conflict(inner.accounts, commitment_updates(body.updated_accounts@))
    &&& account_root_of(after.accounts) == header.account_root
}

/// Whether the error says why the trees and the chain do not take a block. Of several reasons the
/// first counts, in the order of the cases.
pub open spec fn is_tree_error(
    inner: InnerView,
    header: BlockHeader,
    body: BlockBody,
    error: InvalidBlockError,
) -> bool {
    let after = state_after(inner, header, body);
    if any_spent(inner.nullifiers, body.created_nullifiers@) {
        error matches InvalidBlockError::DuplicatedNullifiers(found) && found@ == spent_among(
            inner.nullifiers,
            body.created_nullifiers@,
        )
    } else if chain_commitment_of(inner.blocks) != header.chain_commitment {
        error == InvalidBlockError::NewBlockInvalidChainCommitment
    } else if nullifier_root_of(after.nullifiers) != header.nullifier_root {
        error == InvalidBlockError::NewBlockInvalidNullifierRoot
    } else if any_conflict(inner.accounts, commitment_updates(body.updated_accounts@)) {
        error == InvalidBlockError::NewBlockDuplicateAccountIdPrefix
    } else {
        &&& account_root_of(after.accounts) != header.account_root
        &&& error == InvalidBlockError::NewBlockInvalidAccountRoot
    }
}

/// Computes the changes of the trees by a block, and checks that the header commits to the chain
/// before the block and to the trees after it.
pub fn compute_tree_mutations(inner: &InnerState, header: &BlockHeader, body: &BlockBody) -> (r:
    Result<TreeMutations, InvalidBlockError>)
    requires
        inner@.is_valid(),
        is_body_for(inner@, *body),
        header.block_num@ > 0,
    ensures
        r is Ok <==> trees_accept(inner@, *header, *body),
        r matches Ok(mutations) ==> are_mutations(
            mutations,
            inner@,
            state_after(inner@, *header, *body),
        ),
        r matches Err(error) ==> is_tree_error(inner@, *header, *body, error),
{
    let duplicates = find_spent(&inner.nullifier_tree, &body.created_nullifiers);
    if duplicates.len() > 0 {
        return Err(InvalidBlockError::DuplicatedNullifiers(duplicates));
    }
    if chain_commitment(&inner.blockchain) != header.chain_commitment {
        return Err(InvalidBlockError::NewBlockInvalidChainCommitment);
    }
    let nullifier_tree_update = match compute_nullifier_changes(
        &inner.nullifier_tree,
        &body.created_nullifiers,
        header.block_num,
    ) {
        Some(changes) => changes,
        None => return Err(InvalidBlockError::DuplicatedNullifiers(duplicates)),
    };
    if changed_nullifier_root(&nullifier_tree_update) != header.nullifier_root {
        return Err(InvalidBlockError::NewBlockInvalidNullifierRoot);
    }
    let updates = collect_commitment_updates(&body.updated_accounts);
    let account_tree_update = match compute_account_changes(&inner.account_tree, &updates) {
        Some(changes) => changes,
        None => return Err(InvalidBlockError::NewBlockDuplicateAccountIdPrefix),
    };
    if changed_account_root(&account_tree_update) != header.account_root {
        return Err(InvalidBlockError::NewBlockInvalidAccountRoot);
    }
    Ok(
        TreeMutations {
            nullifier_tree_old_root: nullifier_root(&inner.nullifier_tree),
            nullifier_tree_update,
            account_tree_old_root: account_root(&inner.account_tree),
            account_tree_update,
        },
    )
}

// NOTE RECORDS
// ================================================================================================

/// The tree of the notes of a block.
#[verifier::external_type_specification]
#[verifier::external_body]
pub struct ExBlockNoteTree(BlockNoteTree);

/// The commitments to the notes of a tree by their positions.
pub uninterp spec fn note_tree_leaves(tree: BlockNoteTree) -> vstd::map::Map<BlockNoteIndex, Word>;

/// The root that `BlockNoteTree::root` returns for a tree of the given notes.
pub uninterp spec fn note_root_of(leaves: vstd::map::Map<BlockNoteIndex, Word>) -> Word;

/// The encoding of the path that `BlockNoteTree::open` returns for a position in a tree of the given
/// notes.
pub uninterp spec fn note_path_of(
    leaves: vstd::map::Map<BlockNoteIndex, Word>,
    index: BlockNoteIndex,
) -> Seq<u8>;

/// The commitments to notes with their positions.
pub open spec fn note_leaves(notes: Seq<(BlockNoteIndex, OutputNote)>) -> Seq<
    (BlockNoteIndex, Word),
> {
    notes.map_values(
        |note: (BlockNoteIndex, OutputNote)| (note.0, note_commitment_of(note.1@.header())),
    )
}

/// The commitments to notes with their positions.
pub open spec fn header_leaves(headers: Seq<(BlockNoteIndex, &NoteHeader)>) -> Seq<
    (BlockNoteIndex, Word),
> {
    headers.map_values(
        |entry: (BlockNoteIndex, &NoteHeader)| (entry.0, note_commitment_of(entry.1@)),
    )
}

/// Builds the tree of notes by `BlockNoteTree::with_entries`, whose leaves are the commitments to the
/// notes.
#[verifier::external_body]
fn note_tree_of_headers(headers: &Vec<(BlockNoteIndex, &NoteHeader)>) -> (r: BlockNoteTree)
    requires
        has_distinct_keys(headers@),
        forall|i: int|
            0 <= i < headers@.len() ==> is_note_index((#[trigger] headers@[i]).0) && is_note_header(
                headers@[i].1@,
            ),
    ensures
        note_tree_leaves(r) == pairs_by_key(header_leaves(headers@)),
{
    let metadata: Vec<_> = headers.iter().map(
        |(_, header)| ProtocolNoteMetadata::read_from_bytes(&header.metadata).expect("metadata"),
    ).collect();
    let entries = headers.iter().zip(metadata.iter()).map(|((index, header), metadata)| {
        let index = ProtocolNoteIndex::new(index.batch_idx, index.note_idx_in_batch);
        let Word(a, b, c, d) = header.note_id;
        (index.expect("position"), NoteId::from_raw([a, b, c, d].map(Felt::new).into()), metadata)
    });
    BlockNoteTree::with_entries(entries).expect("notes with different positions")
}

/// Builds the tree of notes, whose leaves are the commitments to the notes.
pub(crate) fn block_note_tree(notes: &Vec<(BlockNoteIndex, OutputNote)>) -> (r: BlockNoteTree)
    requires
        are_output_notes(notes@),
    ensures
        note_tree_leaves(r) == pairs_by_key(note_leaves(notes@)),
{
    let mut headers: Vec<(BlockNoteIndex, &NoteHeader)> = Vec::new();
    let mut i: usize = 0;
    while i < notes.len()
        invariant
            i <= notes@.len(),
            headers@.len() == i,
            forall|k: int|
                0 <= k < i ==> (#[trigger] headers@[k]).0 == notes@[k].0 && headers@[k].1@
                    == notes@[k].1@.header(),
        decreases notes@.len() - i,
    {
        let header = match &notes[i].1 {
            OutputNote::Public { header, .. } => header,
            OutputNote::Private { header } => header,
        };
        headers.push((notes[i].0, header));
        i = i + 1;
    }
    proof {
        assert forall|k: int| 0 <= k < headers@.len() implies is_note_index(
            (#[trigger] headers@[k]).0,
        ) && is_note_header(headers@[k].1@) by {
            assert(is_note_index(notes@[k].0));
        }
        assert(has_distinct_keys(headers@)) by {
            assert forall|j: int, k: int| 0 <= j < k < headers@.len() implies (
            #[trigger] headers@[j]).0 != (#[trigger] headers@[k]).0 by {
                assert(notes@[j].0 != notes@[k].0);
            }
        }
        assert(header_leaves(headers@) =~= note_leaves(notes@));
    }
    note_tree_of_headers(&headers)
}

/// The root of the tree of notes by `BlockNoteTree::root`.
#[verifier::external_body]
pub(crate) fn note_root(tree: &BlockNoteTree) -> (r: Word)
    ensures
        r == note_root_of(note_tree_leaves(*tree)),
{
    let [a, b, c, d] = tree.root().into_elements().map(|element| element.as_canonical_u64());
    Word(a, b, c, d)
}

/// The encoded path to a position by `BlockNoteTree::open`.
#[verifier::external_body]
pub(crate) fn note_path(tree: &BlockNoteTree, index: BlockNoteIndex) -> (r: Vec<u8>)
    requires
        is_note_index(index),
    ensures
        r@ == note_path_of(note_tree_leaves(*tree), index),
{
    let index = ProtocolNoteIndex::new(index.batch_idx, index.note_idx_in_batch);
    tree.open(index.expect("position in a block")).to_bytes()
}

/// A note as it is stored, with the proof that its block created it. Metadata, details and path are
/// encoded. What is attached to a note is a part of its metadata (`NoteMetadata::attachment`), so that
/// the record has no field of its own for it.
#[derive(Clone, Debug, PartialEq, Eq)]
pub struct NoteRecord {
    pub block_num: BlockNumber,
    pub note_index: BlockNoteIndex,
    pub note_id: Word,
    pub note_commitment: Word,
    pub metadata: Vec<u8>,
    pub details: Option<Vec<u8>>,
    pub inclusion_path: Vec<u8>,
}

/// What the record of a note holds.
#[verifier::ext_equal]
pub struct NoteRecordView {
    pub block_num: BlockNumber,
    pub note_index: BlockNoteIndex,
    pub note_id: Word,
    pub note_commitment: Word,
    pub metadata: Seq<u8>,
    pub details: Option<Seq<u8>>,
    pub inclusion_path: Seq<u8>,
}

impl View for NoteRecord {
    type V = NoteRecordView;

    open spec fn view(&self) -> NoteRecordView {
        NoteRecordView {
            block_num: self.block_num,
            note_index: self.note_index,
            note_id: self.note_id,
            note_commitment: self.note_commitment,
            metadata: self.metadata@,
            details: match self.details {
                None => None,
                Some(details) => Some(details@),
            },
            inclusion_path: self.inclusion_path@,
        }
    }
}

/// The record of a note, and its nullifier if the note is public.
pub open spec fn note_record_of(
    block_num: BlockNumber,
    leaves: vstd::map::Map<BlockNoteIndex, Word>,
    note_index: BlockNoteIndex,
    note: OutputNoteView,
) -> (NoteRecordView, Option<Word>) {
    let (details, nullifier) = match note {
        OutputNoteView::Public { details, nullifier, .. } => (Some(details), Some(nullifier)),
        OutputNoteView::Private { .. } => (None, None),
    };
    let record = NoteRecordView {
        block_num,
        note_index,
        note_id: note.header().note_id,
        note_commitment: note_commitment_of(note.header()),
        metadata: note.header().metadata,
        details,
        inclusion_path: note_path_of(leaves, note_index),
    };
    (record, nullifier)
}

/// The views of the records of notes.
pub open spec fn record_views(records: Seq<(NoteRecord, Option<Word>)>) -> Seq<
    (NoteRecordView, Option<Word>),
> {
    records.map_values(|record: (NoteRecord, Option<Word>)| (record.0@, record.1))
}

/// The records of the notes of a block, in order.
pub open spec fn note_records_of(header: BlockHeader, body: BlockBody) -> Seq<
    (NoteRecordView, Option<Word>),
> {
    let leaves = pairs_by_key(note_leaves(body.output_notes@));
    body.output_notes@.map_values(
        |note: (BlockNoteIndex, OutputNote)|
            note_record_of(header.block_num, leaves, note.0, note.1@),
    )
}

/// Builds the records of the notes of a block, and checks that the header commits to the notes.
pub fn build_note_records(header: &BlockHeader, body: &BlockBody) -> (r: Result<
    Vec<(NoteRecord, Option<Word>)>,
    InvalidBlockError,
>)
    requires
        are_output_notes(body.output_notes@),
    ensures
        if !commits_to_notes(*header, *body) {
            r == Err::<Vec<(NoteRecord, Option<Word>)>, InvalidBlockError>(
                InvalidBlockError::NewBlockInvalidNoteRoot,
            )
        } else {
            r matches Ok(records) && record_views(records@) == note_records_of(*header, *body)
        },
{
    let tree = block_note_tree(&body.output_notes);
    if note_root(&tree) != header.note_root {
        return Err(InvalidBlockError::NewBlockInvalidNoteRoot);
    }
    let ghost leaves = pairs_by_key(note_leaves(body.output_notes@));
    let mut records: Vec<(NoteRecord, Option<Word>)> = Vec::new();
    let mut i: usize = 0;
    while i < body.output_notes.len()
        invariant
            i <= body.output_notes@.len(),
            are_output_notes(body.output_notes@),
            leaves == pairs_by_key(note_leaves(body.output_notes@)),
            note_tree_leaves(tree) == leaves,
            records@.len() == i,
            forall|k: int|
                0 <= k < i ==> ((#[trigger] records@[k]).0@, records@[k].1) == note_record_of(
                    header.block_num,
                    leaves,
                    body.output_notes@[k].0,
                    body.output_notes@[k].1@,
                ),
        decreases body.output_notes@.len() - i,
    {
        let note_index = body.output_notes[i].0;
        assert(is_note_index(body.output_notes@[i as int].0));
        let (note_header, details, nullifier) = match &body.output_notes[i].1 {
            OutputNote::Public { header, details, nullifier } => (
                header,
                Some(copy_bytes(details)),
                Some(*nullifier),
            ),
            OutputNote::Private { header } => (header, None, None),
        };
        let record = NoteRecord {
            block_num: header.block_num,
            note_index,
            note_id: note_header.note_id,
            note_commitment: note_commitment(note_header),
            metadata: copy_bytes(&note_header.metadata),
            details,
            inclusion_path: note_path(&tree, note_index),
        };
        records.push((record, nullifier));
        i = i + 1;
    }
    assert(record_views(records@) =~= note_records_of(*header, *body));
    Ok(records)
}

// APPLYING A BLOCK
// ================================================================================================

/// A block that passed all checks. Nothing was changed yet.
pub struct PreparedBlock {
    pub header: BlockHeader,
    pub mutations: TreeMutations,
    pub notes: Vec<(NoteRecord, Option<Word>)>,
}

/// Whether a block is valid on top of a state, and of the latest block of the database.
pub open spec fn is_valid_block(
    inner: InnerView,
    header: BlockHeader,
    body: BlockBody,
    prev_block: Option<BlockHeader>,
) -> bool {
    &&& header_error(header, body, prev_block) is None
    &&& trees_accept(inner, header, body)
    &&& commits_to_notes(header, body)
}

/// Whether a header commits to the notes of a body.
pub open spec fn commits_to_notes(header: BlockHeader, body: BlockBody) -> bool {
    note_root_of(pairs_by_key(note_leaves(body.output_notes@))) == header.note_root
}

/// Whether the error says why a block is not valid. Of several reasons the first counts: the header,
/// the trees, the notes.
pub open spec fn is_block_error(
    inner: InnerView,
    header: BlockHeader,
    body: BlockBody,
    prev_block: Option<BlockHeader>,
    error: ApplyBlockError,
) -> bool {
    match header_error(header, body, prev_block) {
        Some(expected) => error == expected,
        None => error matches ApplyBlockError::InvalidBlockError(error) && if !trees_accept(
            inner,
            header,
            body,
        ) {
            is_tree_error(inner, header, body, error)
        } else {
            !commits_to_notes(header, body) && error == InvalidBlockError::NewBlockInvalidNoteRoot
        },
    }
}

/// Whether a prepared block is the given block on top of a state.
pub open spec fn prepares(
    prepared: PreparedBlock,
    inner: InnerView,
    header: BlockHeader,
    body: BlockBody,
) -> bool {
    &&& prepared.header == header
    &&& are_mutations(prepared.mutations, inner, state_after(inner, header, body))
    &&& record_views(prepared.notes@) == note_records_of(header, body)
}

/// Checks a block on top of the state, and computes what it changes without changing anything. The
/// block is prepared exactly if it is valid.
pub fn validate_block(
    inner: &InnerState,
    header: &BlockHeader,
    body: &BlockBody,
    prev_block: &Option<BlockHeader>,
) -> (r: Result<PreparedBlock, ApplyBlockError>)
    requires
        inner@.is_valid(),
        is_body_for(inner@, *body),
        are_output_notes(body.output_notes@),
        prev_block matches Some(prev) ==> prev.block_num@ < u32::MAX,
    ensures
        r is Ok <==> is_valid_block(inner@, *header, *body, *prev_block),
        r matches Ok(prepared) ==> prepares(prepared, inner@, *header, *body),
        r matches Err(error) ==> is_block_error(inner@, *header, *body, *prev_block, error),
{
    validate_block_header(header, body, prev_block)?;
    let mutations = match compute_tree_mutations(inner, header, body) {
        Ok(mutations) => mutations,
        Err(error) => return Err(ApplyBlockError::InvalidBlockError(error)),
    };
    let notes = match build_note_records(header, body) {
        Ok(notes) => notes,
        Err(error) => return Err(ApplyBlockError::InvalidBlockError(error)),
    };
    Ok(PreparedBlock { header: *header, mutations, notes })
}

/// Starts to apply a block, which only one writer does at a time.
pub fn begin_apply_block(
    lock_acquired: bool,
    inner: &InnerState,
    header: &BlockHeader,
    body: &BlockBody,
    prev_block: &Option<BlockHeader>,
) -> (r: Result<PreparedBlock, ApplyBlockError>)
    requires
        inner@.is_valid(),
        is_body_for(inner@, *body),
        are_output_notes(body.output_notes@),
        prev_block matches Some(prev) ==> prev.block_num@ < u32::MAX,
    ensures
        !lock_acquired ==> r == Err::<PreparedBlock, ApplyBlockError>(
            ApplyBlockError::ConcurrentWrite,
        ),
        lock_acquired ==> (r is Ok <==> is_valid_block(inner@, *header, *body, *prev_block)),
        r matches Ok(prepared) ==> prepares(prepared, inner@, *header, *body),
        lock_acquired ==> (r matches Err(error) ==> is_block_error(
            inner@,
            *header,
            *body,
            *prev_block,
            error,
        )),
{
    if !lock_acquired {
        return Err(ApplyBlockError::ConcurrentWrite);
    }
    validate_block(inner, header, body, prev_block)
}

/// A prepared block that was saved, and that the database is ready to commit.
pub struct StoredBlock {
    prepared: PreparedBlock,
}

impl StoredBlock {
    /// The prepared block.
    pub closed spec fn block(self) -> PreparedBlock {
        self.prepared
    }

    /// Returns whether the trees still have the roots that the block was prepared for.
    pub fn is_current(&self, inner: &InnerState) -> (r: bool)
        ensures
            r == is_prepared_for(self.block(), inner@),
    {
        nullifier_root(&inner.nullifier_tree) == self.prepared.mutations.nullifier_tree_old_root
            && account_root(&inner.account_tree) == self.prepared.mutations.account_tree_old_root
    }

    /// Ends to apply a block. If the trees changed since the block was prepared, or the database
    /// did not commit the block, the state stays as it is. Otherwise the trees and the chain are
    /// updated.
    pub fn finish(
        self,
        inner: &mut InnerState,
        informed: bool,
        committed: Result<(), String>,
    ) -> (r: Result<(), ApplyBlockError>)
        requires
            self.block().header.commitment.is_canonical(),
            is_sound(self.block()),
        ensures
            is_finish_result(
                r,
                is_prepared_for(self.block(), old(inner)@),
                informed,
                committed,
            ),
            r is Err ==> *final(inner) == *old(inner),
            r is Ok ==> final(inner)@.blocks == old(inner)@.blocks.push(
                self.block().header.commitment,
            ),
            r is Ok && nullifiers_before(self.block().mutations.nullifier_tree_update) == old(
                inner,
            )@.nullifiers ==> final(inner)@.nullifiers == nullifiers_after(
                self.block().mutations.nullifier_tree_update,
            ),
            r is Ok && accounts_before(self.block().mutations.account_tree_update) == old(
                inner,
            )@.accounts ==> final(inner)@.accounts == accounts_after(
                self.block().mutations.account_tree_update,
            ),
    {
        if !self.is_current(inner) {
            return Err(ApplyBlockError::ConcurrentWrite);
        }
        if !informed {
            return Err(
                ApplyBlockError::DbUpdateTaskFailed(String::from_str("Receiver was dropped")),
            );
        }
        if let Err(report) = committed {
            return Err(ApplyBlockError::DbUpdateTaskFailed(report));
        }
        let block_commitment = self.prepared.header.commitment;
        let mutations = self.prepared.mutations;
        apply_nullifier_changes(&mut inner.nullifier_tree, mutations.nullifier_tree_update);
        apply_account_changes(&mut inner.account_tree, mutations.account_tree_update);
        push_block(&mut inner.blockchain, block_commitment);
        Ok(())
    }
}

/// Whether the changes of a prepared block were computed for trees with the roots that it names.
pub open spec fn is_sound(prepared: PreparedBlock) -> bool {
    &&& prepared.mutations.nullifier_tree_old_root == nullifier_root_of(
        nullifiers_before(prepared.mutations.nullifier_tree_update),
    )
    &&& prepared.mutations.account_tree_old_root == account_root_of(
        accounts_before(prepared.mutations.account_tree_update),
    )
}

/// Whether the trees of a state have the roots that a block was prepared for.
pub open spec fn is_prepared_for(prepared: PreparedBlock, inner: InnerView) -> bool {
    &&& prepared.mutations.nullifier_tree_old_root == nullifier_root_of(inner.nullifiers)
    &&& prepared.mutations.account_tree_old_root == account_root_of(inner.accounts)
}

/// Whether a result is that of the last step of applying a block.
pub open spec fn is_finish_result(
    r: Result<(), ApplyBlockError>,
    is_current: bool,
    informed: bool,
    committed: Result<(), String>,
) -> bool {
    if !is_current {
        r == Err::<(), ApplyBlockError>(ApplyBlockError::ConcurrentWrite)
    } else if !informed {
        r matches Err(ApplyBlockError::DbUpdateTaskFailed(report)) && report@
            == "Receiver was dropped"@
    } else {
        match committed {
            Err(report) => r == Err::<(), ApplyBlockError>(
                ApplyBlockError::DbUpdateTaskFailed(report),
            ),
            Ok(_) => r is Ok,
        }
    }
}

/// Goes on with a prepared block once the database is ready to commit it and it was saved.
pub fn store_block(prepared: PreparedBlock, db_ready: bool, saved: bool) -> (r: Result<
    StoredBlock,
    ApplyBlockError,
>)
    ensures
        if !db_ready {
            r == Err::<StoredBlock, ApplyBlockError>(ApplyBlockError::ClosedChannel)
        } else if !saved {
            r == Err::<StoredBlock, ApplyBlockError>(ApplyBlockError::BlockSaveFailed)
        } else {
            r matches Ok(stored) && stored.block() == prepared
        },
{
    if !db_ready {
        return Err(ApplyBlockError::ClosedChannel);
    }
    if !saved {
        return Err(ApplyBlockError::BlockSaveFailed);
    }
    Ok(StoredBlock { prepared })
}

/// A valid block turns a valid state into a valid one, whose trees have the roots of the header and
/// whose latest block is the block, if it comes next after the latest block of the state.
pub proof fn lemma_block_leads_to_valid_state(
    inner: InnerView,
    header: BlockHeader,
    body: BlockBody,
    prev_block: Option<BlockHeader>,
)
    requires
        inner.is_valid(),
        is_body_for(inner, body),
        is_valid_block(inner, header, body, prev_block),
        header.block_num@ == inner.tip()@ + 1,
        header.block_num@ < u32::MAX,
    ensures
        state_after(inner, header, body).is_valid(),
        state_after(inner, header, body).tip() == header.block_num,
        nullifier_root_of(state_after(inner, header, body).nullifiers) == header.nullifier_root,
        account_root_of(state_after(inner, header, body).accounts) == header.account_root,
        forall|nullifier: Word|
            body.created_nullifiers@.contains(nullifier) ==> state_after(
                inner,
                header,
                body,
            ).nullifiers.contains_key(nullifier) && !inner.nullifiers.contains_key(nullifier),
        forall|nullifier: Word| #[trigger]
            inner.nullifiers.contains_key(nullifier) ==> state_after(
                inner,
                header,
                body,
            ).nullifiers.contains_key(nullifier) && state_after(
                inner,
                header,
                body,
            ).nullifiers[nullifier] == inner.nullifiers[nullifier],
{
    let created = body.created_nullifiers@;
    lemma_with_spent(inner.nullifiers, created, header.block_num);
    assert forall|nullifier: Word| created.contains(nullifier) implies state_after(
        inner,
        header,
        body,
    ).nullifiers.contains_key(nullifier) && !inner.nullifiers.contains_key(nullifier) by {
        let i = choose|i: int| 0 <= i < created.len() && created[i] == nullifier;
        assert(with_spent(inner.nullifiers, created, header.block_num).contains_key(created[i]));
    }
    assert forall|nullifier: Word| #[trigger]
        inner.nullifiers.contains_key(nullifier) implies state_after(
        inner,
        header,
        body,
    ).nullifiers.contains_key(nullifier) && state_after(inner, header, body).nullifiers[nullifier]
        == inner.nullifiers[nullifier] by {
        if created.contains(nullifier) {
            let i = choose|i: int| 0 <= i < created.len() && created[i] == nullifier;
            assert(inner.nullifiers.contains_key(created[i]));
        }
    }
    lemma_updates_keep_prefixes_unique(inner.accounts, commitment_updates(body.updated_accounts@));
}

/// A prepared block that is applied to the state that it was prepared for leads to the state after
/// the block.
pub proof fn lemma_prepared_block_is_applied(
    prepared: PreparedBlock,
    header: BlockHeader,
    body: BlockBody,
    before: InnerView,
    after: InnerView,
)
    requires
        prepares(prepared, before, header, body),
        after.blocks == before.blocks.push(prepared.header.commitment),
        after.nullifiers == nullifiers_after(prepared.mutations.nullifier_tree_update),
        after.accounts == accounts_after(prepared.mutations.account_tree_update),
    ensures
        is_sound(prepared),
        is_prepared_for(prepared, before),
        after == state_after(before, header, body),
{
    assert(after =~= state_after(before, header, body));
}

proof fn lemma_with_spent(
    spent: vstd::map::Map<Word, BlockNumber>,
    nullifiers: Seq<Word>,
    block_num: BlockNumber,
)
    ensures
        forall|i: int|
            0 <= i < nullifiers.len() ==> with_spent(spent, nullifiers, block_num).contains_key(
                #[trigger] nullifiers[i],
            ),
        forall|nullifier: Word| #[trigger]
            spent.contains_key(nullifier) ==> with_spent(
                spent,
                nullifiers,
                block_num,
            ).contains_key(nullifier),
        forall|nullifier: Word|
            spent.contains_key(nullifier) && !nullifiers.contains(nullifier)
                ==> #[trigger] with_spent(spent, nullifiers, block_num)[nullifier]
                == spent[nullifier],
    decreases nullifiers.len(),
{
    if nullifiers.len() > 0 {
        let before = nullifiers.drop_last();
        lemma_with_spent(spent, before, block_num);
        assert forall|i: int| 0 <= i < nullifiers.len() implies with_spent(
            spent,
            nullifiers,
            block_num,
        ).contains_key(#[trigger] nullifiers[i]) by {
            if i < before.len() {
                assert(before[i] == nullifiers[i]);
            }
        }
        assert forall|nullifier: Word|
            spent.contains_key(nullifier) && !nullifiers.contains(
                nullifier,
            ) implies #[trigger] with_spent(spent, nullifiers, block_num)[nullifier]
            == spent[nullifier] by {
            assert(nullifiers[nullifiers.len() - 1] != nullifier);
            if before.contains(nullifier) {
                let i = choose|i: int| 0 <= i < before.len() && before[i] == nullifier;
                assert(nullifiers[i] == nullifier);
            }
        }
    }
}

proof fn lemma_with_updates_origin(
    accounts: vstd::map::Map<AccountId, Word>,
    updates: Seq<(AccountId, Word)>,
    id: AccountId,
)
    requires
        with_updates(accounts, updates).contains_key(id),
    ensures
        accounts.contains_key(id) || exists|i: int|
            0 <= i < updates.len() && (#[trigger] updates[i]).0 == id && updates[i].1
                != Word::empty(),
    decreases updates.len(),
{
    if updates.len() > 0 {
        let before = updates.drop_last();
        if updates.last().0 == id {
            assert(updates[updates.len() - 1].0 == id);
        } else {
            lemma_with_updates_origin(accounts, before, id);
            if !accounts.contains_key(id) {
                let i = choose|i: int|
                    0 <= i < before.len() && (#[trigger] before[i]).0 == id && before[i].1
                        != Word::empty();
                assert(updates[i].0 == id);
            }
        }
    }
}

/// Updates that are free of conflicts keep the prefixes of accounts unique.
pub proof fn lemma_updates_keep_prefixes_unique(
    accounts: vstd::map::Map<AccountId, Word>,
    updates: Seq<(AccountId, Word)>,
)
    requires
        has_unique_prefixes(accounts),
        are_account_updates(updates),
        !any_conflict(accounts, updates),
    ensures
        has_unique_prefixes(with_updates(accounts, updates)),
{
    let after = with_updates(accounts, updates);
    assert forall|a: AccountId, b: AccountId|
        after.contains_key(a) && after.contains_key(b) && a.prefix == b.prefix implies a == b by {
        lemma_with_updates_origin(accounts, updates, a);
        lemma_with_updates_origin(accounts, updates, b);
        if accounts.contains_key(a) && accounts.contains_key(b) {
        } else if !accounts.contains_key(a) && !accounts.contains_key(b) {
            let i = choose|i: int|
                0 <= i < updates.len() && (#[trigger] updates[i]).0 == a && updates[i].1
                    != Word::empty();
            let j = choose|j: int|
                0 <= j < updates.len() && (#[trigger] updates[j]).0 == b && updates[j].1
                    != Word::empty();
            if i < j {
                assert(updates[i] == updates[j]);
            } else if j < i {
                assert(updates[j] == updates[i]);
            }
        } else {
            let (added, other) = if accounts.contains_key(a) {
                (b, a)
            } else {
                (a, b)
            };
            let i = choose|i: int|
                0 <= i < updates.len() && (#[trigger] updates[i]).0 == added && updates[i].1
                    != Word::empty();
            assert(!conflicts_with(accounts, updates[i]));
            assert(commitment_in(accounts, added) == Word::empty());
            assert(accounts.contains_key(other) && other.prefix == updates[i].0.prefix);
        }
    }
}

} // verus!
