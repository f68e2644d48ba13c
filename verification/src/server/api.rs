//! What all endpoints share: how requests are read, and how a status tells of an error.

use miden_protocol::batch::OrderedBatches;
use miden_protocol::utils::serde::{Deserializable, Serializable};
use vstd::prelude::*;
use vstd::string::*;

use crate::account_code::{find_short_code, has_short_code};
use crate::account_id::AccountId;
use crate::block_number::BlockNumber;
use crate::block_set::BlockSet;
use crate::db::conv::{
    collect_results, lemma_collect_first_error, lemma_collect_prefix_error, lemma_collect_step,
    lemma_collect_values,
};
use crate::notes::{
    are_input_notes, input_notes_from_bytes, input_notes_of_bytes, input_views, is_input_note,
    note_commitment, note_commitment_of, InputNoteCommitment, InputNoteView,
};
use crate::state::apply_block::{BlockHeader, InnerState};
use crate::state::chain::{get_block_header, MmrError};
use crate::state::trees::{are_canonical, block_path_of};
use crate::word::Word;

verus! {

/// The number of subscriptions to blocks, and of those to proofs, that are served at the same time
/// at most.
pub const MAX_REPLICA_SUBSCRIPTIONS: usize = 10;

// STATUS
// ================================================================================================

/// What kind of error a status tells of.
#[derive(Clone, Copy, Debug, PartialEq, Eq, Structural)]
pub enum Code {
    InvalidArgument,
    NotFound,
    OutOfRange,
    ResourceExhausted,
    Internal,
}

/// The answer to a request that failed.
#[derive(Clone, Debug, PartialEq, Eq)]
pub struct Status {
    pub code: Code,
    pub message: String,
}

/// Creates the status of an internal error.
pub fn internal_error(message: &str) -> (r: Status)
    ensures
        r.code == Code::Internal,
        r.message@ == message@,
{
    Status { code: Code::Internal, message: String::from_str(message) }
}

/// Creates the status of a request that is not valid.
pub fn invalid_argument(message: &str) -> (r: Status)
    ensures
        r.code == Code::InvalidArgument,
        r.message@ == message@,
{
    Status { code: Code::InvalidArgument, message: String::from_str(message) }
}

/// Creates the status of a request that names too many items.
pub fn out_of_range_error(message: &str) -> (r: Status)
    ensures
        r.code == Code::OutOfRange,
        r.message@ == message@,
{
    Status { code: Code::OutOfRange, message: String::from_str(message) }
}

/// An item of a request has a value that its type does not have.
#[derive(Clone, Copy, Debug, PartialEq, Eq, Structural)]
pub struct ConversionError;

/// Creates the status of a request whose nullifiers are not valid.
pub fn conversion_error_to_status(value: &ConversionError) -> (r: Status)
    ensures
        r.code == Code::InvalidArgument,
        r.message@ == "Invalid nullifier format"@,
{
    invalid_argument("Invalid nullifier format")
}

/// Checks that a request names no more items than one query takes.
pub fn check_limit(given: usize, limit: usize) -> (r: Result<(), Status>)
    ensures
        r is Err <==> given > limit,
        r matches Err(status) ==> status.code == Code::OutOfRange && status.message@
            == "the request names too many items"@,
{
    if given > limit {
        Err(out_of_range_error("the request names too many items"))
    } else {
        Ok(())
    }
}

// DIGESTS
// ================================================================================================

/// Four integers that stand for a word.
#[derive(Clone, Copy, Debug, PartialEq, Eq, Structural)]
pub struct Digest {
    pub d0: u64,
    pub d1: u64,
    pub d2: u64,
    pub d3: u64,
}

/// The word that a digest stands for, if its integers are field elements.
pub open spec fn digest_word(digest: Digest) -> Result<Word, ConversionError> {
    let word = Word(digest.d0, digest.d1, digest.d2, digest.d3);
    if word.is_canonical() {
        Ok(word)
    } else {
        Err(ConversionError)
    }
}

/// The words that digests stand for, in order.
pub open spec fn digest_words(digests: Seq<Digest>) -> Result<Seq<Word>, ConversionError> {
    collect_results(digests.map_values(|digest: Digest| digest_word(digest)))
}

/// Reads the word that a digest stands for.
pub fn read_digest(digest: Digest) -> (r: Result<Word, ConversionError>)
    ensures
        r == digest_word(digest),
{
    match Word::from_elements(digest.d0, digest.d1, digest.d2, digest.d3) {
        Some(word) => Ok(word),
        None => Err(ConversionError),
    }
}

/// Reads the words that digests stand for. Fails if one of them stands for none.
pub fn convert_digests_to_words(digests: &Vec<Digest>) -> (r: Result<Vec<Word>, ConversionError>)
    ensures
        match digest_words(digests@) {
            Err(error) => r == Err::<Vec<Word>, ConversionError>(error),
            Ok(words) => r matches Ok(found) && found@ == words,
        },
        r matches Ok(found) ==> are_canonical(found@),
{
    let ghost results = digests@.map_values(|digest: Digest| digest_word(digest));
    let mut words: Vec<Word> = Vec::new();
    let mut i: usize = 0;
    assert(results.take(0) =~= Seq::empty());
    while i < digests.len()
        invariant
            i <= digests@.len(),
            results == digests@.map_values(|digest: Digest| digest_word(digest)),
            collect_results(results.take(i as int)) == Ok::<Seq<Word>, ConversionError>(words@),
            are_canonical(words@),
        decreases digests@.len() - i,
    {
        proof {
            lemma_collect_step(results, i as int);
        }
        match read_digest(digests[i]) {
            Ok(word) => words.push(word),
            Err(error) => {
                proof {
                    lemma_collect_prefix_error(results, i + 1);
                }
                return Err(error);
            },
        }
        i = i + 1;
    }
    assert(results.take(i as int) =~= results);
    Ok(words)
}

/// Reads the nullifiers of a request.
pub fn validate_nullifiers(nullifiers: &Vec<Digest>) -> (r: Result<Vec<Word>, ConversionError>)
    ensures
        match digest_words(nullifiers@) {
            Err(error) => r == Err::<Vec<Word>, ConversionError>(error),
            Ok(words) => r matches Ok(found) && found@ == words,
        },
        r matches Ok(found) ==> are_canonical(found@),
{
    convert_digests_to_words(nullifiers)
}

/// Reads the note commitments of a request.
pub fn validate_note_commitments(notes: &Vec<Digest>) -> (r: Result<Vec<Word>, Status>)
    ensures
        match digest_words(notes@) {
            Err(_) => r matches Err(status) && status.code == Code::InvalidArgument
                && status.message@ == "Digest field is not in the modulus range"@,
            Ok(words) => r matches Ok(found) && found@ == words,
        },
{
    match convert_digests_to_words(notes) {
        Ok(words) => Ok(words),
        Err(_) => Err(invalid_argument("Digest field is not in the modulus range")),
    }
}

/// Reads the block numbers of a request.
pub fn read_block_numbers(block_numbers: &Vec<u32>) -> (r: BlockSet)
    ensures
        r.is_valid(),
        r@ == block_numbers@.map_values(|number: u32| BlockNumber(number)).to_set(),
{
    let ghost expected = block_numbers@.map_values(|number: u32| BlockNumber(number));
    let mut blocks: Vec<BlockNumber> = Vec::new();
    let mut i: usize = 0;
    while i < block_numbers.len()
        invariant
            i <= block_numbers@.len(),
            expected == block_numbers@.map_values(|number: u32| BlockNumber(number)),
            blocks@ =~= expected.take(i as int),
        decreases block_numbers@.len() - i,
    {
        blocks.push(BlockNumber(block_numbers[i]));
        i = i + 1;
    }
    assert(blocks@ =~= expected);
    BlockSet::from_blocks(&blocks)
}

// BLOCK HEADERS
// ================================================================================================

/// The answer to a request for the header of a block, with the proof that the block is part of the
/// chain.
#[derive(Clone, Debug, PartialEq, Eq)]
pub struct BlockHeaderByNumberResponse {
    pub block_header: Option<BlockHeader>,
    pub chain_length: Option<u32>,
    pub mmr_path: Option<Vec<Word>>,
}

/// Answers a request for the header of a block, which was read from the database. The proof is left
/// out unless it is requested.
pub fn get_block_header_by_number_inner(
    inner: &InnerState,
    block_header: Option<BlockHeader>,
    include_mmr_proof: Option<bool>,
) -> (r: Result<BlockHeaderByNumberResponse, MmrError>)
    requires
        inner@.is_valid(),
    ensures
        match block_header {
            None => r matches Ok(response) && response.block_header is None
                && response.chain_length is None && response.mmr_path is None,
            Some(header) => if include_mmr_proof != Some(true) {
                r matches Ok(response) && response.block_header == Some(header)
                    && response.chain_length is None && response.mmr_path is None
            } else if header.block_num@ <= inner@.tip()@ {
                r matches Ok(response) && response.block_header == Some(header)
                    && response.chain_length == Some(inner@.blocks.len() as u32)
                    && (response.mmr_path matches Some(path) && path@ == block_path_of(
                    inner@.blocks,
                    header.block_num@ as nat,
                ))
            } else {
                r == Err::<BlockHeaderByNumberResponse, MmrError>(MmrError(header.block_num))
            },
        },
{
    let with_proof = match include_mmr_proof {
        Some(requested) => requested,
        None => false,
    };
    match get_block_header(inner, block_header, with_proof) {
        Err(error) => Err(error),
        Ok((block_header, None)) => Ok(
            BlockHeaderByNumberResponse { block_header, chain_length: None, mmr_path: None },
        ),
        Ok((block_header, Some(opened))) => Ok(
            BlockHeaderByNumberResponse {
                block_header,
                chain_length: Some(opened.chain_length as u32),
                mmr_path: Some(opened.path),
            },
        ),
    }
}

// BATCHES
// ================================================================================================

/// The items without those that occur before, in order.
pub open spec fn distinct<T>(items: Seq<T>) -> Seq<T>
    decreases items.len(),
{
    if items.len() == 0 {
        Seq::empty()
    } else {
        let before = distinct(items.drop_last());
        if before.contains(items.last()) {
            before
        } else {
            before.push(items.last())
        }
    }
}

/// Leaving out what occurs before leaves every item once.
pub proof fn lemma_distinct<T>(items: Seq<T>)
    ensures
        distinct(items).no_duplicates(),
        distinct(items).to_set() == items.to_set(),
    decreases items.len(),
{
    if items.len() > 0 {
        let before = distinct(items.drop_last());
        lemma_distinct(items.drop_last());
        assert forall|item: T| distinct(items).contains(item) <==> items.contains(item) by {
            assert(before.to_set().contains(item) == items.drop_last().to_set().contains(item));
            if items.contains(item) && item != items.last() {
                let i = choose|i: int| 0 <= i < items.len() && items[i] == item;
                assert(items.drop_last()[i] == item);
            }
            if items.drop_last().contains(item) {
                let i = choose|i: int|
                    0 <= i < items.drop_last().len() && items.drop_last()[i] == item;
                assert(items[i] == item);
            }
            if item == items.last() {
                assert(items[items.len() - 1] == item);
                if !before.contains(item) {
                    assert(before.push(item)[before.len() as int] == item);
                }
            } else if before.contains(item) {
                let i = choose|i: int| 0 <= i < before.len() && before[i] == item;
                assert(distinct(items)[i] == item);
            } else if distinct(items).contains(item) {
                let i = choose|i: int| 0 <= i < distinct(items).len() && distinct(items)[i] == item;
                assert(before.contains(item)) by {
                    assert(before[i] == item);
                }
            }
        }
        assert(distinct(items).to_set() =~= items.to_set());
    } else {
        assert(distinct(items).to_set() =~= items.to_set());
    }
}

proof fn lemma_distinct_push<T>(items: Seq<T>, item: T)
    ensures
        distinct(items.push(item)) == (if distinct(items).contains(item) {
            distinct(items)
        } else {
            distinct(items).push(item)
        }),
{
    assert(items.push(item).drop_last() =~= items);
}

fn push_distinct_id(ids: &mut Vec<AccountId>, id: AccountId)
    ensures
        final(ids)@ == (if old(ids)@.contains(id) {
            old(ids)@
        } else {
            old(ids)@.push(id)
        }),
{
    let mut i: usize = 0;
    while i < ids.len()
        invariant
            i <= ids@.len(),
            ids@ == old(ids)@,
            forall|k: int| 0 <= k < i ==> #[trigger] ids@[k] != id,
        decreases ids@.len() - i,
    {
        if ids[i] == id {
            assert(ids@[i as int] == id);
            return;
        }
        i = i + 1;
    }
    ids.push(id);
}

fn push_distinct_word(words: &mut Vec<Word>, word: Word)
    ensures
        final(words)@ == (if old(words)@.contains(word) {
            old(words)@
        } else {
            old(words)@.push(word)
        }),
{
    let mut i: usize = 0;
    while i < words.len()
        invariant
            i <= words@.len(),
            words@ == old(words)@,
            forall|k: int| 0 <= k < i ==> #[trigger] words@[k] != word,
        decreases words@.len() - i,
    {
        if words[i] == word {
            assert(words@[i as int] == word);
            return;
        }
        i = i + 1;
    }
    words.push(word);
}

/// Returns words without those that occur before.
pub fn distinct_words(words: &Vec<Word>) -> (r: Vec<Word>)
    ensures
        r@ == distinct(words@),
{
    let mut r: Vec<Word> = Vec::new();
    let mut i: usize = 0;
    while i < words.len()
        invariant
            i <= words@.len(),
            r@ == distinct(words@.take(i as int)),
        decreases words@.len() - i,
    {
        proof {
            lemma_distinct_push(words@.take(i as int), words@[i as int]);
            assert(words@.take(i as int).push(words@[i as int]) =~= words@.take(i + 1));
        }
        push_distinct_word(&mut r, words[i]);
        i = i + 1;
    }
    assert(words@.take(i as int) =~= words@);
    r
}

/// A batch of transactions of a block.
#[derive(Clone, Debug, PartialEq, Eq)]
pub struct TransactionBatch {
    pub updated_accounts: Vec<AccountId>,
    pub input_notes: Vec<InputNoteCommitment>,
    pub reference_block_num: BlockNumber,
}

/// What a batch of transactions holds.
#[verifier::ext_equal]
pub struct BatchView {
    pub updated_accounts: Seq<AccountId>,
    pub input_notes: Seq<InputNoteView>,
    pub reference_block_num: BlockNumber,
}

impl View for TransactionBatch {
    type V = BatchView;

    open spec fn view(&self) -> BatchView {
        BatchView {
            updated_accounts: self.updated_accounts@,
            input_notes: input_views(self.input_notes@),
            reference_block_num: self.reference_block_num,
        }
    }
}

/// What batches hold.
pub open spec fn batch_views(batches: Seq<TransactionBatch>) -> Seq<BatchView> {
    batches.map_values(|batch: TransactionBatch| batch@)
}

/// A batch of transactions as it is decoded, with the encoded commitments to the notes it consumes.
#[derive(Clone, Debug, PartialEq, Eq)]
pub struct EncodedBatch {
    pub updated_accounts: Vec<AccountId>,
    pub input_notes: Vec<u8>,
    pub reference_block_num: BlockNumber,
}

/// What a batch holds as it is decoded.
#[verifier::ext_equal]
pub struct EncodedBatchView {
    pub updated_accounts: Seq<AccountId>,
    pub input_notes: Seq<u8>,
    pub reference_block_num: BlockNumber,
}

impl View for EncodedBatch {
    type V = EncodedBatchView;

    open spec fn view(&self) -> EncodedBatchView {
        EncodedBatchView {
            updated_accounts: self.updated_accounts@,
            input_notes: self.input_notes@,
            reference_block_num: self.reference_block_num,
        }
    }
}

/// What batches hold as they are decoded.
pub open spec fn encoded_views(batches: Seq<EncodedBatch>) -> Seq<EncodedBatchView> {
    batches.map_values(|batch: EncodedBatch| batch@)
}

/// The batches that `OrderedBatches::read_from_bytes` reads from bytes, or `None` if it reads none.
pub uninterp spec fn ordered_batches_of_bytes(bytes: Seq<u8>) -> Option<Seq<EncodedBatchView>>;

/// Whether the notes of batches can be decoded.
pub open spec fn have_notes(batches: Seq<EncodedBatchView>) -> bool {
    forall|i: int|
        0 <= i < batches.len() ==> input_notes_of_bytes((#[trigger] batches[i]).input_notes) is Some
}

/// The batch with its notes decoded.
pub open spec fn decoded_batch(batch: EncodedBatchView) -> BatchView {
    BatchView {
        updated_accounts: batch.updated_accounts,
        input_notes: input_notes_of_bytes(batch.input_notes)->0,
        reference_block_num: batch.reference_block_num,
    }
}

/// The batches with their notes decoded.
pub open spec fn decoded_batches(batches: Seq<EncodedBatchView>) -> Seq<BatchView> {
    batches.map_values(|batch: EncodedBatchView| decoded_batch(batch))
}

/// Decodes batches by `OrderedBatches::read_from_bytes`. The notes of a batch are encoded again by
/// `Vec<InputNoteCommitment>::to_bytes`, and so can be decoded.
///
/// The code of an account with a single procedure makes it panic. Nothing else does. In miden-protocol
/// 0.14.5 the readers are those of `batch/ordered_batches.rs` 76 and `batch/proven_batch.rs` 169, and of
/// what a batch holds:
///
/// - accounts: `batch/account_update.rs` 162, and `account/delta/` `mod.rs` 514 and 559, `storage.rs` 281
///   and 577, `vault.rs` 183, 373 and 542. A code is read only here, behind a byte 1 (`mod.rs` 519);
/// - input notes: `transaction/inputs/notes.rs` 204, `transaction/proven_tx.rs` 581, `note/header.rs` 86,
///   `note/metadata.rs` 237, `note/attachment.rs` 125 and 239;
/// - output notes: `transaction/outputs/notes.rs` 450, 547 and 623, `note/mod.rs` 248, `note/details.rs`
///   113, `note/assets.rs` 174, `note/recipient.rs` 109, `note/storage.rs` 131, `note/script.rs` 315. The
///   entry point of a script is compared with its forest there, so that the assertion of `from_parts`
///   (68) holds. To find the size of a note its script is encoded again without debug information
///   (miden-core 0.22.4, `mast/mod.rs` 210, `mast/serialization/mod.rs` 134): the asserted limit of 30
///   bits for the children of a node (`info.rs` 258) follows from the limit of the number of nodes;
/// - transactions: `transaction/ordered_transactions.rs` 90, `transaction/tx_header.rs` 221;
/// - words, identifiers and assets: `account/account_id/v0/mod.rs` 426, `account/storage/slot/slot_name.rs`
///   253, `account/storage/map/key.rs` 90, `asset/mod.rs` 236, `asset/fungible.rs` 260,
///   `asset/nonfungible.rs` 188, `asset/vault/vault_key.rs` 247.
///
/// Forests are read as said in `account_code.rs`.
#[verifier::external_body]
fn ordered_batches_from_bytes(bytes: &Vec<u8>) -> (r: Option<Vec<EncodedBatch>>)
    requires
        !has_short_code(bytes@),
    ensures
        match r {
            None => ordered_batches_of_bytes(bytes@) is None,
            Some(batches) => ordered_batches_of_bytes(bytes@) == Some(encoded_views(batches@))
                && have_notes(encoded_views(batches@)),
        },
{
    let batches = OrderedBatches::read_from_bytes(bytes).ok()?;
    Some(batches.as_slice().iter().map(|batch| EncodedBatch {
        updated_accounts: batch.updated_accounts().map(|id| AccountId {
            prefix: id.prefix().as_u64(),
            suffix: id.suffix().as_canonical_u64(),
        }).collect(),
        input_notes: batch.input_notes().iter().cloned().collect::<Vec<_>>().to_bytes(),
        reference_block_num: BlockNumber(batch.reference_block_num().as_u32()),
    }).collect())
}

fn decode_batches(batches: Vec<EncodedBatch>) -> (r: Vec<TransactionBatch>)
    requires
        have_notes(encoded_views(batches@)),
    ensures
        batch_views(r@) == decoded_batches(encoded_views(batches@)),
        are_readable(batch_views(r@)),
{
    let ghost all = batches@;
    let ghost expected = decoded_batches(encoded_views(all));
    let mut decoded: Vec<TransactionBatch> = Vec::new();
    let count: usize = batches.len();
    for batch in it: batches
        invariant
            it.seq() == all,
            count == all.len(),
            have_notes(encoded_views(all)),
            expected == decoded_batches(encoded_views(all)),
            decoded@.len() == it.index(),
            forall|k: int| 0 <= k < decoded@.len() ==> (#[trigger] decoded@[k])@ == expected[k],
            forall|k: int|
                0 <= k < decoded@.len() ==> are_input_notes((#[trigger] decoded@[k])@.input_notes),
    {
        assert(encoded_views(all)[it.index() as int] == batch@);
        let EncodedBatch { updated_accounts, input_notes, reference_block_num } = batch;
        if let Some(input_notes) = input_notes_from_bytes(&input_notes) {
            decoded.push(TransactionBatch { updated_accounts, input_notes, reference_block_num });
        }
    }
    assert(batch_views(decoded@) =~= expected);
    decoded
}

/// What the inputs of a block are requested for: accounts and note commitments, none twice,
/// nullifiers, and the blocks that the batches refer to.
#[derive(Clone, Debug, PartialEq, Eq)]
pub struct BlockInputsQuery {
    pub account_ids: Vec<AccountId>,
    pub nullifiers: Vec<Word>,
    pub unauthenticated_note_commitments: Vec<Word>,
    pub reference_blocks: BlockSet,
}

/// The commitments to the notes that are not authenticated yet, in order.
pub open spec fn unauthenticated_notes(notes: Seq<InputNoteView>) -> Seq<Word>
    decreases notes.len(),
{
    if notes.len() == 0 {
        Seq::empty()
    } else {
        match notes.last().header {
            None => unauthenticated_notes(notes.drop_last()),
            Some(header) => unauthenticated_notes(notes.drop_last()).push(
                note_commitment_of(header),
            ),
        }
    }
}

/// The accounts that batches update, batch by batch.
pub open spec fn batch_accounts(batches: Seq<BatchView>) -> Seq<AccountId>
    decreases batches.len(),
{
    if batches.len() == 0 {
        Seq::empty()
    } else {
        batch_accounts(batches.drop_last()) + batches.last().updated_accounts
    }
}

/// The nullifiers of notes.
pub open spec fn note_nullifiers(notes: Seq<InputNoteView>) -> Seq<Word> {
    notes.map_values(|note: InputNoteView| note.nullifier)
}

/// The nullifiers that batches create, batch by batch: those of the notes that they consume.
pub open spec fn batch_nullifiers(batches: Seq<BatchView>) -> Seq<Word>
    decreases batches.len(),
{
    if batches.len() == 0 {
        Seq::empty()
    } else {
        batch_nullifiers(batches.drop_last()) + note_nullifiers(batches.last().input_notes)
    }
}

/// The commitments to the notes that batches consume and that are not authenticated yet, batch by
/// batch.
pub open spec fn batch_notes(batches: Seq<BatchView>) -> Seq<Word>
    decreases batches.len(),
{
    if batches.len() == 0 {
        Seq::empty()
    } else {
        batch_notes(batches.drop_last()) + unauthenticated_notes(batches.last().input_notes)
    }
}

/// The blocks that batches refer to.
pub open spec fn batch_blocks(batches: Seq<BatchView>) -> Set<BlockNumber> {
    batches.map_values(|batch: BatchView| batch.reference_block_num).to_set()
}

/// Whether a query asks for what the inputs of a block with the given batches are requested for.
pub open spec fn is_query_for(query: BlockInputsQuery, batches: Seq<BatchView>) -> bool {
    &&& query.account_ids@ == distinct(batch_accounts(batches))
    &&& query.nullifiers@ == batch_nullifiers(batches)
    &&& query.unauthenticated_note_commitments@ == distinct(batch_notes(batches))
    &&& query.reference_blocks.is_valid()
    &&& query.reference_blocks@ == batch_blocks(batches)
}

/// Whether the notes that batches consume are commitments to input notes.
pub open spec fn are_readable(batches: Seq<BatchView>) -> bool {
    forall|i: int| 0 <= i < batches.len() ==> are_input_notes((#[trigger] batches[i]).input_notes)
}

fn add_accounts(account_ids: &mut Vec<AccountId>, added: &Vec<AccountId>, Ghost(all): Ghost<
    Seq<AccountId>,
>)
    requires
        old(account_ids)@ == distinct(all),
    ensures
        final(account_ids)@ == distinct(all + added@),
{
    let mut i: usize = 0;
    assert(all + added@.take(0) =~= all);
    while i < added.len()
        invariant
            i <= added@.len(),
            account_ids@ == distinct(all + added@.take(i as int)),
        decreases added@.len() - i,
    {
        proof {
            lemma_distinct_push(all + added@.take(i as int), added@[i as int]);
            assert((all + added@.take(i as int)).push(added@[i as int]) =~= all + added@.take(
                i + 1,
            ));
        }
        push_distinct_id(account_ids, added[i]);
        i = i + 1;
    }
    assert(added@.take(i as int) =~= added@);
}

fn add_notes(commitments: &mut Vec<Word>, notes: &Vec<InputNoteCommitment>, Ghost(all): Ghost<
    Seq<Word>,
>)
    requires
        old(commitments)@ == distinct(all),
        are_input_notes(input_views(notes@)),
    ensures
        final(commitments)@ == distinct(all + unauthenticated_notes(input_views(notes@))),
{
    let ghost views = input_views(notes@);
    let mut i: usize = 0;
    assert(all + unauthenticated_notes(views.take(0)) =~= all);
    while i < notes.len()
        invariant
            i <= notes@.len(),
            views == input_views(notes@),
            are_input_notes(views),
            commitments@ == distinct(all + unauthenticated_notes(views.take(i as int))),
        decreases notes@.len() - i,
    {
        let ghost before = all + unauthenticated_notes(views.take(i as int));
        proof {
            assert(views.take(i + 1).drop_last() =~= views.take(i as int));
            assert(views.take(i + 1).last() == notes@[i as int]@);
            assert(is_input_note(views[i as int]));
        }
        if let Some(header) = &notes[i].header {
            let commitment = note_commitment(header);
            proof {
                lemma_distinct_push(before, commitment);
                assert(before.push(commitment) =~= all + unauthenticated_notes(views.take(i + 1)));
            }
            push_distinct_word(commitments, commitment);
        }
        i = i + 1;
    }
    assert(views.take(i as int) =~= views);
}

/// Collects what the inputs of a block with the given batches are requested for.
pub fn block_inputs_from_ordered_batches(batches: &Vec<TransactionBatch>) -> (r: BlockInputsQuery)
    requires
        are_readable(batch_views(batches@)),
    ensures
        is_query_for(r, batch_views(batches@)),
{
    let ghost views = batch_views(batches@);
    let mut account_ids: Vec<AccountId> = Vec::new();
    let mut nullifiers: Vec<Word> = Vec::new();
    let mut commitments: Vec<Word> = Vec::new();
    let mut blocks: Vec<BlockNumber> = Vec::new();
    let ghost references = views.map_values(|batch: BatchView| batch.reference_block_num);
    let mut i: usize = 0;
    while i < batches.len()
        invariant
            i <= batches@.len(),
            views == batch_views(batches@),
            are_readable(views),
            references == views.map_values(|batch: BatchView| batch.reference_block_num),
            account_ids@ == distinct(batch_accounts(views.take(i as int))),
            nullifiers@ == batch_nullifiers(views.take(i as int)),
            commitments@ == distinct(batch_notes(views.take(i as int))),
            blocks@ =~= references.take(i as int),
        decreases batches@.len() - i,
    {
        let batch = &batches[i];
        proof {
            assert(views.take(i + 1).drop_last() =~= views.take(i as int));
            assert(views.take(i + 1).last() == views[i as int]);
            assert(views[i as int] == batch@);
        }
        add_accounts(
            &mut account_ids,
            &batch.updated_accounts,
            Ghost(batch_accounts(views.take(i as int))),
        );
        let ghost added = note_nullifiers(batch@.input_notes);
        let mut j: usize = 0;
        while j < batch.input_notes.len()
            invariant
                j <= batch.input_notes@.len(),
                added == note_nullifiers(batch@.input_notes),
                nullifiers@ =~= batch_nullifiers(views.take(i as int)) + added.take(j as int),
            decreases batch.input_notes@.len() - j,
        {
            nullifiers.push(batch.input_notes[j].nullifier);
            j = j + 1;
        }
        assert(added.take(j as int) =~= added);
        add_notes(
            &mut commitments,
            &batch.input_notes,
            Ghost(batch_notes(views.take(i as int))),
        );
        blocks.push(batch.reference_block_num);
        i = i + 1;
    }
    assert(views.take(i as int) =~= views);
    assert(blocks@ =~= references);
    BlockInputsQuery {
        account_ids,
        nullifiers,
        unauthenticated_note_commitments: commitments,
        reference_blocks: BlockSet::from_blocks(&blocks),
    }
}

/// Why batches cannot be read.
#[derive(Clone, Copy, Debug, PartialEq, Eq, Structural)]
pub enum BatchesError {
    /// The bytes may hold the code of an account with a single procedure.
    ShortCode,
    /// The bytes do not encode batches.
    Undecodable,
}

/// Decodes batches, and collects what the inputs of a block with them are requested for. Bytes that
/// may hold the code of an account with a single procedure are not decoded.
pub fn read_ordered_batches(bytes: &Vec<u8>) -> (r: Result<BlockInputsQuery, BatchesError>)
    ensures
        if has_short_code(bytes@) {
            r == Err::<BlockInputsQuery, BatchesError>(BatchesError::ShortCode)
        } else {
            match ordered_batches_of_bytes(bytes@) {
                None => r == Err::<BlockInputsQuery, BatchesError>(BatchesError::Undecodable),
                Some(batches) => r matches Ok(query) && is_query_for(
                    query,
                    decoded_batches(batches),
                ),
            }
        },
{
    if find_short_code(bytes) {
        return Err(BatchesError::ShortCode);
    }
    match ordered_batches_from_bytes(bytes) {
        Some(batches) => Ok(block_inputs_from_ordered_batches(&decode_batches(batches))),
        None => Err(BatchesError::Undecodable),
    }
}

proof fn lemma_notes_of_one_batch(notes: Seq<InputNoteView>)
    ensures
        forall|j: int|
            0 <= j < notes.len() && (#[trigger] notes[j]).header is Some
                ==> unauthenticated_notes(notes).contains(note_commitment_of(notes[j].header->0)),
        forall|k: int|
            0 <= k < unauthenticated_notes(notes).len() ==> exists|j: int|
                0 <= j < notes.len() && (#[trigger] notes[j]).header is Some && note_commitment_of(
                    notes[j].header->0,
                ) == #[trigger] unauthenticated_notes(notes)[k],
    decreases notes.len(),
{
    if notes.len() > 0 {
        let before = notes.drop_last();
        let found = unauthenticated_notes(before);
        lemma_notes_of_one_batch(before);
        let all = unauthenticated_notes(notes);
        assert forall|j: int|
            0 <= j < notes.len() && (#[trigger] notes[j]).header is Some implies all.contains(
            note_commitment_of(notes[j].header->0),
        ) by {
            let commitment = note_commitment_of(notes[j].header->0);
            if j < before.len() {
                assert(before[j] == notes[j]);
                let k = choose|k: int| 0 <= k < found.len() && found[k] == commitment;
                assert(all[k] == commitment);
            } else {
                assert(all[found.len() as int] == commitment);
            }
        }
        assert forall|k: int| 0 <= k < all.len() implies exists|j: int|
            0 <= j < notes.len() && (#[trigger] notes[j]).header is Some && note_commitment_of(
                notes[j].header->0,
            ) == #[trigger] all[k] by {
            if k < found.len() {
                assert(found[k] == all[k]);
                let j = choose|j: int|
                    0 <= j < before.len() && (#[trigger] before[j]).header is Some
                        && note_commitment_of(before[j].header->0) == found[k];
                assert(notes[j] == before[j]);
            } else {
                assert(notes[notes.len() - 1].header is Some);
            }
        }
    }
}

proof fn lemma_notes_of_batches(batches: Seq<BatchView>)
    ensures
        forall|i: int, j: int|
            0 <= i < batches.len() && 0 <= j < batches[i].input_notes.len() && (
            #[trigger] batches[i].input_notes[j]).header is Some ==> batch_notes(batches).contains(
                note_commitment_of(batches[i].input_notes[j].header->0),
            ),
        forall|k: int|
            0 <= k < batch_notes(batches).len() ==> exists|i: int, j: int|
                0 <= i < batches.len() && 0 <= j < batches[i].input_notes.len() && (
                #[trigger] batches[i].input_notes[j]).header is Some && note_commitment_of(
                    batches[i].input_notes[j].header->0,
                ) == #[trigger] batch_notes(batches)[k],
    decreases batches.len(),
{
    if batches.len() > 0 {
        let before = batches.drop_last();
        let last = batches.last().input_notes;
        let (found, added, all) = (
            batch_notes(before),
            unauthenticated_notes(last),
            batch_notes(batches),
        );
        lemma_notes_of_batches(before);
        lemma_notes_of_one_batch(last);
        assert forall|i: int, j: int|
            0 <= i < batches.len() && 0 <= j < batches[i].input_notes.len() && (
            #[trigger] batches[i].input_notes[j]).header is Some implies all.contains(
            note_commitment_of(batches[i].input_notes[j].header->0),
        ) by {
            let commitment = note_commitment_of(batches[i].input_notes[j].header->0);
            if i < before.len() {
                assert(before[i].input_notes[j] == batches[i].input_notes[j]);
                let k = choose|k: int| 0 <= k < found.len() && found[k] == commitment;
                assert(all[k] == commitment);
            } else {
                assert(last[j] == batches[i].input_notes[j]);
                let k = choose|k: int| 0 <= k < added.len() && added[k] == commitment;
                assert(all[found.len() + k] == commitment);
            }
        }
        assert forall|k: int| 0 <= k < all.len() implies exists|i: int, j: int|
            0 <= i < batches.len() && 0 <= j < batches[i].input_notes.len() && (
            #[trigger] batches[i].input_notes[j]).header is Some && note_commitment_of(
                batches[i].input_notes[j].header->0,
            ) == #[trigger] all[k] by {
            if k < found.len() {
                assert(found[k] == all[k]);
                let (i, j) = choose|i: int, j: int|
                    0 <= i < before.len() && 0 <= j < before[i].input_notes.len() && (
                    #[trigger] before[i].input_notes[j]).header is Some && note_commitment_of(
                        before[i].input_notes[j].header->0,
                    ) == found[k];
                assert(batches[i].input_notes[j] == before[i].input_notes[j]);
            } else {
                assert(added[k - found.len()] == all[k]);
                let j = choose|j: int|
                    0 <= j < last.len() && (#[trigger] last[j]).header is Some
                        && note_commitment_of(last[j].header->0) == added[k - found.len()];
                assert(batches[batches.len() - 1].input_notes[j] == last[j]);
            }
        }
    }
}

proof fn lemma_accounts_of_batches(batches: Seq<BatchView>)
    ensures
        batch_accounts(batches) == batches.map_values(
            |batch: BatchView| batch.updated_accounts,
        ).flatten(),
    decreases batches.len(),
{
    let lists = batches.map_values(|batch: BatchView| batch.updated_accounts);
    lists.lemma_flatten_and_flatten_alt_are_equivalent();
    if batches.len() > 0 {
        let before = batches.drop_last();
        let lists_before = before.map_values(|batch: BatchView| batch.updated_accounts);
        lemma_accounts_of_batches(before);
        lists_before.lemma_flatten_and_flatten_alt_are_equivalent();
        assert(lists.drop_last() =~= lists_before);
    } else {
        assert(lists.flatten() =~= Seq::empty());
    }
}

proof fn lemma_nullifiers_of_batches(batches: Seq<BatchView>)
    ensures
        batch_nullifiers(batches) == batches.map_values(
            |batch: BatchView|
                batch.input_notes.map_values(|note: InputNoteView| note.nullifier),
        ).flatten(),
    decreases batches.len(),
{
    let lists = batches.map_values(
        |batch: BatchView| batch.input_notes.map_values(|note: InputNoteView| note.nullifier),
    );
    lists.lemma_flatten_and_flatten_alt_are_equivalent();
    if batches.len() > 0 {
        let before = batches.drop_last();
        let lists_before = before.map_values(
            |batch: BatchView| batch.input_notes.map_values(|note: InputNoteView| note.nullifier),
        );
        lemma_nullifiers_of_batches(before);
        lists_before.lemma_flatten_and_flatten_alt_are_equivalent();
        assert(lists.drop_last() =~= lists_before);
        assert(lists.last() =~= note_nullifiers(batches.last().input_notes));
    } else {
        assert(lists.flatten() =~= Seq::empty());
    }
}

proof fn lemma_flatten_members<T>(lists: Seq<Seq<T>>)
    ensures
        forall|i: int, j: int|
            0 <= i < lists.len() && 0 <= j < lists[i].len() ==> lists.flatten().contains(
                #[trigger] lists[i][j],
            ),
        forall|item: T| #[trigger]
            lists.flatten().contains(item) ==> exists|i: int, j: int|
                0 <= i < lists.len() && 0 <= j < lists[i].len() && #[trigger] lists[i][j] == item,
    decreases lists.len(),
{
    if lists.len() > 0 {
        let first = lists.first();
        let rest = lists.drop_first();
        let all = lists.flatten();
        lemma_flatten_members(rest);
        assert forall|i: int, j: int| 0 <= i < lists.len() && 0 <= j < lists[i].len() implies
            all.contains(#[trigger] lists[i][j]) by {
            if i == 0 {
                assert(all[j] == lists[i][j]);
            } else {
                assert(rest[i - 1][j] == lists[i][j]);
                let k = choose|k: int|
                    0 <= k < rest.flatten().len() && rest.flatten()[k] == lists[i][j];
                assert(all[first.len() + k] == lists[i][j]);
            }
        }
        assert forall|item: T| #[trigger] lists.flatten().contains(item) implies exists|
            i: int,
            j: int,
        |
            0 <= i < lists.len() && 0 <= j < lists[i].len() && #[trigger] lists[i][j] == item by {
            let k = choose|k: int| 0 <= k < all.len() && all[k] == item;
            if k < first.len() {
                assert(lists[0][k] == item);
            } else {
                assert(rest.flatten()[k - first.len()] == item);
                assert(rest.flatten().contains(item));
                let (i, j) = choose|i: int, j: int|
                    0 <= i < rest.len() && 0 <= j < rest[i].len() && #[trigger] rest[i][j] == item;
                assert(lists[i + 1][j] == rest[i][j]);
            }
        }
    } else {
        assert(lists.flatten() =~= Seq::empty());
    }
}

/// The inputs of a block are requested for what each of its batches holds, and for nothing else: every
/// account that a batch updates, the commitment to every note that a batch consumes with its header,
/// every block that a batch refers to, each once, and the nullifiers of all notes that the batches
/// consume, in order.
pub proof fn lemma_inputs_of_all_batches_are_requested(
    query: BlockInputsQuery,
    batches: Seq<BatchView>,
)
    requires
        is_query_for(query, batches),
    ensures
        forall|i: int, j: int|
            0 <= i < batches.len() && 0 <= j < batches[i].input_notes.len() && (
            #[trigger] batches[i].input_notes[j]).header is Some
                ==> query.unauthenticated_note_commitments@.contains(
                note_commitment_of(batches[i].input_notes[j].header->0),
            ),
        forall|commitment: Word| #[trigger]
            query.unauthenticated_note_commitments@.contains(commitment) ==> exists|i: int, j: int|
                0 <= i < batches.len() && 0 <= j < batches[i].input_notes.len() && (
                #[trigger] batches[i].input_notes[j]).header is Some && note_commitment_of(
                    batches[i].input_notes[j].header->0,
                ) == commitment,
        query.unauthenticated_note_commitments@.no_duplicates(),
        forall|i: int, j: int|
            0 <= i < batches.len() && 0 <= j < batches[i].updated_accounts.len()
                ==> query.account_ids@.contains(#[trigger] batches[i].updated_accounts[j]),
        forall|id: AccountId| #[trigger]
            query.account_ids@.contains(id) ==> exists|i: int, j: int|
                0 <= i < batches.len() && 0 <= j < batches[i].updated_accounts.len()
                    && #[trigger] batches[i].updated_accounts[j] == id,
        query.account_ids@.no_duplicates(),
        query.nullifiers@ == batches.map_values(
            |batch: BatchView|
                batch.input_notes.map_values(|note: InputNoteView| note.nullifier),
        ).flatten(),
        forall|i: int|
            0 <= i < batches.len() ==> query.reference_blocks@.contains(
                (#[trigger] batches[i]).reference_block_num,
            ),
        forall|block: BlockNumber| #[trigger]
            query.reference_blocks@.contains(block) ==> exists|i: int|
                0 <= i < batches.len() && (#[trigger] batches[i]).reference_block_num == block,
{
    let (notes, accounts) = (batch_notes(batches), batch_accounts(batches));
    let lists = batches.map_values(|batch: BatchView| batch.updated_accounts);
    let (found_notes, found_accounts) = (
        query.unauthenticated_note_commitments@,
        query.account_ids@,
    );
    lemma_distinct(notes);
    lemma_distinct(accounts);
    lemma_notes_of_batches(batches);
    lemma_accounts_of_batches(batches);
    lemma_nullifiers_of_batches(batches);
    lemma_flatten_members(lists);
    assert forall|word: Word| found_notes.contains(word) <==> notes.contains(word) by {
        assert(found_notes.to_set().contains(word) <==> notes.to_set().contains(word));
    }
    assert forall|id: AccountId| found_accounts.contains(id) <==> accounts.contains(id) by {
        assert(found_accounts.to_set().contains(id) <==> accounts.to_set().contains(id));
    }
    assert forall|commitment: Word| #[trigger]
        query.unauthenticated_note_commitments@.contains(commitment) implies exists|
        i: int,
        j: int,
    |
        0 <= i < batches.len() && 0 <= j < batches[i].input_notes.len() && (
        #[trigger] batches[i].input_notes[j]).header is Some && note_commitment_of(
            batches[i].input_notes[j].header->0,
        ) == commitment by {
        assert(notes.contains(commitment));
        let n = choose|n: int| 0 <= n < notes.len() && notes[n] == commitment;
        assert(notes[n] == commitment);
    }
    assert forall|i: int, j: int|
        0 <= i < batches.len() && 0 <= j < batches[i].updated_accounts.len() implies
        found_accounts.contains(#[trigger] batches[i].updated_accounts[j]) by {
        assert(lists[i][j] == batches[i].updated_accounts[j]);
    }
    assert forall|id: AccountId| #[trigger] query.account_ids@.contains(id) implies exists|
        i: int,
        j: int,
    |
        0 <= i < batches.len() && 0 <= j < batches[i].updated_accounts.len()
            && #[trigger] batches[i].updated_accounts[j] == id by {
        assert(lists.flatten().contains(id));
        let (i, j) = choose|i: int, j: int|
            0 <= i < lists.len() && 0 <= j < lists[i].len() && #[trigger] lists[i][j] == id;
        assert(batches[i].updated_accounts[j] == lists[i][j]);
    }
    let references = batches.map_values(|batch: BatchView| batch.reference_block_num);
    assert forall|i: int| 0 <= i < batches.len() implies query.reference_blocks@.contains(
        (#[trigger] batches[i]).reference_block_num,
    ) by {
        assert(references[i] == batches[i].reference_block_num);
    }
    assert forall|block: BlockNumber| #[trigger]
        query.reference_blocks@.contains(block) implies exists|i: int|
        0 <= i < batches.len() && (#[trigger] batches[i]).reference_block_num == block by {
        let i = choose|i: int| 0 <= i < references.len() && references[i] == block;
        assert(batches[i].reference_block_num == block);
    }
}

/// Batches that are decoded are those that the bytes hold: each keeps the accounts that it updates and
/// the block that it refers to, and has the notes that its bytes encode.
pub proof fn lemma_batches_are_decoded_one_by_one(batches: Seq<EncodedBatchView>)
    ensures
        decoded_batches(batches).len() == batches.len(),
        forall|i: int|
            0 <= i < batches.len() ==> (#[trigger] decoded_batches(batches)[i]).updated_accounts
                == batches[i].updated_accounts && decoded_batches(batches)[i].reference_block_num
                == batches[i].reference_block_num && (input_notes_of_bytes(batches[i].input_notes)
                matches Some(notes) ==> decoded_batches(batches)[i].input_notes == notes),
{
}

/// Digests are read as words with the same elements, in order. They are refused exactly if an element of
/// one of them is not below the order of the field.
pub proof fn lemma_digests_are_words(digests: Seq<Digest>)
    ensures
        digest_words(digests) is Ok <==> forall|i: int|
            0 <= i < digests.len() ==> (#[trigger] digests[i]).d0 < 0xFFFF_FFFF_0000_0001
                && digests[i].d1 < 0xFFFF_FFFF_0000_0001 && digests[i].d2 < 0xFFFF_FFFF_0000_0001
                && digests[i].d3 < 0xFFFF_FFFF_0000_0001,
        digest_words(digests) matches Ok(words) ==> words.len() == digests.len() && forall|i: int|
            0 <= i < words.len() ==> #[trigger] words[i] == Word(
                digests[i].d0,
                digests[i].d1,
                digests[i].d2,
                digests[i].d3,
            ),
{
    let results = digests.map_values(|digest: Digest| digest_word(digest));
    lemma_collect_values(results);
    lemma_collect_first_error(results);
    if digest_words(digests) is Ok {
        let words = digest_words(digests)->Ok_0;
        assert forall|i: int| 0 <= i < digests.len() implies (
        #[trigger] digests[i]).d0 < 0xFFFF_FFFF_0000_0001 && digests[i].d1 < 0xFFFF_FFFF_0000_0001
            && digests[i].d2 < 0xFFFF_FFFF_0000_0001 && digests[i].d3 < 0xFFFF_FFFF_0000_0001 by {
            assert(results[i] == Ok::<Word, ConversionError>(words[i]));
        }
        assert forall|i: int| 0 <= i < words.len() implies #[trigger] words[i] == Word(
            digests[i].d0,
            digests[i].d1,
            digests[i].d2,
            digests[i].d3,
        ) by {
            assert(results[i] == Ok::<Word, ConversionError>(words[i]));
        }
    } else {
        let error = digest_words(digests)->Err_0;
        let i = choose|i: int|
            0 <= i < results.len() && #[trigger] results[i] == Err::<Word, ConversionError>(error)
                && forall|k: int| 0 <= k < i ==> (#[trigger] results[k]) is Ok;
        assert(digest_word(digests[i]) is Err);
    }
}

} // verus!
