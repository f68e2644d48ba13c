//! Blocks as they are received from another store: encoded, and decoded by the protocol library.

use miden_protocol::account::delta::AccountUpdateDetails as ProtocolDetails;
use miden_protocol::block::{
    BlockBody as ProtocolBody, BlockHeader as ProtocolHeader, SignedBlock as ProtocolBlock,
};
use miden_protocol::note::NoteDetails;
use miden_protocol::transaction::OutputNote as ProtocolNote;
use miden_protocol::utils::serde::{Deserializable, Serializable};
use miden_protocol::Word as ProtocolWord;
use vstd::prelude::*;

use crate::account_code::{find_short_code, has_short_code};
use crate::account_id::AccountId;
use crate::block_number::BlockNumber;
use crate::db::new_account::{
    brings_no_account, is_update_of, read_account_update, ReceivedUpdate, ReceivedUpdateView,
};
use crate::db::transactions::BlockNoteIndex;
use crate::db::updates::BlockAccountUpdate;
use crate::errors::DatabaseError;
use crate::genesis::SealedHeader;
use crate::notes::NoteHeader;
use crate::state::apply_block::{BlockBody, BlockHeader, OutputNote, OutputNoteView};
use crate::state::signed_block::SignedBlock;
use crate::word::Word;

verus! {

// DECODED BLOCKS
// ================================================================================================

/// The header of a block, as the protocol library decodes it.
#[verifier::external_type_specification]
#[verifier::external_body]
pub struct ExBlockHeader(ProtocolHeader);

/// The body of a block, as the protocol library decodes it.
#[verifier::external_type_specification]
#[verifier::external_body]
pub struct ExBlockBody(ProtocolBody);

/// What the header of a block holds. The key and the fee parameters are encoded.
#[verifier::ext_equal]
pub struct SealedHeaderView {
    pub header: BlockHeader,
    pub version: u32,
    pub tx_kernel_commitment: Word,
    pub validator_key: Seq<u8>,
    pub fee_parameters: Seq<u8>,
    pub timestamp: u32,
}

impl View for SealedHeader {
    type V = SealedHeaderView;

    open spec fn view(&self) -> SealedHeaderView {
        SealedHeaderView {
            header: self.header,
            version: self.version,
            tx_kernel_commitment: self.tx_kernel_commitment,
            validator_key: self.validator_key@,
            fee_parameters: self.fee_parameters@,
            timestamp: self.timestamp,
        }
    }
}

/// What the body of a block holds as it was decoded. The notes of a batch come with their positions in
/// the batch.
#[verifier::ext_equal]
pub struct ReceivedBodyView {
    pub transactions_commitment: Word,
    pub updated_accounts: Seq<ReceivedUpdateView>,
    pub created_nullifiers: Seq<Word>,
    pub note_batches: Seq<Seq<(usize, OutputNoteView)>>,
}

/// What a signed block holds as it was decoded.
#[verifier::ext_equal]
pub struct ReceivedBlockView {
    pub sealed: SealedHeaderView,
    pub body: ReceivedBodyView,
    pub signature: Seq<u8>,
}

/// What a header that was decoded holds, by the functions of `BlockHeader` that read it.
pub uninterp spec fn header_of(header: ProtocolHeader) -> SealedHeaderView;

/// What a body that was decoded holds, by the functions of `BlockBody` that read it.
pub uninterp spec fn body_of(body: ProtocolBody) -> ReceivedBodyView;

/// What the block that `SignedBlock::read_from_bytes` reads from bytes holds, or `None` if it reads
/// none.
pub uninterp spec fn signed_block_of_bytes(bytes: Seq<u8>) -> Option<ReceivedBlockView>;

/// Decodes a signed block by `SignedBlock::read_from_bytes`, and takes it apart by `into_parts`. The
/// signature is encoded again by `Signature::to_bytes`.
///
/// The code of an account with a single procedure makes it panic. Nothing else does. In miden-protocol
/// 0.14.5 the readers are those of `block/signed_block.rs` 202, `block/header.rs` 294 and 386,
/// `block/block_number.rs` 95, `block/block_body.rs` 192, `block/block_account_update.rs` 76 and
/// `note/nullifier.rs` 124, and in miden-crypto 0.23.0 those of `dsa/ecdsa_k256_keccak/mod.rs` 353 and
/// 374. What a body holds is read as in batches, which `server/api.rs` lists: the changes of accounts,
/// where a code is read behind a byte 1, the output notes and the transactions.
#[verifier::external_body]
fn signed_block_from_bytes(bytes: &Vec<u8>) -> (r: Option<
    (ProtocolHeader, ProtocolBody, Vec<u8>),
>)
    requires
        !has_short_code(bytes@),
    ensures
        match r {
            None => signed_block_of_bytes(bytes@) is None,
            Some((header, body, signature)) => signed_block_of_bytes(bytes@) == Some(
                ReceivedBlockView {
                    sealed: header_of(header),
                    body: body_of(body),
                    signature: signature@,
                },
            ),
        },
{
    let (header, body, signature) = ProtocolBlock::read_from_bytes(bytes).ok()?.into_parts();
    Some((header, body, signature.to_bytes()))
}

/// Reads the number of a block and the commitments in its header by the functions of `BlockHeader`.
#[verifier::external_body]
fn commitments_of_header(header: &ProtocolHeader) -> (r: BlockHeader)
    ensures
        r == header_of(*header).header,
{
    let word = |w: ProtocolWord| { let [a, b, c, d]: [u64; 4] = w.into(); Word(a, b, c, d) };
    BlockHeader {
        block_num: BlockNumber(header.block_num().as_u32()),
        commitment: word(header.commitment()),
        prev_block_commitment: word(header.prev_block_commitment()),
        chain_commitment: word(header.chain_commitment()),
        account_root: word(header.account_root()),
        nullifier_root: word(header.nullifier_root()),
        note_root: word(header.note_root()),
        tx_commitment: word(header.tx_commitment()),
    }
}

/// Reads the rest of a header by the functions of `BlockHeader`: the version, the time, the commitment
/// to the kernel, the key and the fee parameters. The latter two are encoded by `to_bytes`.
#[verifier::external_body]
fn seal_of_header(header: &ProtocolHeader) -> (r: (u32, u32, Word, Vec<u8>, Vec<u8>))
    ensures
        r.0 == header_of(*header).version,
        r.1 == header_of(*header).timestamp,
        r.2 == header_of(*header).tx_kernel_commitment,
        r.3@ == header_of(*header).validator_key,
        r.4@ == header_of(*header).fee_parameters,
{
    let [a, b, c, d]: [u64; 4] = header.tx_kernel_commitment().into();
    let (key, fees) = (header.validator_key().to_bytes(), header.fee_parameters().to_bytes());
    (header.version(), header.timestamp(), Word(a, b, c, d), key, fees)
}

/// Takes the header of a block as it was decoded.
pub fn read_header(header: &ProtocolHeader) -> (r: SealedHeader)
    ensures
        r@ == header_of(*header),
{
    let (version, timestamp, tx_kernel_commitment, validator_key, fee_parameters) = seal_of_header(
        header,
    );
    let header = commitments_of_header(header);
    SealedHeader {
        header,
        version,
        tx_kernel_commitment,
        validator_key,
        fee_parameters,
        timestamp,
    }
}

/// Reads the commitment to the transactions of a block by `BlockBody::transaction_commitment`.
#[verifier::external_body]
fn commitment_of_body(body: &ProtocolBody) -> (r: Word)
    ensures
        r == body_of(*body).transactions_commitment,
{
    let [a, b, c, d]: [u64; 4] = body.transaction_commitment().into();
    Word(a, b, c, d)
}

/// Reads the nullifiers of a block by `BlockBody::created_nullifiers`.
#[verifier::external_body]
fn nullifiers_of_body(body: &ProtocolBody) -> (r: Vec<Word>)
    ensures
        r@ == body_of(*body).created_nullifiers,
{
    body.created_nullifiers().iter().map(|nullifier| {
        let [a, b, c, d]: [u64; 4] = nullifier.as_word().into();
        Word(a, b, c, d)
    }).collect()
}

/// Reads the updates of accounts by `BlockBody::updated_accounts`.
#[verifier::external_body]
fn updates_of_body(body: &ProtocolBody) -> (r: Vec<ReceivedUpdate>)
    ensures
        r@.map_values(|update: ReceivedUpdate| update@) == body_of(*body).updated_accounts,
{
    body.updated_accounts().iter().map(|update| {
        let [a, b, c, d]: [u64; 4] = update.final_state_commitment().into();
        let (prefix, suffix) = (update.account_id().prefix(), update.account_id().suffix());
        let delta = match update.details() {
            ProtocolDetails::Private => None,
            ProtocolDetails::Delta(delta) => Some(delta.clone()),
        };
        ReceivedUpdate {
            account_id: AccountId { prefix: prefix.as_u64(), suffix: suffix.as_canonical_u64() },
            final_state_commitment: Word(a, b, c, d),
            delta,
        }
    }).collect()
}

/// What a note of a batch holds, with its position in the batch.
pub open spec fn batched_note(note: (usize, OutputNote)) -> (usize, OutputNoteView) {
    (note.0, note.1@)
}

/// What the notes of batches hold.
pub open spec fn batched_notes(batches: Seq<Vec<(usize, OutputNote)>>) -> Seq<
    Seq<(usize, OutputNoteView)>,
> {
    batches.map_values(
        |batch: Vec<(usize, OutputNote)>|
            batch@.map_values(|note: (usize, OutputNote)| batched_note(note)),
    )
}

/// Counts the batches of a block by `BlockBody::output_note_batches`.
#[verifier::external_body]
fn batch_count_of_body(body: &ProtocolBody) -> (r: usize)
    ensures
        r == body_of(*body).note_batches.len(),
{
    body.output_note_batches().len()
}

/// Reads the notes of a batch of a block by `BlockBody::output_note_batches`. The metadata of all notes
/// and the details of public ones are encoded by `to_bytes`, and public notes come with their
/// nullifiers by `Note::nullifier`. Scripts of public notes have no debug information, so that nothing
/// stops them from being encoded (miden-protocol 0.14.5, `transaction/outputs/notes.rs` 485).
#[verifier::external_body]
fn notes_of_batch(body: &ProtocolBody, batch_idx: usize) -> (r: Vec<(usize, OutputNote)>)
    requires
        batch_idx < body_of(*body).note_batches.len(),
    ensures
        r@.map_values(|note: (usize, OutputNote)| batched_note(note)) == body_of(
            *body,
        ).note_batches[batch_idx as int],
{
    let word = |w: ProtocolWord| { let [a, b, c, d]: [u64; 4] = w.into(); Word(a, b, c, d) };
    body.output_note_batches()[batch_idx].iter().map(|(index, note)| {
        let note_id = word(note.id().as_word());
        let header = NoteHeader { note_id, metadata: note.metadata().to_bytes() };
        (*index, match note {
            ProtocolNote::Public(note) => OutputNote::Public {
                header,
                details: NoteDetails::from(note.as_note()).to_bytes(),
                nullifier: word(note.as_note().nullifier().as_word()),
            },
            ProtocolNote::Private(_) => OutputNote::Private { header },
        })
    }).collect()
}

// READING
// ================================================================================================

/// The notes of a batch with their positions in the block.
pub open spec fn positioned(batch_idx: usize, notes: Seq<(usize, OutputNoteView)>) -> Seq<
    (BlockNoteIndex, OutputNoteView),
> {
    notes.map_values(
        |note: (usize, OutputNoteView)|
            (BlockNoteIndex { batch_idx, note_idx_in_batch: note.0 }, note.1),
    )
}

/// The notes of all batches of a block with their positions in the block, batch by batch.
pub open spec fn notes_in_batches(batches: Seq<Seq<(usize, OutputNoteView)>>) -> Seq<
    (BlockNoteIndex, OutputNoteView),
>
    decreases batches.len(),
{
    if batches.len() == 0 {
        Seq::empty()
    } else {
        notes_in_batches(batches.drop_last()) + positioned(
            (batches.len() - 1) as usize,
            batches.last(),
        )
    }
}

/// What notes at positions of a block hold.
pub open spec fn placed_notes(notes: Seq<(BlockNoteIndex, OutputNote)>) -> Seq<
    (BlockNoteIndex, OutputNoteView),
> {
    notes.map_values(|note: (BlockNoteIndex, OutputNote)| (note.0, note.1@))
}

/// Gives the notes of batches their positions in the block.
pub fn place_notes(batches: Vec<Vec<(usize, OutputNote)>>) -> (r: Vec<(BlockNoteIndex, OutputNote)>)
    ensures
        placed_notes(r@) == notes_in_batches(batched_notes(batches@)),
{
    let ghost all = batches@;
    let ghost views = batched_notes(all);
    let mut placed: Vec<(BlockNoteIndex, OutputNote)> = Vec::new();
    let mut batch_idx: usize = 0;
    let total: usize = batches.len();
    assert(placed_notes(placed@) =~= notes_in_batches(views.take(0)));
    for batch in batches_left: batches
        invariant
            batches_left.seq() == all,
            all.len() == total,
            views == batched_notes(all),
            batch_idx == batches_left.index(),
            placed_notes(placed@) == notes_in_batches(views.take(batch_idx as int)),
    {
        let ghost notes = batch@;
        let ghost before = placed@;
        let ghost view = notes.map_values(|note: (usize, OutputNote)| batched_note(note));
        assert(view == views[batch_idx as int]);
        let mut count: usize = 0;
        let len: usize = batch.len();
        assert(placed_notes(placed@) =~= placed_notes(before) + positioned(
            batch_idx,
            view.take(0),
        ));
        for note in notes_left: batch
            invariant
                notes_left.seq() == notes,
                notes.len() == len,
                view == notes.map_values(|note: (usize, OutputNote)| batched_note(note)),
                count == notes_left.index(),
                placed_notes(placed@) == placed_notes(before) + positioned(
                    batch_idx,
                    view.take(count as int),
                ),
        {
            let ghost last = placed@;
            let (note_idx_in_batch, output_note) = note;
            placed.push((BlockNoteIndex { batch_idx, note_idx_in_batch }, output_note));
            proof {
                assert(view[count as int] == batched_note(notes[count as int]));
                assert(placed_notes(placed@) =~= placed_notes(last).push(
                    (BlockNoteIndex { batch_idx, note_idx_in_batch }, output_note@),
                ));
                assert(positioned(batch_idx, view.take(count + 1)) =~= positioned(
                    batch_idx,
                    view.take(count as int),
                ).push((BlockNoteIndex { batch_idx, note_idx_in_batch }, output_note@)));
                assert(placed_notes(placed@) =~= placed_notes(before) + positioned(
                    batch_idx,
                    view.take(count + 1),
                ));
            }
            count = count + 1;
        }
        proof {
            assert(view.take(count as int) =~= view);
            assert(views.take(batch_idx + 1).drop_last() =~= views.take(batch_idx as int));
        }
        batch_idx = batch_idx + 1;
    }
    assert(views.take(batch_idx as int) =~= views);
    placed
}

fn read_notes(body: &ProtocolBody) -> (r: Vec<(BlockNoteIndex, OutputNote)>)
    ensures
        placed_notes(r@) == notes_in_batches(body_of(*body).note_batches),
{
    let ghost views = body_of(*body).note_batches;
    let count: usize = batch_count_of_body(body);
    let mut batches: Vec<Vec<(usize, OutputNote)>> = Vec::new();
    let mut i: usize = 0;
    while i < count
        invariant
            i <= count == views.len(),
            views == body_of(*body).note_batches,
            batches@.len() == i,
            forall|k: int| 0 <= k < i ==> (#[trigger] batched_notes(batches@)[k]) == views[k],
        decreases count - i,
    {
        let ghost before = batches@;
        batches.push(notes_of_batch(body, i));
        proof {
            assert forall|k: int| 0 <= k < i + 1 implies (#[trigger] batched_notes(batches@)[k])
                == views[k] by {
                if k < i {
                    assert(batched_notes(before)[k] == views[k]);
                }
            }
        }
        i = i + 1;
    }
    assert(batched_notes(batches@) =~= views);
    place_notes(batches)
}

/// Whether a result is the body of a block as the store works with it. It fails if an update brings no
/// account.
pub open spec fn is_body_of(
    result: Result<BlockBody, DatabaseError>,
    body: ReceivedBodyView,
) -> bool {
    if exists|i: int|
        0 <= i < body.updated_accounts.len() && brings_no_account(
            #[trigger] body.updated_accounts[i],
        ) {
        result == Err::<BlockBody, DatabaseError>(DatabaseError::AccountError)
    } else {
        &&& result matches Ok(found)
        &&& found.transactions_commitment == body.transactions_commitment
        &&& found.created_nullifiers@ == body.created_nullifiers
        &&& placed_notes(found.output_notes@) == notes_in_batches(body.note_batches)
        &&& found.updated_accounts@.len() == body.updated_accounts.len()
        &&& forall|i: int|
            0 <= i < body.updated_accounts.len() ==> is_update_of(
                Ok(#[trigger] found.updated_accounts@[i]),
                body.updated_accounts[i],
            )
    }
}

/// Takes the body of a block as it was decoded.
pub fn read_body(body: &ProtocolBody) -> (r: Result<BlockBody, DatabaseError>)
    ensures
        is_body_of(r, body_of(*body)),
{
    let updates = updates_of_body(body);
    let ghost views = body_of(*body).updated_accounts;
    let mut updated_accounts: Vec<BlockAccountUpdate> = Vec::new();
    let mut i: usize = 0;
    while i < updates.len()
        invariant
            i <= updates@.len(),
            views == body_of(*body).updated_accounts,
            updates@.map_values(|update: ReceivedUpdate| update@) == views,
            updated_accounts@.len() == i,
            forall|k: int|
                0 <= k < i ==> is_update_of(Ok(#[trigger] updated_accounts@[k]), views[k]),
            forall|k: int| 0 <= k < i ==> !brings_no_account(#[trigger] views[k]),
        decreases updates@.len() - i,
    {
        assert(views[i as int] == updates@[i as int]@);
        match read_account_update(&updates[i]) {
            Err(error) => {
                assert(brings_no_account(views[i as int]));
                return Err(error);
            },
            Ok(update) => updated_accounts.push(update),
        }
        i = i + 1;
    }
    Ok(
        BlockBody {
            transactions_commitment: commitment_of_body(body),
            updated_accounts,
            created_nullifiers: nullifiers_of_body(body),
            output_notes: read_notes(body),
        },
    )
}

/// Why a block could not be read.
#[derive(Clone, Debug, PartialEq, Eq)]
pub enum ReadBlockError {
    /// The bytes hold what may be the code of an account with a single procedure.
    ShortCode,
    /// The bytes encode no block.
    Undecodable,
    /// An update of the block brings no account.
    Account(DatabaseError),
}

/// Whether a result is the block that was decoded, as the store works with it.
pub open spec fn is_block_of(
    result: Result<SignedBlock, ReadBlockError>,
    block: ReceivedBlockView,
) -> bool {
    match result {
        Ok(found) => {
            &&& found.sealed@ == block.sealed
            &&& is_body_of(Ok(found.body), block.body)
            &&& found.signature@ == block.signature
        },
        Err(error) => {
            &&& error matches ReadBlockError::Account(error)
            &&& is_body_of(Err(error), block.body)
        },
    }
}

/// Takes a signed block as it was decoded. The signature is encoded.
pub fn read_block(header: &ProtocolHeader, body: &ProtocolBody, signature: Vec<u8>) -> (r: Result<
    SignedBlock,
    ReadBlockError,
>)
    ensures
        is_block_of(
            r,
            ReceivedBlockView {
                sealed: header_of(*header),
                body: body_of(*body),
                signature: signature@,
            },
        ),
{
    match read_body(body) {
        Err(error) => Err(ReadBlockError::Account(error)),
        Ok(body) => Ok(SignedBlock { sealed: read_header(header), body, signature }),
    }
}

/// Reads a signed block that another store sent.
pub fn read_signed_block(bytes: &Vec<u8>) -> (r: Result<SignedBlock, ReadBlockError>)
    ensures
        if has_short_code(bytes@) {
            r == Err::<SignedBlock, ReadBlockError>(ReadBlockError::ShortCode)
        } else {
            match signed_block_of_bytes(bytes@) {
                None => r == Err::<SignedBlock, ReadBlockError>(ReadBlockError::Undecodable),
                Some(block) => is_block_of(r, block),
            }
        },
{
    if find_short_code(bytes) {
        return Err(ReadBlockError::ShortCode);
    }
    match signed_block_from_bytes(bytes) {
        None => Err(ReadBlockError::Undecodable),
        Some((header, body, signature)) => read_block(&header, &body, signature),
    }
}

// LAWS
// ================================================================================================

/// Every note of every batch is in the block, at the position that its batch and its position in the
/// batch give it, and no other note is.
pub proof fn lemma_notes_keep_their_positions(batches: Seq<Seq<(usize, OutputNoteView)>>)
    requires
        batches.len() <= usize::MAX,
    ensures
        forall|b: int, n: int|
            0 <= b < batches.len() && 0 <= n < batches[b].len() ==> notes_in_batches(
                batches,
            ).contains(
                (
                    BlockNoteIndex {
                        batch_idx: b as usize,
                        note_idx_in_batch: batches[b][n].0,
                    },
                    (#[trigger] batches[b][n]).1,
                ),
            ),
        forall|note: (BlockNoteIndex, OutputNoteView)| #[trigger]
            notes_in_batches(batches).contains(note) ==> exists|b: int, n: int|
                0 <= b < batches.len() && 0 <= n < batches[b].len() && b == note.0.batch_idx
                    && #[trigger] batches[b][n] == (note.0.note_idx_in_batch, note.1),
    decreases batches.len(),
{
    if batches.len() > 0 {
        let before = batches.drop_last();
        let last = batches.len() - 1;
        let added = positioned(last as usize, batches[last]);
        let all = notes_in_batches(batches);
        lemma_notes_keep_their_positions(before);
        assert(all == notes_in_batches(before) + added);
        assert forall|b: int, n: int|
            0 <= b < batches.len() && 0 <= n < batches[b].len() implies all.contains(
            (
                BlockNoteIndex { batch_idx: b as usize, note_idx_in_batch: batches[b][n].0 },
                (#[trigger] batches[b][n]).1,
            ),
        ) by {
            let note = (
                BlockNoteIndex { batch_idx: b as usize, note_idx_in_batch: batches[b][n].0 },
                batches[b][n].1,
            );
            if b < last {
                assert(before[b][n] == batches[b][n]);
                assert(notes_in_batches(before).contains(note));
                let at = choose|at: int|
                    0 <= at < notes_in_batches(before).len() && notes_in_batches(before)[at]
                        == note;
                assert(all[at] == note);
            } else {
                assert(added[n] == note);
                assert(all[notes_in_batches(before).len() + n] == note);
            }
        }
        assert forall|note: (BlockNoteIndex, OutputNoteView)| #[trigger]
            all.contains(note) implies exists|b: int, n: int|
            0 <= b < batches.len() && 0 <= n < batches[b].len() && b == note.0.batch_idx
                && #[trigger] batches[b][n] == (note.0.note_idx_in_batch, note.1) by {
            let at = choose|at: int| 0 <= at < all.len() && all[at] == note;
            if at < notes_in_batches(before).len() {
                assert(notes_in_batches(before)[at] == note);
                assert(notes_in_batches(before).contains(note));
                let (b, n) = choose|b: int, n: int|
                    0 <= b < before.len() && 0 <= n < before[b].len() && b == note.0.batch_idx
                        && #[trigger] before[b][n] == (note.0.note_idx_in_batch, note.1);
                assert(batches[b][n] == (note.0.note_idx_in_batch, note.1));
            } else {
                let n = at - notes_in_batches(before).len();
                assert(added[n] == note);
                assert(batches[last][n] == (note.0.note_idx_in_batch, note.1));
            }
        }
    }
}

/// A block that was read has the header and the signature that were decoded. Its body has the commitment
/// to the transactions, all nullifiers and all updates in the order of the block, each with the account
/// and the commitment that the block names, and the notes of all batches.
pub proof fn lemma_blocks_are_read_whole(
    result: Result<SignedBlock, ReadBlockError>,
    block: ReceivedBlockView,
)
    requires
        is_block_of(result, block),
    ensures
        result matches Ok(found) ==> {
            &&& found.sealed.header == block.sealed.header
            &&& found.sealed.version == block.sealed.version
            &&& found.sealed.timestamp == block.sealed.timestamp
            &&& found.sealed.tx_kernel_commitment == block.sealed.tx_kernel_commitment
            &&& found.sealed.validator_key@ == block.sealed.validator_key
            &&& found.sealed.fee_parameters@ == block.sealed.fee_parameters
            &&& found.signature@ == block.signature
            &&& found.body.transactions_commitment == block.body.transactions_commitment
            &&& found.body.created_nullifiers@ == block.body.created_nullifiers
            &&& found.body.output_notes@.len() == notes_in_batches(block.body.note_batches).len()
            &&& forall|i: int|
                0 <= i < found.body.output_notes@.len() ==> (
                #[trigger] found.body.output_notes@[i]).0 == notes_in_batches(
                    block.body.note_batches,
                )[i].0 && found.body.output_notes@[i].1@ == notes_in_batches(
                    block.body.note_batches,
                )[i].1
            &&& found.body.updated_accounts@.len() == block.body.updated_accounts.len()
            &&& forall|i: int|
                0 <= i < block.body.updated_accounts.len() ==> (
                #[trigger] found.body.updated_accounts@[i]).account_id
                    == block.body.updated_accounts[i].account_id
                    && found.body.updated_accounts@[i].final_state_commitment
                    == block.body.updated_accounts[i].final_state_commitment
        },
        result matches Err(error) ==> error == ReadBlockError::Account(DatabaseError::AccountError)
            && exists|i: int|
            0 <= i < block.body.updated_accounts.len() && (
            #[trigger] block.body.updated_accounts[i]).delta is Some
                && block.body.updated_accounts[i].delta->0.code is Some,
{
    if result is Ok {
        let found = result->Ok_0;
        let notes = notes_in_batches(block.body.note_batches);
        assert(found.sealed@.header == block.sealed.header);
        assert(placed_notes(found.body.output_notes@) == notes);
        assert forall|i: int| 0 <= i < found.body.output_notes@.len() implies (
        #[trigger] found.body.output_notes@[i]).0 == notes[i].0
            && found.body.output_notes@[i].1@ == notes[i].1 by {
            assert(placed_notes(found.body.output_notes@)[i] == notes[i]);
        }
        assert forall|i: int| 0 <= i < block.body.updated_accounts.len() implies (
        #[trigger] found.body.updated_accounts@[i]).account_id
            == block.body.updated_accounts[i].account_id
            && found.body.updated_accounts@[i].final_state_commitment
            == block.body.updated_accounts[i].final_state_commitment by {
            assert(is_update_of(
                Ok(found.body.updated_accounts@[i]),
                block.body.updated_accounts[i],
            ));
        }
    } else {
        let i = choose|i: int|
            0 <= i < block.body.updated_accounts.len() && brings_no_account(
                #[trigger] block.body.updated_accounts[i],
            );
        assert(block.body.updated_accounts[i].delta is Some);
    }
}

/// A block of which no update brings code is read.
pub proof fn lemma_blocks_that_can_be_read(
    result: Result<SignedBlock, ReadBlockError>,
    block: ReceivedBlockView,
)
    requires
        is_block_of(result, block),
        forall|i: int|
            0 <= i < block.body.updated_accounts.len() ==> (
            #[trigger] block.body.updated_accounts[i]).delta is None
                || block.body.updated_accounts[i].delta->0.code is None,
    ensures
        result is Ok,
{
    assert forall|i: int| 0 <= i < block.body.updated_accounts.len() implies !brings_no_account(
        #[trigger] block.body.updated_accounts[i],
    ) by {
        assert(block.body.updated_accounts[i].delta is None
            || block.body.updated_accounts[i].delta->0.code is None);
    }
}

} // verus!
