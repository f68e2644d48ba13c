//! Laws on applying a block: which blocks are valid, what a block changes, and what is stored of its
//! notes.

use vstd::prelude::*;

use crate::account_id::AccountId;
use crate::block_number::BlockNumber;
use crate::db::entries::{lemma_pairs_by_key, pairs_by_key};
use crate::db::transactions::BlockNoteIndex;
use crate::db::updates::BlockAccountUpdate;
use crate::errors::{ApplyBlockError, InvalidBlockError};
use crate::genesis::{is_signature, SealedHeader};
use crate::notes::note_commitment_of;
use crate::protocol::is_valid_account_id;
use crate::smt_forest::count_with_last_element;
use crate::state::apply_block::{
    are_output_notes, commitment_updates, header_error, is_block_error, is_body_for,
    is_finish_result, is_prepared_for, is_tree_error, is_valid_block, note_leaves, note_path_of,
    note_records_of, note_root_of, prepares, record_views, state_after, BlockBody, BlockHeader,
    InnerView, NoteRecord, OutputNote, PreparedBlock,
};
use crate::state::signed_block::{signed_block_error, SignedBlockError};
use crate::state::trees::{
    account_root_of, accounts_after, accounts_before, any_conflict, are_account_updates,
    chain_commitment_of, commitment_in, conflicts_with, fits_nullifiers, nullifier_root_of,
    nullifiers_after, nullifiers_before, spent_in_leaf, with_spent, with_updates,
};
use crate::word::Word;

verus! {

// CHANGES
// ================================================================================================

/// Nullifiers that are spent at a block are spent afterwards, by that block, and all others are as they
/// were.
pub proof fn lemma_spent_nullifiers(
    spent: vstd::map::Map<Word, BlockNumber>,
    nullifiers: Seq<Word>,
    block_num: BlockNumber,
)
    ensures
        forall|nullifier: Word| #[trigger]
            with_spent(spent, nullifiers, block_num).contains_key(nullifier) <==> (
            spent.contains_key(nullifier) || nullifiers.contains(nullifier)),
        forall|nullifier: Word| #[trigger]
            nullifiers.contains(nullifier) ==> with_spent(spent, nullifiers, block_num)[nullifier]
                == block_num,
        forall|nullifier: Word| #[trigger]
            spent.contains_key(nullifier) && !nullifiers.contains(nullifier) ==> with_spent(
                spent,
                nullifiers,
                block_num,
            )[nullifier] == spent[nullifier],
    decreases nullifiers.len(),
{
    if nullifiers.len() > 0 {
        let before = nullifiers.drop_last();
        lemma_spent_nullifiers(spent, before, block_num);
        assert forall|nullifier: Word| nullifiers.contains(nullifier) <==> (before.contains(
            nullifier,
        ) || nullifier == nullifiers.last()) by {
            if nullifiers.contains(nullifier) && nullifier != nullifiers.last() {
                let i = choose|i: int| 0 <= i < nullifiers.len() && nullifiers[i] == nullifier;
                assert(before[i] == nullifier);
            }
            if before.contains(nullifier) {
                let i = choose|i: int| 0 <= i < before.len() && before[i] == nullifier;
                assert(nullifiers[i] == nullifier);
            }
            if nullifier == nullifiers.last() {
                assert(nullifiers[nullifiers.len() - 1] == nullifier);
            }
        }
        assert forall|nullifier: Word| #[trigger]
            with_spent(spent, nullifiers, block_num).contains_key(nullifier) <==> (
            spent.contains_key(nullifier) || nullifiers.contains(nullifier)) by {
            assert(with_spent(spent, before, block_num).contains_key(nullifier) <==> (
            spent.contains_key(nullifier) || before.contains(nullifier)));
        }
    }
}

/// Of the updates of an account the last one counts: it gives the account its commitment, or removes
/// the account if the commitment is empty. Accounts that no update names are as they were.
pub proof fn lemma_updated_accounts(
    accounts: vstd::map::Map<AccountId, Word>,
    updates: Seq<(AccountId, Word)>,
)
    ensures
        forall|i: int|
            0 <= i < updates.len() && (forall|j: int|
                i < j < updates.len() ==> (#[trigger] updates[j]).0 != updates[i].0) ==> {
                let (id, commitment) = #[trigger] updates[i];
                if commitment == Word(0, 0, 0, 0) {
                    !with_updates(accounts, updates).contains_key(id)
                } else {
                    &&& with_updates(accounts, updates).contains_key(id)
                    &&& with_updates(accounts, updates)[id] == commitment
                }
            },
        forall|id: AccountId|
            (forall|i: int| 0 <= i < updates.len() ==> (#[trigger] updates[i]).0 != id) ==> (
            #[trigger] with_updates(accounts, updates).contains_key(id) <==> accounts.contains_key(
                id,
            )) && (accounts.contains_key(id) ==> with_updates(accounts, updates)[id]
                == accounts[id]),
    decreases updates.len(),
{
    if updates.len() > 0 {
        let before = updates.drop_last();
        let (last_id, last_commitment) = updates.last();
        let after = with_updates(accounts, updates);
        lemma_updated_accounts(accounts, before);
        assert forall|i: int|
            0 <= i < updates.len() && (forall|j: int|
                i < j < updates.len() ==> (#[trigger] updates[j]).0 != updates[i].0) implies {
            let (id, commitment) = #[trigger] updates[i];
            if commitment == Word(0, 0, 0, 0) {
                !after.contains_key(id)
            } else {
                &&& after.contains_key(id)
                &&& after[id] == commitment
            }
        } by {
            if i < before.len() {
                assert(before[i] == updates[i]);
                assert(updates[updates.len() - 1].0 != updates[i].0);
                assert forall|j: int| i < j < before.len() implies (#[trigger] before[j]).0
                    != before[i].0 by {
                    assert(updates[j].0 != updates[i].0);
                }
            }
        }
        assert forall|id: AccountId|
            (forall|i: int| 0 <= i < updates.len() ==> (#[trigger] updates[i]).0 != id) implies (
        #[trigger] after.contains_key(id) <==> accounts.contains_key(id)) && (
        accounts.contains_key(id) ==> after[id] == accounts[id]) by {
            assert(updates[updates.len() - 1].0 != id);
            assert forall|i: int| 0 <= i < before.len() implies (#[trigger] before[i]).0 != id by {
                assert(updates[i].0 != id);
            }
            assert(with_updates(accounts, before).contains_key(id) <==> accounts.contains_key(id));
        }
    }
}

/// What a block changes: its commitment is added to the chain, its nullifiers are spent by it, and the
/// accounts that it updates have the commitments that it gives them. All else is as it was.
pub proof fn lemma_block_changes_the_state(inner: InnerView, header: BlockHeader, body: BlockBody)
    requires
        are_account_updates(commitment_updates(body.updated_accounts@)),
    ensures
        state_after(inner, header, body).blocks == inner.blocks.push(header.commitment),
        forall|nullifier: Word| #[trigger]
            state_after(inner, header, body).nullifiers.contains_key(nullifier) <==> (
            inner.nullifiers.contains_key(nullifier) || body.created_nullifiers@.contains(
                nullifier,
            )),
        forall|nullifier: Word| #[trigger]
            body.created_nullifiers@.contains(nullifier) ==> state_after(
                inner,
                header,
                body,
            ).nullifiers[nullifier] == header.block_num,
        forall|nullifier: Word| #[trigger]
            inner.nullifiers.contains_key(nullifier) && !body.created_nullifiers@.contains(
                nullifier,
            ) ==> state_after(inner, header, body).nullifiers[nullifier]
                == inner.nullifiers[nullifier],
        forall|i: int|
            0 <= i < body.updated_accounts@.len() ==> {
                let update = #[trigger] body.updated_accounts@[i];
                let accounts = state_after(inner, header, body).accounts;
                if update.final_state_commitment == Word(0, 0, 0, 0) {
                    !accounts.contains_key(update.account_id)
                } else {
                    &&& accounts.contains_key(update.account_id)
                    &&& accounts[update.account_id] == update.final_state_commitment
                }
            },
        forall|id: AccountId|
            (forall|i: int|
                0 <= i < body.updated_accounts@.len() ==> (
                #[trigger] body.updated_accounts@[i]).account_id != id) ==> (
            #[trigger] state_after(inner, header, body).accounts.contains_key(id)
                <==> inner.accounts.contains_key(id)) && (inner.accounts.contains_key(id)
                ==> state_after(inner, header, body).accounts[id] == inner.accounts[id]),
{
    let updates = commitment_updates(body.updated_accounts@);
    let accounts = state_after(inner, header, body).accounts;
    lemma_spent_nullifiers(inner.nullifiers, body.created_nullifiers@, header.block_num);
    lemma_updated_accounts(inner.accounts, updates);
    assert forall|i: int| 0 <= i < body.updated_accounts@.len() implies {
        let update = #[trigger] body.updated_accounts@[i];
        if update.final_state_commitment == Word(0, 0, 0, 0) {
            !accounts.contains_key(update.account_id)
        } else {
            &&& accounts.contains_key(update.account_id)
            &&& accounts[update.account_id] == update.final_state_commitment
        }
    } by {
        assert(updates[i] == (
            body.updated_accounts@[i].account_id,
            body.updated_accounts@[i].final_state_commitment,
        ));
        lemma_last_of_account(updates, i);
        let k = choose|k: int|
            i <= k < updates.len() && updates[k] == updates[i] && forall|j: int|
                k < j < updates.len() ==> (#[trigger] updates[j]).0 != updates[k].0;
        assert(updates[k] == updates[i]);
    }
    assert forall|id: AccountId|
        (forall|i: int|
            0 <= i < body.updated_accounts@.len() ==> (
            #[trigger] body.updated_accounts@[i]).account_id != id) implies (
    #[trigger] accounts.contains_key(id) <==> inner.accounts.contains_key(id)) && (
    inner.accounts.contains_key(id) ==> accounts[id] == inner.accounts[id]) by {
        assert forall|i: int| 0 <= i < updates.len() implies (#[trigger] updates[i]).0 != id by {
            assert(body.updated_accounts@[i].account_id != id);
        }
        assert(with_updates(inner.accounts, updates).contains_key(id)
            <==> inner.accounts.contains_key(id));
    }
}

proof fn lemma_last_of_account(updates: Seq<(AccountId, Word)>, i: int)
    requires
        are_account_updates(updates),
        0 <= i < updates.len(),
    ensures
        exists|k: int|
            i <= k < updates.len() && #[trigger] updates[k] == updates[i] && forall|j: int|
                k < j < updates.len() ==> (#[trigger] updates[j]).0 != updates[k].0,
    decreases updates.len() - i,
{
    if exists|j: int| i < j < updates.len() && (#[trigger] updates[j]).0 == updates[i].0 {
        let j = choose|j: int| i < j < updates.len() && (#[trigger] updates[j]).0 == updates[i].0;
        assert(updates[i] == updates[j]);
        lemma_last_of_account(updates, j);
    } else {
        assert(updates[i] == updates[i]);
    }
}

// VALIDITY
// ================================================================================================

/// A block is valid exactly if it follows the latest block of the database, commits to its own
/// transactions and notes, to the chain before it and to the trees after it, spends no nullifier that
/// is spent already, and adds no account with the prefix of another one.
pub proof fn lemma_valid_blocks(
    inner: InnerView,
    header: BlockHeader,
    body: BlockBody,
    prev_block: Option<BlockHeader>,
)
    ensures
        is_valid_block(inner, header, body, prev_block) <==> {
            &&& header.tx_commitment == body.transactions_commitment
            &&& prev_block matches Some(prev) && header.block_num.0 == prev.block_num.0 + 1
                && header.prev_block_commitment == prev.commitment
            &&& forall|i: int|
                0 <= i < body.created_nullifiers@.len() ==> !inner.nullifiers.contains_key(
                    #[trigger] body.created_nullifiers@[i],
                )
            &&& header.chain_commitment == chain_commitment_of(inner.blocks)
            &&& header.nullifier_root == nullifier_root_of(
                with_spent(inner.nullifiers, body.created_nullifiers@, header.block_num),
            )
            &&& forall|i: int, id: AccountId|
                #![trigger body.updated_accounts@[i], inner.accounts.contains_key(id)]
                0 <= i < body.updated_accounts@.len() && inner.accounts.contains_key(id) && id.prefix
                    == body.updated_accounts@[i].account_id.prefix && id
                    != body.updated_accounts@[i].account_id
                    ==> body.updated_accounts@[i].final_state_commitment == (
                if inner.accounts.contains_key(body.updated_accounts@[i].account_id) {
                    inner.accounts[body.updated_accounts@[i].account_id]
                } else {
                    Word(0, 0, 0, 0)
                })
            &&& header.account_root == account_root_of(state_after(inner, header, body).accounts)
            &&& header.note_root == note_root_of(pairs_by_key(note_leaves(body.output_notes@)))
        },
{
    let updates = commitment_updates(body.updated_accounts@);
    assert forall|i: int, id: AccountId|
        #![trigger body.updated_accounts@[i], inner.accounts.contains_key(id)]
        !any_conflict(inner.accounts, updates) && 0 <= i < body.updated_accounts@.len()
            && inner.accounts.contains_key(id) && id.prefix
            == body.updated_accounts@[i].account_id.prefix && id
            != body.updated_accounts@[i].account_id implies commitment_in(
        inner.accounts,
        body.updated_accounts@[i].account_id,
    ) == body.updated_accounts@[i].final_state_commitment by {
        assert(!conflicts_with(inner.accounts, updates[i]));
    }
    if any_conflict(inner.accounts, updates) {
        let i = choose|i: int|
            0 <= i < updates.len() && conflicts_with(inner.accounts, #[trigger] updates[i]);
        assert(updates[i] == (
            body.updated_accounts@[i].account_id,
            body.updated_accounts@[i].final_state_commitment,
        ));
        let id = choose|id: AccountId| #[trigger]
            inner.accounts.contains_key(id) && id.prefix == updates[i].0.prefix && id
                != updates[i].0;
        assert(inner.accounts.contains_key(id));
    }
}

/// A block that is refused because of its header is told what is wrong with it: the transactions that
/// it should commit to, the number that it should have, or that it does not follow the latest block.
pub proof fn lemma_header_errors(
    header: BlockHeader,
    body: BlockBody,
    prev_block: Option<BlockHeader>,
)
    requires
        prev_block matches Some(prev) ==> prev.block_num.0 < u32::MAX,
    ensures
        header.tx_commitment != body.transactions_commitment ==> header_error(
            header,
            body,
            prev_block,
        ) == Some(
            ApplyBlockError::InvalidBlockError(
                InvalidBlockError::InvalidBlockTxCommitment {
                    expected: body.transactions_commitment,
                    actual: header.tx_commitment,
                },
            ),
        ),
        header.tx_commitment == body.transactions_commitment ==> match prev_block {
            None => header_error(header, body, prev_block) == Some(
                ApplyBlockError::DbBlockHeaderEmpty,
            ),
            Some(prev) => {
                &&& header.block_num.0 != prev.block_num.0 + 1 ==> (header_error(
                    header,
                    body,
                    prev_block,
                ) matches Some(
                    ApplyBlockError::InvalidBlockError(
                        InvalidBlockError::NewBlockInvalidBlockNum { expected, submitted },
                    ),
                ) && expected.0 == prev.block_num.0 + 1 && submitted == header.block_num)
                &&& header.block_num.0 == prev.block_num.0 + 1 && header.prev_block_commitment
                    != prev.commitment ==> header_error(header, body, prev_block) == Some(
                    ApplyBlockError::InvalidBlockError(
                        InvalidBlockError::NewBlockInvalidPrevCommitment,
                    ),
                )
                &&& header.block_num.0 == prev.block_num.0 + 1 && header.prev_block_commitment
                    == prev.commitment ==> header_error(header, body, prev_block) is None
            },
        },
{
}

/// The nullifiers that a refused block is told of are exactly those of its nullifiers that are spent.
pub proof fn lemma_spent_nullifiers_are_named(
    inner: InnerView,
    header: BlockHeader,
    body: BlockBody,
    error: InvalidBlockError,
)
    requires
        is_tree_error(inner, header, body, error),
    ensures
        error is DuplicatedNullifiers <==> exists|i: int|
            0 <= i < body.created_nullifiers@.len() && inner.nullifiers.contains_key(
                #[trigger] body.created_nullifiers@[i],
            ),
        error matches InvalidBlockError::DuplicatedNullifiers(found) ==> forall|nullifier: Word|
            #[trigger]
            found@.contains(nullifier) <==> body.created_nullifiers@.contains(nullifier)
                && inner.nullifiers.contains_key(nullifier),
        error is NewBlockInvalidChainCommitment ==> header.chain_commitment != chain_commitment_of(
            inner.blocks,
        ),
        error is NewBlockInvalidNullifierRoot ==> header.nullifier_root != nullifier_root_of(
            state_after(inner, header, body).nullifiers,
        ),
        error is NewBlockInvalidAccountRoot ==> header.account_root != account_root_of(
            state_after(inner, header, body).accounts,
        ),
        error is NewBlockInvalidNoteRoot ==> false,
        error is NewBlockInvalidPrevCommitment ==> false,
{
    if let InvalidBlockError::DuplicatedNullifiers(found) = error {
        let is_spent = |nullifier: Word| inner.nullifiers.contains_key(nullifier);
        let all = body.created_nullifiers@;
        assert(found@ == all.filter(is_spent));
        assert forall|nullifier: Word| #[trigger] found@.contains(nullifier) <==> all.contains(
            nullifier,
        ) && inner.nullifiers.contains_key(nullifier) by {
            if found@.contains(nullifier) {
                let i = choose|i: int| 0 <= i < found@.len() && found@[i] == nullifier;
                all.lemma_filter_pred(is_spent, i);
                all.lemma_filter_contains_rev(is_spent, nullifier);
            }
            if all.contains(nullifier) && inner.nullifiers.contains_key(nullifier) {
                let i = choose|i: int| 0 <= i < all.len() && all[i] == nullifier;
                all.lemma_filter_contains(is_spent, i);
            }
        }
    }
}

/// A block whose nullifiers are not spent, and that adds no account with the prefix of another one, is
/// refused for its notes only if all that is checked before them is in order.
pub proof fn lemma_notes_are_checked_last(
    inner: InnerView,
    header: BlockHeader,
    body: BlockBody,
    prev_block: Option<BlockHeader>,
    error: ApplyBlockError,
)
    requires
        is_block_error(inner, header, body, prev_block, error),
    ensures
        error == ApplyBlockError::InvalidBlockError(InvalidBlockError::NewBlockInvalidNoteRoot)
            ==> {
            &&& header.tx_commitment == body.transactions_commitment
            &&& header.chain_commitment == chain_commitment_of(inner.blocks)
            &&& header.nullifier_root == nullifier_root_of(
                state_after(inner, header, body).nullifiers,
            )
            &&& header.account_root == account_root_of(state_after(inner, header, body).accounts)
            &&& header.note_root != note_root_of(pairs_by_key(note_leaves(body.output_notes@)))
        },
        !is_valid_block(inner, header, body, prev_block),
{
}

/// A body that can be taken has canonical nullifiers, and updates of valid accounts, no two of them of
/// accounts with the same prefix unless they are the same.
pub proof fn lemma_bodies_that_can_be_taken(inner: InnerView, body: BlockBody)
    requires
        is_body_for(inner, body),
    ensures
        forall|i: int|
            0 <= i < body.created_nullifiers@.len() ==> (
            #[trigger] body.created_nullifiers@[i]).is_canonical(),
        forall|i: int|
            0 <= i < body.updated_accounts@.len() ==> is_valid_account_id(
                (#[trigger] body.updated_accounts@[i]).account_id,
            ) && body.updated_accounts@[i].final_state_commitment.is_canonical(),
        forall|i: int, j: int|
            0 <= i < j < body.updated_accounts@.len() && (
            #[trigger] body.updated_accounts@[i]).account_id.prefix == (
            #[trigger] body.updated_accounts@[j]).account_id.prefix
                ==> body.updated_accounts@[i].account_id == body.updated_accounts@[j].account_id
                && body.updated_accounts@[i].final_state_commitment
                == body.updated_accounts@[j].final_state_commitment,
{
    let updates = commitment_updates(body.updated_accounts@);
    assert forall|i: int|
        0 <= i < body.updated_accounts@.len() implies is_valid_account_id(
        (#[trigger] body.updated_accounts@[i]).account_id,
    ) && body.updated_accounts@[i].final_state_commitment.is_canonical() by {
        assert(updates[i].0 == body.updated_accounts@[i].account_id);
    }
    assert forall|i: int, j: int|
        0 <= i < j < body.updated_accounts@.len() && (
        #[trigger] body.updated_accounts@[i]).account_id.prefix == (
        #[trigger] body.updated_accounts@[j]).account_id.prefix implies
        body.updated_accounts@[i].account_id == body.updated_accounts@[j].account_id
        && body.updated_accounts@[i].final_state_commitment
        == body.updated_accounts@[j].final_state_commitment by {
        assert(updates[i].0.prefix == updates[j].0.prefix);
    }
}

// NOTES
// ================================================================================================

/// The notes of a block are the leaves of its note tree: the commitment to each is at its position, and
/// there is nothing else.
pub proof fn lemma_note_tree_holds_all_notes(notes: Seq<(BlockNoteIndex, OutputNote)>)
    requires
        are_output_notes(notes),
    ensures
        forall|i: int|
            0 <= i < notes.len() ==> pairs_by_key(note_leaves(notes)).contains_key(
                (#[trigger] notes[i]).0,
            ) && pairs_by_key(note_leaves(notes))[notes[i].0] == note_commitment_of(
                notes[i].1@.header(),
            ),
        forall|index: BlockNoteIndex| #[trigger]
            pairs_by_key(note_leaves(notes)).contains_key(index) ==> exists|i: int|
                0 <= i < notes.len() && (#[trigger] notes[i]).0 == index,
        forall|i: int|
            0 <= i < notes.len() ==> (#[trigger] notes[i]).0.batch_idx < 64
                && notes[i].0.note_idx_in_batch < 1024,
{
    let leaves = note_leaves(notes);
    assert forall|i: int, j: int| 0 <= i < j < leaves.len() implies (#[trigger] leaves[i]).0 != (
    #[trigger] leaves[j]).0 by {
        assert(notes[i].0 != notes[j].0);
    }
    lemma_pairs_by_key(leaves);
    assert forall|i: int| 0 <= i < notes.len() implies pairs_by_key(leaves).contains_key(
        (#[trigger] notes[i]).0,
    ) && pairs_by_key(leaves)[notes[i].0] == note_commitment_of(notes[i].1@.header()) by {
        assert(leaves[i].0 == notes[i].0);
    }
    assert forall|index: BlockNoteIndex| #[trigger]
        pairs_by_key(leaves).contains_key(index) implies exists|i: int|
        0 <= i < notes.len() && (#[trigger] notes[i]).0 == index by {
        let i = choose|i: int| 0 <= i < leaves.len() && (#[trigger] leaves[i]).0 == index;
        assert(notes[i].0 == index);
    }
}

/// Every note of a block is stored once, in order: with the block and its position, its identifier,
/// commitment and metadata, and the path to it. A public note is stored with its details, and comes with
/// its nullifier.
pub proof fn lemma_all_notes_are_recorded(
    header: BlockHeader,
    body: BlockBody,
    records: Seq<(NoteRecord, Option<Word>)>,
)
    requires
        record_views(records) == note_records_of(header, body),
    ensures
        records.len() == body.output_notes@.len(),
        forall|i: int|
            0 <= i < records.len() ==> {
                let (record, nullifier) = #[trigger] records[i];
                let (index, note) = body.output_notes@[i];
                &&& record.block_num == header.block_num
                &&& record.note_index == index
                &&& record.inclusion_path@ == note_path_of(
                    pairs_by_key(note_leaves(body.output_notes@)),
                    index,
                )
                &&& match note {
                    OutputNote::Public { header, details, nullifier: spent_by } => {
                        &&& record.note_id == header.note_id
                        &&& record.note_commitment == note_commitment_of(header@)
                        &&& record.metadata@ == header.metadata@
                        &&& record.details matches Some(found) && found@ == details@
                        &&& nullifier == Some(spent_by)
                    },
                    OutputNote::Private { header } => {
                        &&& record.note_id == header.note_id
                        &&& record.note_commitment == note_commitment_of(header@)
                        &&& record.metadata@ == header.metadata@
                        &&& record.details is None
                        &&& nullifier is None
                    },
                }
            },
{
    assert(record_views(records).len() == records.len());
    assert forall|i: int| 0 <= i < records.len() implies {
        let (record, nullifier) = #[trigger] records[i];
        let (index, note) = body.output_notes@[i];
        &&& record.block_num == header.block_num
        &&& record.note_index == index
        &&& record.inclusion_path@ == note_path_of(
            pairs_by_key(note_leaves(body.output_notes@)),
            index,
        )
        &&& match note {
            OutputNote::Public { header, details, nullifier: spent_by } => {
                &&& record.note_id == header.note_id
                &&& record.note_commitment == note_commitment_of(header@)
                &&& record.metadata@ == header.metadata@
                &&& record.details matches Some(found) && found@ == details@
                &&& nullifier == Some(spent_by)
            },
            OutputNote::Private { header } => {
                &&& record.note_id == header.note_id
                &&& record.note_commitment == note_commitment_of(header@)
                &&& record.metadata@ == header.metadata@
                &&& record.details is None
                &&& nullifier is None
            },
        }
    } by {
        assert(record_views(records)[i] == (records[i].0@, records[i].1));
        assert(note_records_of(header, body)[i] == record_views(records)[i]);
    }
}

// APPLYING
// ================================================================================================

/// A prepared block holds the changes from the state that it was checked on to the state after it, and
/// the roots of the former.
pub proof fn lemma_prepared_changes(
    prepared: PreparedBlock,
    inner: InnerView,
    header: BlockHeader,
    body: BlockBody,
)
    requires
        prepares(prepared, inner, header, body),
    ensures
        prepared.header == header,
        prepared.mutations.nullifier_tree_old_root == nullifier_root_of(inner.nullifiers),
        prepared.mutations.account_tree_old_root == account_root_of(inner.accounts),
        nullifiers_before(prepared.mutations.nullifier_tree_update) == inner.nullifiers,
        accounts_before(prepared.mutations.account_tree_update) == inner.accounts,
        nullifiers_after(prepared.mutations.nullifier_tree_update) == with_spent(
            inner.nullifiers,
            body.created_nullifiers@,
            header.block_num,
        ),
        accounts_after(prepared.mutations.account_tree_update) == with_updates(
            inner.accounts,
            body.updated_accounts@.map_values(
                |update: BlockAccountUpdate| (update.account_id, update.final_state_commitment),
            ),
        ),
        prepared.notes@.len() == body.output_notes@.len(),
{
    assert(record_views(prepared.notes@).len() == prepared.notes@.len());
}

/// A stored block ends up applied exactly if the trees still have the roots that it was prepared for,
/// the database was told to go on, and it committed the block.
pub proof fn lemma_blocks_that_end_up_applied(
    prepared: PreparedBlock,
    inner: InnerView,
    informed: bool,
    committed: Result<(), String>,
    result: Result<(), ApplyBlockError>,
)
    requires
        is_finish_result(result, is_prepared_for(prepared, inner), informed, committed),
    ensures
        result is Ok <==> prepared.mutations.nullifier_tree_old_root == nullifier_root_of(
            inner.nullifiers,
        ) && prepared.mutations.account_tree_old_root == account_root_of(inner.accounts) && informed
            && committed is Ok,
        result == Err::<(), ApplyBlockError>(ApplyBlockError::ConcurrentWrite) <==> (
        prepared.mutations.nullifier_tree_old_root != nullifier_root_of(inner.nullifiers)
            || prepared.mutations.account_tree_old_root != account_root_of(inner.accounts)),
        result is Err && informed && is_prepared_for(prepared, inner) ==> (committed matches Err(
            report,
        ) && result == Err::<(), ApplyBlockError>(ApplyBlockError::DbUpdateTaskFailed(report))),
{
}

// SIGNED BLOCKS
// ================================================================================================

/// Parts make up a signed block exactly if the signature is one of the header by the validator that the
/// header names, and the header commits to the transactions and the notes of the body.
pub proof fn lemma_signed_blocks(sealed: SealedHeader, body: BlockBody, signature: Seq<u8>)
    ensures
        signed_block_error(sealed, body, signature) is None <==> {
            &&& is_signature(signature, sealed.header.commitment, sealed.validator_key@)
            &&& sealed.header.tx_commitment == body.transactions_commitment
            &&& sealed.header.note_root == note_root_of(
                pairs_by_key(note_leaves(body.output_notes@)),
            )
        },
        signed_block_error(sealed, body, signature) == Some(SignedBlockError::InvalidSignature)
            <==> !is_signature(signature, sealed.header.commitment, sealed.validator_key@),
        signed_block_error(sealed, body, signature) matches Some(
            SignedBlockError::TxCommitmentMismatch { header, body: found },
        ) ==> header == sealed.header.tx_commitment && found == body.transactions_commitment
            && header != found,
        signed_block_error(sealed, body, signature) matches Some(
            SignedBlockError::NoteRootMismatch { header, body: found },
        ) ==> header == sealed.header.note_root && found == note_root_of(
            pairs_by_key(note_leaves(body.output_notes@)),
        ) && header != found && sealed.header.tx_commitment == body.transactions_commitment,
{
}

// BODIES
// ================================================================================================

proof fn lemma_counted_nullifiers(nullifiers: Seq<Word>, element: u64)
    ensures
        count_with_last_element(nullifiers, element) <= nullifiers.len(),
    decreases nullifiers.len(),
{
    if nullifiers.len() > 0 {
        lemma_counted_nullifiers(nullifiers.drop_last(), element);
    }
}

/// Nullifiers fit into the tree if it has no more than 1024 in any leaf even if all of them are in it.
pub proof fn lemma_nullifiers_that_fit(
    spent: vstd::map::Map<Word, BlockNumber>,
    nullifiers: Seq<Word>,
)
    requires
        forall|element: u64| #[trigger]
            spent_in_leaf(spent, element) + nullifiers.len() <= 1024,
    ensures
        fits_nullifiers(spent, nullifiers),
{
    assert forall|i: int| 0 <= i < nullifiers.len() implies ({
        let element = (#[trigger] nullifiers[i]).3;
        spent_in_leaf(spent, element) + count_with_last_element(nullifiers, element) <= 1024
    }) by {
        let element = nullifiers[i].3;
        lemma_counted_nullifiers(nullifiers, element);
        assert(spent_in_leaf(spent, element) + nullifiers.len() <= 1024);
    }
}

/// A leaf of the tree has the spent nullifiers that end in the same element.
pub proof fn lemma_nullifiers_of_leaves(
    spent: vstd::map::Map<Word, BlockNumber>,
    nullifier: Word,
    block_num: BlockNumber,
    element: u64,
)
    requires
        spent.dom().finite(),
        !spent.contains_key(nullifier),
    ensures
        spent_in_leaf(spent, element) <= spent.dom().len(),
        spent_in_leaf(spent.insert(nullifier, block_num), element) == spent_in_leaf(spent, element)
            + if nullifier.3 == element {
            1nat
        } else {
            0nat
        },
{
    let in_leaf = |other: Word| other.3 == element;
    let leaf = spent.dom().filter(in_leaf);
    let after = spent.insert(nullifier, block_num).dom().filter(in_leaf);
    vstd::set_lib::lemma_len_subset(leaf, spent.dom());
    if nullifier.3 == element {
        assert(after =~= leaf.insert(nullifier));
    } else {
        assert(after =~= leaf);
    }
}

/// A body can be taken if its nullifiers are canonical and fit into the tree, and its updates are of valid
/// accounts with different prefixes and canonical commitments.
pub proof fn lemma_bodies_that_are_taken(inner: InnerView, body: BlockBody)
    requires
        forall|i: int|
            0 <= i < body.created_nullifiers@.len() ==> (
            #[trigger] body.created_nullifiers@[i]).is_canonical(),
        fits_nullifiers(inner.nullifiers, body.created_nullifiers@),
        forall|i: int|
            0 <= i < body.updated_accounts@.len() ==> is_valid_account_id(
                (#[trigger] body.updated_accounts@[i]).account_id,
            ) && body.updated_accounts@[i].final_state_commitment.is_canonical(),
        forall|i: int, j: int|
            0 <= i < j < body.updated_accounts@.len() ==> (
            #[trigger] body.updated_accounts@[i]).account_id.prefix != (
            #[trigger] body.updated_accounts@[j]).account_id.prefix,
    ensures
        is_body_for(inner, body),
{
    let updates = commitment_updates(body.updated_accounts@);
    assert forall|i: int| 0 <= i < updates.len() implies is_valid_account_id(
        (#[trigger] updates[i]).0,
    ) && updates[i].1.is_canonical() by {
        assert(updates[i].0 == body.updated_accounts@[i].account_id);
    }
    assert forall|i: int, j: int| 0 <= i < j < updates.len() implies (
    #[trigger] updates[i]).0.prefix != (#[trigger] updates[j]).0.prefix || updates[i]
        == updates[j] by {
        assert(body.updated_accounts@[i].account_id.prefix
            != body.updated_accounts@[j].account_id.prefix);
    }
}

/// The notes of a body are at different positions, none beyond the 64 batches of a block and the 1024
/// notes of a batch, and have canonical identifiers.
pub proof fn lemma_positions_of_notes(notes: Seq<(BlockNoteIndex, OutputNote)>)
    ensures
        are_output_notes(notes) ==> {
            &&& forall|i: int, j: int|
                0 <= i < j < notes.len() ==> (#[trigger] notes[i]).0 != (#[trigger] notes[j]).0
            &&& forall|i: int|
                0 <= i < notes.len() ==> (#[trigger] notes[i]).0.batch_idx < 64
                    && notes[i].0.note_idx_in_batch < 1024 && notes[i].1@.header().note_id.is_canonical()
        },
{
}

} // verus!
