//! The account tree and the database hold the same commitments: the updates of a block that are
//! applied to both leave them the same, and a tree that is rebuilt from the database is the tree
//! that was kept in memory.

use vstd::prelude::*;

use crate::account_id::AccountId;
use crate::block_number::BlockNumber;
use crate::db::accounts::commitment_row;
use crate::db::history::{row_after_write, HistoryRow};
use crate::db::tables::{
    are_reads_of, are_upserted, are_written, is_upserted, lemma_no_version_before,
    rows_after_upsert, version_position, AccountTables,
};
use crate::db::updates::{AccountReads, BlockAccountUpdate};
use crate::db::upsert::{
    is_written_update, is_written_with_root, written_update, AccountRowInsert, AccountWrites,
    WritesView,
};
use crate::errors::DatabaseError;
use crate::protocol::{
    account_id_bytes, is_valid_account_id, lemma_account_id_round_trip, lemma_word_round_trip,
    word_bytes,
};
use crate::state::apply_block::{
    commitment_updates, is_body_for, lemma_updates_keep_prefixes_unique, state_after, trees_accept,
    BlockBody, BlockHeader, InnerView,
};
use crate::state::loader::{adds_conflict, are_commitments_of, lemma_rebuilt_accounts_match};
use crate::state::trees::{account_root_of, with_updates};
use crate::word::Word;

verus! {

// STORED COMMITMENTS
// ================================================================================================

/// Whether a row is the latest one of an account, with the given commitment.
pub open spec fn is_row_of(row: AccountRowInsert, account_id: AccountId, commitment: Word) -> bool {
    &&& row.is_latest
    &&& row.account_id@ == account_id_bytes(account_id)
    &&& row.account_commitment@ == word_bytes(commitment)
}

/// Whether one of the rows is the latest one of an account, with the given commitment.
#[verifier::opaque]
pub open spec fn has_row(rows: Seq<AccountRowInsert>, account_id: AccountId, commitment: Word) -> bool {
    exists|k: int| 0 <= k < rows.len() && is_row_of(#[trigger] rows[k], account_id, commitment)
}

/// Whether a row is the latest one of one of the accounts, with its commitment.
#[verifier::opaque]
pub open spec fn has_account(
    accounts: vstd::map::Map<AccountId, Word>,
    row: AccountRowInsert,
) -> bool {
    exists|id: AccountId| #[trigger]
        accounts.contains_key(id) && is_row_of(row, id, accounts[id])
}

/// Whether the latest rows are those of the accounts of a tree, with their commitments.
pub open spec fn holds_commitments(
    rows: Seq<AccountRowInsert>,
    accounts: vstd::map::Map<AccountId, Word>,
) -> bool {
    &&& forall|id: AccountId| #[trigger]
        accounts.contains_key(id) ==> is_account_state(id, accounts[id]) && has_row(
            rows,
            id,
            accounts[id],
        )
    &&& forall|k: int|
        0 <= k < rows.len() && (#[trigger] rows[k]).is_latest ==> has_account(accounts, rows[k])
}

/// Whether an identifier is valid, and a commitment is canonical and not empty.
pub open spec fn is_account_state(account_id: AccountId, commitment: Word) -> bool {
    is_valid_account_id(account_id) && commitment.is_canonical() && commitment != Word::empty()
}

/// What a row of an identifier and a commitment stands for.
pub open spec fn listed_row(row: AccountRowInsert) -> Result<(AccountId, Word), DatabaseError> {
    commitment_row((row.account_id, row.account_commitment))
}

/// Whether one of the latest rows stands for an identifier and a commitment.
#[verifier::opaque]
pub open spec fn has_latest(rows: Seq<AccountRowInsert>, entry: (AccountId, Word)) -> bool {
    exists|k: int|
        0 <= k < rows.len() && (#[trigger] rows[k]).is_latest && listed_row(rows[k]) == Ok::<
            (AccountId, Word),
            DatabaseError,
        >(entry)
}

/// Whether commitments list what a row stands for.
#[verifier::opaque]
pub open spec fn is_listed(commitments: Seq<(AccountId, Word)>, row: AccountRowInsert) -> bool {
    exists|i: int|
        0 <= i < commitments.len() && listed_row(row) == Ok::<(AccountId, Word), DatabaseError>(
            #[trigger] commitments[i],
        )
}

/// Whether commitments are what the latest rows of the accounts stand for, in some order, each
/// account once.
pub open spec fn are_latest_commitments(
    commitments: Seq<(AccountId, Word)>,
    rows: Seq<AccountRowInsert>,
) -> bool {
    &&& forall|i: int| 0 <= i < commitments.len() ==> has_latest(rows, #[trigger] commitments[i])
    &&& forall|k: int|
        0 <= k < rows.len() && (#[trigger] rows[k]).is_latest ==> is_listed(commitments, rows[k])
    &&& forall|i: int, j: int|
        0 <= i < j < commitments.len() ==> (#[trigger] commitments[i]).0 != (
        #[trigger] commitments[j]).0
}

// STEPS
// ================================================================================================

proof fn lemma_identifiers_differ(a: AccountId, b: AccountId)
    requires
        is_valid_account_id(a),
        is_valid_account_id(b),
        a != b,
    ensures
        account_id_bytes(a) != account_id_bytes(b),
{
    lemma_account_id_round_trip(a, Seq::empty());
    lemma_account_id_round_trip(b, Seq::empty());
    assert(account_id_bytes(a) + Seq::empty() =~= account_id_bytes(a));
    assert(account_id_bytes(b) + Seq::empty() =~= account_id_bytes(b));
}

proof fn lemma_listed_row(row: AccountRowInsert, account_id: AccountId, commitment: Word)
    requires
        is_row_of(row, account_id, commitment),
        is_account_state(account_id, commitment),
    ensures
        listed_row(row) == Ok::<(AccountId, Word), DatabaseError>((account_id, commitment)),
{
    lemma_account_id_round_trip(account_id, Seq::empty());
    lemma_word_round_trip(commitment, Seq::empty());
    assert(account_id_bytes(account_id) + Seq::empty() =~= account_id_bytes(account_id));
    assert(word_bytes(commitment) + Seq::empty() =~= word_bytes(commitment));
}

/// A row that is written for an account leaves the latest rows those of the accounts, with the
/// commitment of the row.
proof fn lemma_written_row_matches(
    rows: Seq<AccountRowInsert>,
    accounts: vstd::map::Map<AccountId, Word>,
    row: AccountRowInsert,
    account_id: AccountId,
    commitment: Word,
)
    requires
        holds_commitments(rows, accounts),
        is_row_of(row, account_id, commitment),
        is_account_state(account_id, commitment),
    ensures
        holds_commitments(rows_after_upsert(rows, row), accounts.insert(account_id, commitment)),
{
    let after = rows_after_upsert(rows, row);
    let position = version_position(rows, row);
    let changed = accounts.insert(account_id, commitment);
    lemma_no_version_before(rows, row);
    assert(after[position] == row);
    assert forall|id: AccountId| #[trigger] changed.contains_key(id) implies is_account_state(
        id,
        changed[id],
    ) && has_row(after, id, changed[id]) by {
        reveal(has_row);
        if id == account_id {
            assert(is_row_of(after[position], id, changed[id]));
        } else {
            assert(accounts.contains_key(id));
            let k = choose|k: int|
                0 <= k < rows.len() && is_row_of(#[trigger] rows[k], id, accounts[id]);
            lemma_identifiers_differ(id, account_id);
            assert(rows[k].subject() != row.subject());
            assert(is_row_of(after[k], id, changed[id]));
        }
    }
    assert forall|k: int| 0 <= k < after.len() && (#[trigger] after[k]).is_latest implies has_account(
        changed,
        after[k],
    ) by {
        reveal(has_account);
        if k == position {
            assert(changed.contains_key(account_id));
        } else {
            assert(after[k] == row_after_write(rows[k], row));
            assert(after[k] == rows[k]);
            assert(rows[k].subject() != row.subject());
            let id = choose|id: AccountId| #[trigger]
                accounts.contains_key(id) && is_row_of(rows[k], id, accounts[id]);
            assert(id != account_id);
            assert(changed.contains_key(id));
        }
    }
}

/// What a latest row stands for is an account of the tree.
proof fn lemma_listed_entry(
    rows: Seq<AccountRowInsert>,
    accounts: vstd::map::Map<AccountId, Word>,
    entry: (AccountId, Word),
)
    requires
        holds_commitments(rows, accounts),
        has_latest(rows, entry),
    ensures
        accounts.contains_key(entry.0),
        accounts[entry.0] == entry.1,
        entry.1 != Word::empty(),
{
    reveal(has_latest);
    reveal(has_account);
    let k = choose|k: int|
        0 <= k < rows.len() && (#[trigger] rows[k]).is_latest && listed_row(rows[k]) == Ok::<
            (AccountId, Word),
            DatabaseError,
        >(entry);
    let id = choose|id: AccountId| #[trigger]
        accounts.contains_key(id) && is_row_of(rows[k], id, accounts[id]);
    lemma_listed_row(rows[k], id, accounts[id]);
}

/// An account with a latest row is listed.
proof fn lemma_account_is_listed(
    commitments: Seq<(AccountId, Word)>,
    rows: Seq<AccountRowInsert>,
    account_id: AccountId,
    commitment: Word,
)
    requires
        are_latest_commitments(commitments, rows),
        has_row(rows, account_id, commitment),
        is_account_state(account_id, commitment),
    ensures
        exists|i: int| 0 <= i < commitments.len() && (#[trigger] commitments[i]).0 == account_id,
{
    reveal(has_row);
    reveal(is_listed);
    let k = choose|k: int|
        0 <= k < rows.len() && is_row_of(#[trigger] rows[k], account_id, commitment);
    lemma_listed_row(rows[k], account_id, commitment);
    assert(is_listed(commitments, rows[k]));
    let i = choose|i: int|
        0 <= i < commitments.len() && listed_row(rows[k]) == Ok::<
            (AccountId, Word),
            DatabaseError,
        >(#[trigger] commitments[i]);
    assert(commitments[i].0 == account_id);
}

// LAWS
// ================================================================================================

/// The updates of a block that are stored one after another leave the latest rows those of the
/// account tree after the block.
pub proof fn lemma_stored_updates_match_tree(
    steps: Seq<AccountTables>,
    updates: Seq<BlockAccountUpdate>,
    block_num: BlockNumber,
    accounts: vstd::map::Map<AccountId, Word>,
)
    requires
        are_upserted(steps, updates, block_num),
        holds_commitments(steps[0].accounts@, accounts),
        forall|i: int|
            0 <= i < updates.len() ==> is_account_state(
                (#[trigger] updates[i]).account_id,
                updates[i].final_state_commitment,
            ),
    ensures
        holds_commitments(
            steps.last().accounts@,
            with_updates(accounts, commitment_updates(updates)),
        ),
    decreases updates.len(),
{
    if updates.len() == 0 {
        assert(commitment_updates(updates) =~= Seq::empty());
    } else {
        let count = updates.len() - 1;
        let before = updates.drop_last();
        let update = updates.last();
        let steps_before = steps.drop_last();
        assert forall|i: int| 0 <= i < before.len() implies is_upserted(
            steps_before[i],
            #[trigger] before[i],
            block_num,
            steps_before[i + 1],
        ) by {
            assert(before[i] == updates[i]);
        }
        assert forall|i: int| 0 <= i < before.len() implies is_account_state(
            (#[trigger] before[i]).account_id,
            before[i].final_state_commitment,
        ) by {
            assert(before[i] == updates[i]);
        }
        lemma_stored_updates_match_tree(steps_before, before, block_num, accounts);
        assert(updates[count] == update);
        let (reads, writes) = choose|reads: AccountReads, writes: AccountWrites|
            {
                &&& are_reads_of(reads, steps[count], update)
                &&& #[trigger] is_written_update(
                    update,
                    reads,
                    block_num,
                    Ok::<WritesView, DatabaseError>(writes@),
                )
                &&& are_written(steps[count], writes, steps[count + 1])
            };
        let vault_root = choose|vault_root: Result<Word, DatabaseError>| #[trigger]
            is_written_with_root(
                update,
                reads,
                block_num,
                vault_root,
                Ok::<WritesView, DatabaseError>(writes@),
            );
        assert(written_update(update, reads, block_num, vault_root) == Ok::<
            WritesView,
            DatabaseError,
        >(writes@));
        assert(writes.account@ == writes@.account);
        let tree = with_updates(accounts, commitment_updates(before));
        lemma_written_row_matches(
            steps[count].accounts@,
            tree,
            writes.account,
            update.account_id,
            update.final_state_commitment,
        );
        assert(commitment_updates(updates).drop_last() =~= commitment_updates(before));
    }
}

/// What the database lists of the accounts is what the account tree holds.
pub proof fn lemma_listed_commitments_match_tree(
    commitments: Seq<(AccountId, Word)>,
    rows: Seq<AccountRowInsert>,
    accounts: vstd::map::Map<AccountId, Word>,
)
    requires
        holds_commitments(rows, accounts),
        are_latest_commitments(commitments, rows),
    ensures
        are_commitments_of(commitments, accounts),
{
    assert forall|i: int| 0 <= i < commitments.len() implies accounts.contains_key(
        (#[trigger] commitments[i]).0,
    ) && accounts[commitments[i].0] == commitments[i].1 && commitments[i].1 != Word::empty() by {
        assert(has_latest(rows, commitments[i]));
        lemma_listed_entry(rows, accounts, commitments[i]);
    }
    assert forall|id: AccountId| #[trigger] accounts.contains_key(id) implies exists|i: int|
        0 <= i < commitments.len() && (#[trigger] commitments[i]).0 == id by {
        assert(has_row(rows, id, accounts[id]));
        lemma_account_is_listed(commitments, rows, id, accounts[id]);
    }
}

/// A block that is applied to the state and stored is not lost: the account tree that is rebuilt from
/// the database is the tree of the state after the block.
pub proof fn lemma_stored_block_is_rebuilt(
    inner: InnerView,
    header: BlockHeader,
    body: BlockBody,
    steps: Seq<AccountTables>,
    commitments: Seq<(AccountId, Word)>,
)
    requires
        inner.is_valid(),
        is_body_for(inner, body),
        trees_accept(inner, header, body),
        holds_commitments(steps[0].accounts@, inner.accounts),
        are_upserted(steps, body.updated_accounts@, header.block_num),
        forall|i: int|
            0 <= i < body.updated_accounts@.len() ==> is_account_state(
                (#[trigger] body.updated_accounts@[i]).account_id,
                body.updated_accounts@[i].final_state_commitment,
            ),
        are_latest_commitments(commitments, steps.last().accounts@),
    ensures
        holds_commitments(steps.last().accounts@, state_after(inner, header, body).accounts),
        !adds_conflict(vstd::map::Map::empty(), commitments),
        with_updates(vstd::map::Map::empty(), commitments) == state_after(
            inner,
            header,
            body,
        ).accounts,
        account_root_of(with_updates(vstd::map::Map::empty(), commitments)) == header.account_root,
{
    let updates = body.updated_accounts@;
    let accounts = with_updates(inner.accounts, commitment_updates(updates));
    lemma_stored_updates_match_tree(steps, updates, header.block_num, inner.accounts);
    lemma_listed_commitments_match_tree(commitments, steps.last().accounts@, accounts);
    lemma_updates_keep_prefixes_unique(inner.accounts, commitment_updates(updates));
    lemma_rebuilt_accounts_match(commitments, accounts);
}

} // verus!
