//! What all updates of a block do to the tables of accounts.

use vstd::prelude::*;

use crate::account_id::AccountId;
use crate::block_number::BlockNumber;
use crate::db::consistency::{lemma_filter_of_unwanted, lemma_latest_account_after_upsert};
use crate::db::history::{row_after_write, HistoryRow};
use crate::db::stored::latest_rows;
use crate::db::tables::{
    are_reads_of, are_upserted, are_written, is_upserted, latest_account_row,
    lemma_no_version_before, lemma_upsert_keeps_history, lemma_writes_keep_history,
    rows_after_upsert, version_position, AccountTables,
};
use crate::db::updates::{AccountReads, BlockAccountUpdate};
use crate::db::upsert::{
    asset_row, creation_block, is_written_update, is_written_with_root, prepared_update, storage_row,
    writes_of, AccountRowInsert, AccountWrites, WritesView,
};
use crate::errors::DatabaseError;
use crate::protocol::{
    account_id_bytes, is_valid_account_id, lemma_account_id_round_trip, word_bytes,
};
use crate::word::Word;

verus! {

/// All rows of an account, in the order of the table.
pub open spec fn account_rows(rows: Seq<AccountRowInsert>, account_id: Seq<u8>) -> Seq<
    AccountRowInsert,
> {
    rows.filter(|row: AccountRowInsert| is_row_of(row, account_id))
}

/// Whether a row is one of an account.
pub open spec fn is_row_of(row: AccountRowInsert, account_id: Seq<u8>) -> bool {
    row.account_id@ == account_id
}

/// The commitment that the last update of an account gives it, if there is one.
pub open spec fn last_commitment(
    updates: Seq<BlockAccountUpdate>,
    account_id: Seq<u8>,
) -> Option<Word>
    decreases updates.len(),
{
    if updates.len() == 0 {
        None
    } else if account_id_bytes(updates.last().account_id) == account_id {
        Some(updates.last().final_state_commitment)
    } else {
        last_commitment(updates.drop_last(), account_id)
    }
}

proof fn lemma_account_rows_are_kept(
    rows: Seq<AccountRowInsert>,
    row: AccountRowInsert,
    account_id: Seq<u8>,
)
    requires
        row.account_id@ != account_id,
    ensures
        account_rows(rows_after_upsert(rows, row), account_id) == account_rows(rows, account_id),
{
    let after = rows_after_upsert(rows, row);
    let wanted = |row: AccountRowInsert| is_row_of(row, account_id);
    let position = version_position(rows, row);
    lemma_no_version_before(rows, row);
    assert forall|i: int| 0 <= i < rows.len() implies (#[trigger] rows[i]) == after[i] || !wanted(
        rows[i],
    ) && !wanted(after[i]) by {
        if rows[i].account_id@ != row.account_id@ {
            assert(rows[i].subject().account_id == rows[i].account_id@);
            assert(row.subject().account_id == row.account_id@);
        }
    }
    if position < rows.len() {
        lemma_filter_of_unwanted(rows, after, wanted);
    } else {
        let earlier = rows.map_values(|earlier: AccountRowInsert| row_after_write(earlier, row));
        lemma_filter_of_unwanted(rows, earlier, wanted);
        reveal(Seq::filter);
        assert(after.drop_last() =~= earlier);
        assert(after.last() == row);
        assert(!wanted(row));
        assert(after.filter(wanted) == earlier.filter(wanted));
    }
}

proof fn lemma_latest_row_is_kept(
    rows: Seq<AccountRowInsert>,
    others: Seq<AccountRowInsert>,
    account_id: Seq<u8>,
)
    requires
        account_rows(rows, account_id) == account_rows(others, account_id),
    ensures
        latest_account_row(rows, account_id) == latest_account_row(others, account_id),
{
    lemma_latest_rows_of_account(rows, account_id);
    lemma_latest_rows_of_account(others, account_id);
}

proof fn lemma_latest_rows_of_account(rows: Seq<AccountRowInsert>, account_id: Seq<u8>)
    ensures
        latest_rows(rows, account_id) == account_rows(rows, account_id).filter(
            |row: AccountRowInsert| row.is_latest,
        ),
    decreases rows.len(),
{
    reveal(Seq::filter);
    let latest = |row: AccountRowInsert| row.is_latest;
    if rows.len() > 0 {
        lemma_latest_rows_of_account(rows.drop_last(), account_id);
        let before = account_rows(rows.drop_last(), account_id);
        if rows.last().account_id@ == account_id {
            assert(before.push(rows.last()).drop_last() =~= before);
        }
    }
}

/// Writing an update keeps the tables consistent. Its row is the latest of its account, with its
/// commitment, and the rows of other accounts stay as they are.
proof fn lemma_update_is_written(
    tables: AccountTables,
    update: BlockAccountUpdate,
    block_num: BlockNumber,
    after: AccountTables,
)
    requires
        is_upserted(tables, update, block_num, after),
        tables.is_consistent(),
    ensures
        after.is_consistent(),
        ({
            &&& latest_account_row(
                after.accounts@,
                account_id_bytes(update.account_id),
            ) matches Some(row)
            &&& row.block_num == block_num.0
            &&& row.account_commitment@ == word_bytes(update.final_state_commitment)
        }),
        forall|account_id: Seq<u8>|
            account_id != account_id_bytes(update.account_id) ==> #[trigger] account_rows(
                after.accounts@,
                account_id,
            ) == account_rows(tables.accounts@, account_id),
{
    let (reads, writes) = choose|reads: AccountReads, writes: AccountWrites|
        {
            &&& are_reads_of(reads, tables, update)
            &&& #[trigger] is_written_update(
                update,
                reads,
                block_num,
                Ok::<WritesView, DatabaseError>(writes@),
            )
            &&& are_written(tables, writes, after)
        };
    let vault_root = choose|vault_root: Result<Word, DatabaseError>| #[trigger]
        is_written_with_root(update, reads, block_num, vault_root, Ok(writes@));
    let prepared = prepared_update(update, reads, vault_root)->Ok_0;
    let created_at_block = creation_block(reads.created_at_block, block_num)->Ok_0;
    let row = writes.account;
    assert(writes@ == writes_of(update, block_num, created_at_block, prepared));
    assert(writes@.storage.len() == writes.storage@.len());
    assert(writes@.assets.len() == writes.assets@.len());
    assert(row@.account_id == account_id_bytes(update.account_id) && row@.is_latest);
    lemma_upsert_keeps_history(tables.accounts@, row);
    lemma_latest_account_after_upsert(tables.accounts@, row);
    assert forall|i: int| 0 <= i < writes.storage@.len() implies (
    #[trigger] writes.storage@[i]).latest() by {
        assert(writes@.storage[i] == writes.storage@[i]@);
        assert(writes@.storage[i] == storage_row(update.account_id, block_num, prepared.storage[i]));
    }
    assert forall|i: int| 0 <= i < writes.assets@.len() implies (
    #[trigger] writes.assets@[i]).latest() by {
        assert(writes@.assets[i] == writes.assets@[i]@);
        assert(writes@.assets[i] == asset_row(update.account_id, block_num, prepared.assets[i]));
    }
    lemma_writes_keep_history(tables.storage@, writes.storage@);
    lemma_writes_keep_history(tables.assets@, writes.assets@);
    assert forall|account_id: Seq<u8>|
        account_id != account_id_bytes(update.account_id) implies #[trigger] account_rows(
        after.accounts@,
        account_id,
    ) == account_rows(tables.accounts@, account_id) by {
        lemma_account_rows_are_kept(tables.accounts@, row, account_id);
    }
}

/// Whether tables are consistent, with the updates of a block. The latest row of each account that they
/// change is one of the block, with the commitment of the last update of the account. The rows of all
/// other accounts are as they were.
pub open spec fn is_block_written(
    tables: AccountTables,
    updates: Seq<BlockAccountUpdate>,
    block_num: BlockNumber,
    after: AccountTables,
) -> bool {
    &&& after.is_consistent()
    &&& forall|account_id: AccountId| #[trigger]
        is_account_written(tables, updates, block_num, after, account_id)
}

/// Whether the rows of an account are those that the updates of a block lead to.
pub open spec fn is_account_written(
    tables: AccountTables,
    updates: Seq<BlockAccountUpdate>,
    block_num: BlockNumber,
    after: AccountTables,
    account_id: AccountId,
) -> bool {
    let id = account_id_bytes(account_id);
    match last_commitment(updates, id) {
        Some(commitment) => {
            &&& latest_account_row(after.accounts@, id) matches Some(row)
            &&& row.block_num == block_num.0
            &&& row.account_commitment@ == word_bytes(commitment)
        },
        None => account_rows(after.accounts@, id) == account_rows(tables.accounts@, id),
    }
}

/// The updates of a block keep the tables consistent: at most one row of each account, of each map
/// entry and of each asset is the latest. The latest row of each account that they change is one of the
/// block, with the commitment of the last update of the account. The rows of all other accounts stay as
/// they are.
pub proof fn lemma_block_of_updates_is_written(
    steps: Seq<AccountTables>,
    updates: Seq<BlockAccountUpdate>,
    block_num: BlockNumber,
)
    requires
        are_upserted(steps, updates, block_num),
        steps[0].is_consistent(),
    ensures
        is_block_written(steps[0], updates, block_num, steps.last()),
    decreases updates.len(),
{
    if updates.len() > 0 {
        let before = updates.drop_last();
        let earlier = steps.drop_last();
        assert forall|i: int| 0 <= i < before.len() implies is_upserted(
            earlier[i],
            #[trigger] before[i],
            block_num,
            earlier[i + 1],
        ) by {
            assert(before[i] == updates[i]);
        }
        lemma_block_of_updates_is_written(earlier, before, block_num);
        let update = updates.last();
        assert(updates[updates.len() - 1] == update);
        lemma_update_is_written(earlier.last(), update, block_num, steps.last());
        assert forall|account_id: AccountId| #[trigger]
            is_account_written(steps[0], updates, block_num, steps.last(), account_id) by {
            assert(is_account_written(steps[0], before, block_num, earlier.last(), account_id));
            let id = account_id_bytes(account_id);
            if id != account_id_bytes(update.account_id) {
                assert(account_rows(steps.last().accounts@, id) == account_rows(
                    earlier.last().accounts@,
                    id,
                ));
                lemma_latest_row_is_kept(steps.last().accounts@, earlier.last().accounts@, id);
            }
        }
    }
}

/// Once the updates of a block were written, the latest row of an account is of the block, with the
/// commitment of the last update of the account.
pub proof fn lemma_last_update_counts(
    tables: AccountTables,
    updates: Seq<BlockAccountUpdate>,
    block_num: BlockNumber,
    after: AccountTables,
    u: int,
)
    requires
        is_block_written(tables, updates, block_num, after),
        0 <= u < updates.len(),
        forall|w: int| u < w < updates.len() ==> (#[trigger] updates[w]).account_id
            != updates[u].account_id,
        forall|w: int| 0 <= w < updates.len() ==> is_valid_account_id(
            (#[trigger] updates[w]).account_id,
        ),
    ensures
        latest_account_row(after.accounts@, account_id_bytes(updates[u].account_id)) matches Some(
            row,
        ) && row.block_num == block_num.0 && row.account_commitment@ == word_bytes(
            updates[u].final_state_commitment,
        ),
{
    lemma_last_commitment(updates, u);
    assert(is_account_written(tables, updates, block_num, after, updates[u].account_id));
}

/// An account that no update of a block names has the rows that it had once the updates were written.
pub proof fn lemma_unnamed_accounts_stay(
    tables: AccountTables,
    updates: Seq<BlockAccountUpdate>,
    block_num: BlockNumber,
    after: AccountTables,
    id: AccountId,
)
    requires
        is_block_written(tables, updates, block_num, after),
        is_valid_account_id(id),
        forall|w: int| 0 <= w < updates.len() ==> (#[trigger] updates[w]).account_id != id,
        forall|w: int| 0 <= w < updates.len() ==> is_valid_account_id(
            (#[trigger] updates[w]).account_id,
        ),
    ensures
        after.accounts@.filter(|row: AccountRowInsert| row.account_id@ == account_id_bytes(id))
            == tables.accounts@.filter(
            |row: AccountRowInsert| row.account_id@ == account_id_bytes(id),
        ),
{
    lemma_no_commitment(updates, id);
    assert(is_account_written(tables, updates, block_num, after, id));
    assert((|row: AccountRowInsert| row.account_id@ == account_id_bytes(id)) =~= (
        |row: AccountRowInsert| is_row_of(row, account_id_bytes(id))));
}

proof fn lemma_last_commitment(updates: Seq<BlockAccountUpdate>, u: int)
    requires
        0 <= u < updates.len(),
        forall|w: int| u < w < updates.len() ==> (#[trigger] updates[w]).account_id
            != updates[u].account_id,
        forall|w: int| 0 <= w < updates.len() ==> is_valid_account_id(
            (#[trigger] updates[w]).account_id,
        ),
    ensures
        last_commitment(updates, account_id_bytes(updates[u].account_id)) == Some(
            updates[u].final_state_commitment,
        ),
    decreases updates.len(),
{
    let last = updates.len() - 1;
    if u < last {
        let before = updates.drop_last();
        assert(updates[last].account_id != updates[u].account_id);
        lemma_different_bytes(updates[last].account_id, updates[u].account_id);
        assert forall|w: int| u < w < before.len() implies (#[trigger] before[w]).account_id
            != before[u].account_id by {
            assert(updates[w].account_id != updates[u].account_id);
        }
        assert forall|w: int| 0 <= w < before.len() implies is_valid_account_id(
            (#[trigger] before[w]).account_id,
        ) by {
            assert(is_valid_account_id(updates[w].account_id));
        }
        lemma_last_commitment(before, u);
    }
}

proof fn lemma_no_commitment(updates: Seq<BlockAccountUpdate>, id: AccountId)
    requires
        is_valid_account_id(id),
        forall|w: int| 0 <= w < updates.len() ==> (#[trigger] updates[w]).account_id != id,
        forall|w: int| 0 <= w < updates.len() ==> is_valid_account_id(
            (#[trigger] updates[w]).account_id,
        ),
    ensures
        last_commitment(updates, account_id_bytes(id)) is None,
    decreases updates.len(),
{
    if updates.len() > 0 {
        let before = updates.drop_last();
        assert(updates[updates.len() - 1].account_id != id);
        assert(is_valid_account_id(updates[updates.len() - 1].account_id));
        lemma_different_bytes(updates[updates.len() - 1].account_id, id);
        assert forall|w: int| 0 <= w < before.len() implies (#[trigger] before[w]).account_id
            != id && is_valid_account_id(before[w].account_id) by {
            assert(updates[w].account_id != id);
        }
        lemma_no_commitment(before, id);
    }
}

proof fn lemma_different_bytes(a: AccountId, b: AccountId)
    requires
        is_valid_account_id(a),
        is_valid_account_id(b),
        a != b,
    ensures
        account_id_bytes(a) != account_id_bytes(b),
{
    lemma_account_id_round_trip(a, Seq::empty());
    lemma_account_id_round_trip(b, Seq::empty());
    assert(account_id_bytes(a) + Seq::empty() =~= account_id_bytes(a));
    assert(account_id_bytes(b) + Seq::empty() =~= account_id_bytes(b));
}

} // verus!
