//! Laws on the tables of accounts: what writing and pruning does to their rows, and what is read of them.

use vstd::prelude::*;

use crate::account_code::code_commitment_of_bytes;
use crate::account_id::AccountId;
use crate::block_number::BlockNumber;
use crate::db::delta::{
    assets_of_rows, fungible_vault_key, maps_of_rows, MapEntryRow, VaultAssetRow,
};
use crate::db::entries::pairs_by_key;
use crate::db::full_account::{
    full_state_of_rows, full_state_view, is_account_of_state, slot_view, storage_of_rows,
    FullAccountRow, FullStateView, StorageSlotView,
};
use crate::db::history::{
    has_one_latest_row, is_referenced, keeps_row, kept_codes, kept_rows, lemma_prune_keeps_latest,
    rows_after_write, supersedes, written_count, CodeReferenceRow, HistoryRow,
};
use crate::db::stored::{is_latest_of, latest_rows};
use crate::db::tables::{
    are_account_columns, are_reads_of, are_upserted, are_written, balance_rows, codes_after_insert,
    holds_code, is_asset_columns, is_balance_key, is_entry_columns, is_refused, is_same_version,
    is_upserted, latest_account_row, lemma_code_is_kept, lemma_no_version_before, rows_after_upsert,
    rows_after_writes, slot_rows, version_position, AccountColumns, AccountTables,
};
use crate::db::update_laws::{
    lemma_all_rows_are_written, lemma_changed_slots, lemma_updates_that_are_written,
};
use crate::db::updates::{
    changed_slots, faucets_of_changes, AccountDelta, AccountReads, AccountUpdateDetails,
    BlockAccountUpdate, FullAccountState, StorageSlot, StorageSlotContent,
};
use crate::db::upsert::{
    column, is_written_update, AccountAssetRowInsert, AccountCodeRowInsert, AccountRowInsert,
    AccountStorageMapRowInsert, AccountWrites, WritesView,
};
use crate::errors::{DataCorruption, DatabaseError};
use crate::protocol::{
    account_id_bytes, are_vault_assets, faucet_of_key, storage_header_of_bytes, word_bytes,
};
use crate::state::account::StorageSlotType;

verus! {

proof fn lemma_filter_members<T>(rows: Seq<T>, wanted: spec_fn(T) -> bool)
    ensures
        forall|row: T| #[trigger]
            rows.filter(wanted).contains(row) <==> rows.contains(row) && wanted(row),
        rows.filter(wanted).len() <= rows.len(),
{
    broadcast use vstd::seq_lib::group_filter_ensures;

    assert forall|row: T| #[trigger] rows.filter(wanted).contains(row) implies rows.contains(row)
        && wanted(row) by {
        rows.lemma_filter_contains_rev(wanted, row);
        let i = choose|i: int| 0 <= i < rows.filter(wanted).len() && rows.filter(wanted)[i] == row;
        assert(wanted(rows.filter(wanted)[i]));
    }
    assert forall|row: T| rows.contains(row) && wanted(row) implies #[trigger] rows.filter(
        wanted,
    ).contains(row) by {
        let i = choose|i: int| 0 <= i < rows.len() && rows[i] == row;
        assert(rows.filter(wanted).contains(rows[i]));
    }
}

// WRITING
// ================================================================================================

/// Once an asset was written it is the last row. The rows of the account under the same key are not the
/// latest any more, and all other rows are as they were.
pub proof fn lemma_written_assets(rows: Seq<AccountAssetRowInsert>, row: AccountAssetRowInsert)
    ensures
        rows_after_write(rows, row).len() == rows.len() + 1,
        rows_after_write(rows, row)[rows.len() as int] == row,
        forall|i: int|
            0 <= i < rows.len() ==> {
                let after = #[trigger] rows_after_write(rows, row)[i];
                let same = rows[i].account_id@ == row.account_id@ && rows[i].vault_key@
                    == row.vault_key@;
                &&& same ==> after == (AccountAssetRowInsert { is_latest: false, ..rows[i] })
                &&& !same ==> after == rows[i]
            },
{
    assert forall|i: int| 0 <= i < rows.len() implies {
        let after = #[trigger] rows_after_write(rows, row)[i];
        let same = rows[i].account_id@ == row.account_id@ && rows[i].vault_key@ == row.vault_key@;
        &&& same ==> after == (AccountAssetRowInsert { is_latest: false, ..rows[i] })
        &&& !same ==> after == rows[i]
    } by {
        assert(rows[i].subject().account_id == rows[i].account_id@);
        assert(row.subject().account_id == row.account_id@);
        assert(rows[i].subject().key == rows[i].vault_key@);
        assert(row.subject().key == row.vault_key@);
    }
}

/// Once an entry of a map was written it is the last row. The rows of the account under the same slot
/// and key are not the latest any more, and all other rows are as they were.
pub proof fn lemma_written_entries(
    rows: Seq<AccountStorageMapRowInsert>,
    row: AccountStorageMapRowInsert,
)
    ensures
        rows_after_write(rows, row).len() == rows.len() + 1,
        rows_after_write(rows, row)[rows.len() as int] == row,
        forall|i: int|
            0 <= i < rows.len() ==> {
                let after = #[trigger] rows_after_write(rows, row)[i];
                let same = rows[i].account_id@ == row.account_id@ && rows[i].slot_name@
                    == row.slot_name@ && rows[i].key@ == row.key@;
                &&& same ==> after == (AccountStorageMapRowInsert { is_latest: false, ..rows[i] })
                &&& !same ==> after == rows[i]
            },
{
    assert forall|i: int| 0 <= i < rows.len() implies {
        let after = #[trigger] rows_after_write(rows, row)[i];
        let same = rows[i].account_id@ == row.account_id@ && rows[i].slot_name@ == row.slot_name@
            && rows[i].key@ == row.key@;
        &&& same ==> after == (AccountStorageMapRowInsert { is_latest: false, ..rows[i] })
        &&& !same ==> after == rows[i]
    } by {
        assert(rows[i].subject().account_id == rows[i].account_id@);
        assert(row.subject().account_id == row.account_id@);
        assert(rows[i].subject().slot_name == rows[i].slot_name@);
        assert(row.subject().slot_name == row.slot_name@);
        assert(rows[i].subject().key == rows[i].key@);
        assert(row.subject().key == row.key@);
    }
}

/// Once a row of an account was written it is there, in the place of the row of the same block if there
/// is one. No other row of the account is the latest any more, and the rows of other accounts are as they
/// were.
pub proof fn lemma_written_accounts(rows: Seq<AccountRowInsert>, row: AccountRowInsert)
    ensures
        rows_after_upsert(rows, row).contains(row),
        rows_after_upsert(rows, row).len() == rows.len() || rows_after_upsert(rows, row).len()
            == rows.len() + 1,
        rows_after_upsert(rows, row).len() == rows.len() <==> exists|i: int|
            0 <= i < rows.len() && (#[trigger] rows[i]).account_id@ == row.account_id@
                && rows[i].block_num == row.block_num,
        forall|i: int|
            0 <= i < rows.len() ==> {
                let after = #[trigger] rows_after_upsert(rows, row)[i];
                &&& rows[i].account_id@ != row.account_id@ ==> after == rows[i]
                &&& rows[i].account_id@ == row.account_id@ ==> after == (AccountRowInsert {
                    is_latest: false,
                    ..rows[i]
                }) || (after == row && rows[i].block_num == row.block_num)
            },
{
    let position = version_position(rows, row);
    let after = rows_after_upsert(rows, row);
    lemma_no_version_before(rows, row);
    assert(row.subject().account_id == row.account_id@);
    assert forall|i: int| 0 <= i < rows.len() implies (rows[i].account_id@ == row.account_id@
        <==> (#[trigger] rows[i]).subject() == row.subject()) by {
        assert(rows[i].subject().account_id == rows[i].account_id@);
    }
    if position < rows.len() {
        assert(after[position] == row);
        assert(rows[position].account_id@ == row.account_id@);
    } else {
        assert(after[rows.len() as int] == row);
    }
}

/// Writing a row changes that row alone, unless an earlier one of its subject was the latest, which it
/// changes too.
pub proof fn lemma_changed_rows_are_counted<R: HistoryRow>(rows: Seq<R>, row: R)
    requires
        has_one_latest_row(rows),
    ensures
        written_count(rows, row) == if exists|i: int|
            0 <= i < rows.len() && (#[trigger] rows[i]).latest() && rows[i].subject()
                == row.subject() {
            2nat
        } else {
            1nat
        },
    decreases rows.len(),
{
    let superseded = |earlier: R| supersedes(row, earlier);
    reveal(Seq::filter);
    if rows.len() > 0 {
        let before = rows.drop_last();
        let last = rows.len() - 1;
        assert(has_one_latest_row(before)) by {
            assert forall|i: int, j: int|
                0 <= i < j < before.len() && (#[trigger] before[i]).latest() && (
                #[trigger] before[j]).latest() implies before[i].subject()
                != before[j].subject() by {
                assert(rows[i].latest() && rows[j].latest());
            }
        }
        lemma_changed_rows_are_counted(before, row);
        assert(rows.filter(superseded).len() == before.filter(superseded).len() + if superseded(
            rows[last],
        ) {
            1nat
        } else {
            0nat
        });
        if exists|i: int|
            0 <= i < before.len() && (#[trigger] before[i]).latest() && before[i].subject()
                == row.subject() {
            let i = choose|i: int|
                0 <= i < before.len() && (#[trigger] before[i]).latest() && before[i].subject()
                    == row.subject();
            assert(rows[i].latest() && rows[i].subject() == row.subject());
            assert(!supersedes(row, rows[last]));
        } else if supersedes(row, rows[last]) {
            assert(rows[last].latest() && rows[last].subject() == row.subject());
        } else {
            assert forall|i: int| 0 <= i < rows.len() && (#[trigger] rows[i]).latest() implies rows[
                i
            ].subject() != row.subject() by {
                if i < last {
                    assert(before[i].latest());
                }
            }
        }
    }
}

/// All rows that are written are in the table afterwards, behind those that were there and in the order
/// in which they were written. No row is lost: rows only cease to be the latest.
pub proof fn lemma_all_rows_are_kept<R: HistoryRow>(rows: Seq<R>, written: Seq<R>)
    ensures
        rows_after_writes(rows, written).len() == rows.len() + written.len(),
        forall|i: int|
            0 <= i < rows.len() ==> {
                let after = #[trigger] rows_after_writes(rows, written)[i];
                after == rows[i] || after == rows[i].superseded()
            },
        forall|i: int|
            0 <= i < written.len() ==> {
                let after = rows_after_writes(rows, written)[rows.len() + i];
                after == #[trigger] written[i] || after == written[i].superseded()
            },
        forall|i: int|
            0 <= i < rows.len() && (forall|w: int|
                0 <= w < written.len() ==> (#[trigger] written[w]).subject() != rows[i].subject())
                ==> #[trigger] rows_after_writes(rows, written)[i] == rows[i],
        written.len() > 0 ==> rows_after_writes(rows, written).last() == written.last(),
    decreases written.len(),
{
    if written.len() > 0 {
        let earlier = written.drop_last();
        let before = rows_after_writes(rows, earlier);
        let after = rows_after_writes(rows, written);
        lemma_all_rows_are_kept(rows, earlier);
        assert forall|i: int| 0 <= i < rows.len() implies after[i] == rows[i] || after[i]
            == rows[i].superseded() by {
            assert(before[i] == rows[i] || before[i] == rows[i].superseded());
            rows[i].lemma_superseded();
        }
        assert forall|i: int| 0 <= i < written.len() implies {
            let row = after[rows.len() + i];
            row == #[trigger] written[i] || row == written[i].superseded()
        } by {
            written[i].lemma_superseded();
            if i < earlier.len() {
                assert(earlier[i] == written[i]);
                assert(before[rows.len() + i] == earlier[i] || before[rows.len() + i]
                    == earlier[i].superseded());
            }
        }
        assert forall|i: int|
            0 <= i < rows.len() && (forall|w: int|
                0 <= w < written.len() ==> (#[trigger] written[w]).subject() != rows[i].subject())
            implies #[trigger] after[i] == rows[i] by {
            assert forall|w: int| 0 <= w < earlier.len() implies (#[trigger] earlier[w]).subject()
                != rows[i].subject() by {
                assert(written[w].subject() != rows[i].subject());
            }
            assert(before[i] == rows[i]);
            assert(written[written.len() - 1].subject() != rows[i].subject());
        }
    }
}

/// Code is written once: it is added behind the others unless code with its commitment is there.
pub proof fn lemma_code_is_written_once(
    rows: Seq<AccountCodeRowInsert>,
    row: AccountCodeRowInsert,
)
    ensures
        (exists|i: int|
            0 <= i < rows.len() && (#[trigger] rows[i]).code_commitment@ == row.code_commitment@)
            ==> codes_after_insert(rows, row) == rows,
        (forall|i: int|
            0 <= i < rows.len() ==> (#[trigger] rows[i]).code_commitment@ != row.code_commitment@)
            ==> codes_after_insert(rows, row).len() == rows.len() + 1 && codes_after_insert(
            rows,
            row,
        )[rows.len() as int] == row && codes_after_insert(rows, row).take(rows.len() as int) == rows,
{
    if !holds_code(rows, row.code_commitment@) {
        assert(codes_after_insert(rows, row).take(rows.len() as int) =~= rows);
    }
}

/// The rows of an update are all written: its entries, its assets and the row of its account. Its code is
/// found by its commitment.
pub proof fn lemma_writes_are_all_stored(
    tables: AccountTables,
    writes: AccountWrites,
    after: AccountTables,
)
    requires
        are_written(tables, writes, after),
    ensures
        after.accounts@.contains(writes.account),
        after.storage@.len() == tables.storage@.len() + writes.storage@.len(),
        after.assets@.len() == tables.assets@.len() + writes.assets@.len(),
        writes.storage@.len() == 0 ==> after.storage@ == tables.storage@,
        writes.assets@.len() == 0 ==> after.assets@ == tables.assets@,
        writes.storage@.len() > 0 ==> after.storage@.last() == writes.storage@.last(),
        writes.assets@.len() > 0 ==> after.assets@.last() == writes.assets@.last(),
        writes.code is None ==> after.codes@ == tables.codes@,
        writes.code is Some ==> exists|i: int|
            0 <= i < after.codes@.len() && (#[trigger] after.codes@[i]).code_commitment@
                == writes.code->0.code_commitment@,
        forall|row: AccountCodeRowInsert|
            tables.codes@.contains(row) ==> #[trigger] after.codes@.contains(row),
{
    lemma_written_accounts(tables.accounts@, writes.account);
    lemma_all_rows_are_kept(tables.storage@, writes.storage@);
    lemma_all_rows_are_kept(tables.assets@, writes.assets@);
    if writes.code is Some {
        let row = writes.code->0;
        lemma_code_is_kept(tables.codes@, row, row.code_commitment@);
        assert(holds_code(after.codes@, row.code_commitment@));
    }
    assert forall|row: AccountCodeRowInsert| tables.codes@.contains(
        row,
    ) implies #[trigger] after.codes@.contains(row) by {
        let i = choose|i: int| 0 <= i < tables.codes@.len() && tables.codes@[i] == row;
        assert(after.codes@[i] == row);
    }
}

// PRUNING
// ================================================================================================

/// Pruning keeps a row if it is the latest of its subject or not older than the cutoff, and deletes all
/// others.
pub proof fn lemma_pruned_rows(
    assets: Seq<AccountAssetRowInsert>,
    entries: Seq<AccountStorageMapRowInsert>,
    cutoff: int,
)
    ensures
        forall|row: AccountAssetRowInsert| #[trigger]
            kept_rows(assets, cutoff).contains(row) <==> assets.contains(row) && (row.is_latest
                || row.block_num >= cutoff),
        forall|row: AccountStorageMapRowInsert| #[trigger]
            kept_rows(entries, cutoff).contains(row) <==> entries.contains(row) && (row.is_latest
                || row.block_num >= cutoff),
        kept_rows(assets, cutoff) == assets.filter(
            |row: AccountAssetRowInsert| row.is_latest || row.block_num >= cutoff,
        ),
        kept_rows(entries, cutoff) == entries.filter(
            |row: AccountStorageMapRowInsert| row.is_latest || row.block_num >= cutoff,
        ),
{
    lemma_prune_keeps_latest(assets, cutoff);
    lemma_prune_keeps_latest(entries, cutoff);
    assert((|row: AccountAssetRowInsert| row.is_latest || row.block_num >= cutoff) =~= (
        |row: AccountAssetRowInsert|
            keeps_row(row.raw_block() as int, row.latest(), cutoff)));
    assert((|row: AccountStorageMapRowInsert| row.is_latest || row.block_num >= cutoff) =~= (
        |row: AccountStorageMapRowInsert|
            keeps_row(row.raw_block() as int, row.latest(), cutoff)));
}

/// Pruning keeps the codes that a row refers to which is the latest of its account or not older than the
/// cutoff, and deletes all others.
pub proof fn lemma_pruned_codes(
    codes: Seq<Vec<u8>>,
    accounts: Seq<CodeReferenceRow>,
    cutoff: int,
)
    ensures
        forall|code: Vec<u8>| #[trigger]
            kept_codes(codes, accounts, cutoff).contains(code) <==> codes.contains(code)
                && exists|i: int|
                0 <= i < accounts.len() && ((#[trigger] accounts[i]).is_latest
                    || accounts[i].block_num >= cutoff) && accounts[i].code_commitment is Some
                    && accounts[i].code_commitment->0@ == code@,
        kept_codes(codes, accounts, cutoff).len() <= codes.len(),
{
    lemma_filter_members(codes, |code: Vec<u8>| is_referenced(code@, accounts, cutoff));
    assert forall|code: Vec<u8>| #[trigger]
        kept_codes(codes, accounts, cutoff).contains(code) <==> codes.contains(code)
            && exists|i: int|
            0 <= i < accounts.len() && ((#[trigger] accounts[i]).is_latest || accounts[i].block_num
                >= cutoff) && accounts[i].code_commitment is Some
                && accounts[i].code_commitment->0@ == code@ by {
        if is_referenced(code@, accounts, cutoff) {
            let i = choose|i: int|
                {
                    &&& 0 <= i < accounts.len()
                    &&& keeps_row(
                        (#[trigger] accounts[i]).block_num as int,
                        accounts[i].is_latest,
                        cutoff,
                    )
                    &&& accounts[i].code_commitment matches Some(bytes) && bytes@ == code@
                };
            assert(accounts[i].code_commitment->0@ == code@);
        }
    }
}

// READING
// ================================================================================================

/// The latest row of an account is a row of the account that is marked as the latest. There is none only
/// if no row of the account is marked.
pub proof fn lemma_latest_rows_of_accounts(rows: Seq<AccountRowInsert>, account_id: Seq<u8>)
    ensures
        latest_account_row(rows, account_id) matches Some(row) ==> rows.contains(row)
            && row.account_id@ == account_id && row.is_latest,
        latest_account_row(rows, account_id) is None <==> forall|i: int|
            0 <= i < rows.len() ==> !((#[trigger] rows[i]).account_id@ == account_id
                && rows[i].is_latest),
{
    let wanted = |row: AccountRowInsert| is_latest_of(row, account_id);
    let latest = latest_rows(rows, account_id);
    lemma_filter_members(rows, wanted);
    if latest.len() > 0 {
        assert(latest.contains(latest[0]));
    }
    assert forall|i: int| 0 <= i < rows.len() && wanted(#[trigger] rows[i]) implies latest.len()
        > 0 by {
        assert(latest.contains(rows[i]));
    }
}

/// What an update reads is all there is: the block that created the account, and for a change the
/// columns of its latest row, all of its latest assets, those of the faucets that the change names, and
/// the latest entries of the maps that it changes.
pub proof fn lemma_reads_are_complete(
    reads: AccountReads,
    tables: AccountTables,
    update: BlockAccountUpdate,
    delta: AccountDelta,
)
    requires
        are_reads_of(reads, tables, update),
        update.details == AccountUpdateDetails::Delta(delta),
    ensures
        ({
            let id = account_id_bytes(update.account_id);
            let row = latest_account_row(tables.accounts@, id);
            &&& row is None ==> reads.created_at_block is None && reads.headers is None
            &&& row is Some ==> {
                &&& reads.created_at_block == Some(row->0.created_at_block)
                &&& reads.headers is Some
                &&& reads.headers->0.nonce == row->0.nonce
            }
            &&& forall|i: int|
                0 <= i < tables.assets@.len() && (#[trigger] tables.assets@[i]).account_id@ == id
                    && tables.assets@[i].is_latest ==> exists|j: int|
                    0 <= j < reads.assets@.len() && (#[trigger] reads.assets@[j]).vault_key@
                        == tables.assets@[i].vault_key@ && column(reads.assets@[j].asset) == column(
                        tables.assets@[i].asset,
                    )
            &&& forall|i: int, f: int|
                0 <= i < tables.assets@.len() && (#[trigger] tables.assets@[i]).account_id@ == id
                    && tables.assets@[i].is_latest && 0 <= f < delta.vault.fungible@.len()
                    && tables.assets@[i].vault_key@ == word_bytes(
                    fungible_vault_key(faucet_of_key((#[trigger] delta.vault.fungible@[f]).0)),
                ) ==> exists|j: int|
                    0 <= j < reads.balances@.len() && (#[trigger] reads.balances@[j]).vault_key@
                        == tables.assets@[i].vault_key@ && column(reads.balances@[j].asset)
                        == column(tables.assets@[i].asset)
            &&& forall|i: int, m: int|
                0 <= i < tables.storage@.len() && (#[trigger] tables.storage@[i]).account_id@ == id
                    && tables.storage@[i].is_latest && 0 <= m < delta.storage.maps@.len() && (
                #[trigger] delta.storage.maps@[m]).entries@.len() > 0
                    && tables.storage@[i].slot_name@ == delta.storage.maps@[m].slot_name@
                    ==> exists|j: int|
                    0 <= j < reads.map_entries@.len() && (
                    #[trigger] reads.map_entries@[j]).slot_name@ == tables.storage@[i].slot_name@
                        && reads.map_entries@[j].key@ == tables.storage@[i].key@
                        && reads.map_entries@[j].value@ == tables.storage@[i].value@
        }),
{
    let id = account_id_bytes(update.account_id);
    let faucets = faucets_of_changes(delta.vault.fungible@);
    let names = changed_slots(delta.storage.maps@);
    let assets = latest_rows(tables.assets@, id);
    let entries = latest_rows(tables.storage@, id);
    let is_balance = |row: AccountAssetRowInsert| is_balance_key(row.vault_key@, faucets);
    let is_changed = |row: AccountStorageMapRowInsert| names.contains(row.slot_name@);
    lemma_filter_members(
        tables.assets@,
        |row: AccountAssetRowInsert| is_latest_of(row, id),
    );
    lemma_filter_members(
        tables.storage@,
        |row: AccountStorageMapRowInsert| is_latest_of(row, id),
    );
    lemma_filter_members(assets, is_balance);
    lemma_filter_members(entries, is_changed);
    lemma_changed_slots(delta.storage.maps@);
    assert forall|i: int|
        0 <= i < tables.assets@.len() && (#[trigger] tables.assets@[i]).account_id@ == id
            && tables.assets@[i].is_latest implies exists|j: int|
        0 <= j < reads.assets@.len() && (#[trigger] reads.assets@[j]).vault_key@
            == tables.assets@[i].vault_key@ && column(reads.assets@[j].asset) == column(
            tables.assets@[i].asset,
        ) by {
        assert(assets.contains(tables.assets@[i]));
        let j = choose|j: int| 0 <= j < assets.len() && assets[j] == tables.assets@[i];
        assert(is_asset_columns(reads.assets@[j], assets[j]));
    }
    assert forall|i: int, f: int|
        0 <= i < tables.assets@.len() && (#[trigger] tables.assets@[i]).account_id@ == id
            && tables.assets@[i].is_latest && 0 <= f < delta.vault.fungible@.len()
            && tables.assets@[i].vault_key@ == word_bytes(
            fungible_vault_key(faucet_of_key((#[trigger] delta.vault.fungible@[f]).0)),
        ) implies exists|j: int|
        0 <= j < reads.balances@.len() && (#[trigger] reads.balances@[j]).vault_key@
            == tables.assets@[i].vault_key@ && column(reads.balances@[j].asset) == column(
            tables.assets@[i].asset,
        ) by {
        let row = tables.assets@[i];
        let balances = balance_rows(tables.assets@, id, faucets);
        assert(assets.contains(row));
        assert(faucets[f] == faucet_of_key(delta.vault.fungible@[f].0));
        assert(is_balance_key(row.vault_key@, faucets));
        assert(balances.contains(row));
        let j = choose|j: int| 0 <= j < balances.len() && balances[j] == row;
        assert(is_asset_columns(reads.balances@[j], balances[j]));
    }
    assert forall|i: int, m: int|
        0 <= i < tables.storage@.len() && (#[trigger] tables.storage@[i]).account_id@ == id
            && tables.storage@[i].is_latest && 0 <= m < delta.storage.maps@.len() && (
        #[trigger] delta.storage.maps@[m]).entries@.len() > 0 && tables.storage@[i].slot_name@
            == delta.storage.maps@[m].slot_name@ implies exists|j: int|
        0 <= j < reads.map_entries@.len() && (#[trigger] reads.map_entries@[j]).slot_name@
            == tables.storage@[i].slot_name@ && reads.map_entries@[j].key@
            == tables.storage@[i].key@ && reads.map_entries@[j].value@
            == tables.storage@[i].value@ by {
        let row = tables.storage@[i];
        let found = slot_rows(tables.storage@, id, names);
        assert(entries.contains(row));
        assert(names.contains(delta.storage.maps@[m].slot_name@));
        assert(found.contains(row));
        let j = choose|j: int| 0 <= j < found.len() && found[j] == row;
        assert(is_entry_columns(reads.map_entries@[j], found[j]));
    }
}

/// The columns of an account are those of its latest row, with the code that the row names, and with as
/// many entries and assets as there are latest rows, each of them read from such a row.
pub proof fn lemma_columns_of_accounts(
    columns: AccountColumns,
    tables: AccountTables,
    account_id: Seq<u8>,
)
    requires
        are_account_columns(columns, tables, account_id),
    ensures
        exists|i: int|
            0 <= i < tables.accounts@.len() && (#[trigger] tables.accounts@[i]).account_id@
                == account_id && tables.accounts@[i].is_latest && columns.nonce
                == tables.accounts@[i].nonce && column(columns.storage_header) == column(
                tables.accounts@[i].storage_header,
            ) && exists|c: int|
                0 <= c < tables.codes@.len() && column(tables.accounts@[i].code_commitment) == Some(
                    (#[trigger] tables.codes@[c]).code_commitment@,
                ) && columns.code@ == tables.codes@[c].code@,
        forall|entry: MapEntryRow| #[trigger]
            columns.map_entries@.contains(entry) ==> exists|i: int|
                0 <= i < tables.storage@.len() && (#[trigger] tables.storage@[i]).account_id@
                    == account_id && tables.storage@[i].is_latest && tables.storage@[i].slot_name@
                    == entry.slot_name@ && tables.storage@[i].key@ == entry.key@
                    && tables.storage@[i].value@ == entry.value@,
        forall|asset: VaultAssetRow| #[trigger]
            columns.assets@.contains(asset) ==> exists|i: int|
                0 <= i < tables.assets@.len() && (#[trigger] tables.assets@[i]).account_id@
                    == account_id && tables.assets@[i].is_latest && tables.assets@[i].vault_key@
                    == asset.vault_key@ && column(tables.assets@[i].asset) == column(asset.asset),
        forall|i: int|
            0 <= i < tables.storage@.len() && (#[trigger] tables.storage@[i]).account_id@
                == account_id && tables.storage@[i].is_latest ==> exists|j: int|
                0 <= j < columns.map_entries@.len() && (
                #[trigger] columns.map_entries@[j]).slot_name@ == tables.storage@[i].slot_name@
                    && columns.map_entries@[j].key@ == tables.storage@[i].key@
                    && columns.map_entries@[j].value@ == tables.storage@[i].value@,
        forall|i: int|
            0 <= i < tables.assets@.len() && (#[trigger] tables.assets@[i]).account_id@
                == account_id && tables.assets@[i].is_latest ==> exists|j: int|
                0 <= j < columns.assets@.len() && (#[trigger] columns.assets@[j]).vault_key@
                    == tables.assets@[i].vault_key@ && column(columns.assets@[j].asset) == column(
                    tables.assets@[i].asset,
                ),
{
    let assets = latest_rows(tables.assets@, account_id);
    let entries = latest_rows(tables.storage@, account_id);
    lemma_latest_rows_of_accounts(tables.accounts@, account_id);
    lemma_filter_members(
        tables.assets@,
        |row: AccountAssetRowInsert| is_latest_of(row, account_id),
    );
    lemma_filter_members(
        tables.storage@,
        |row: AccountStorageMapRowInsert| is_latest_of(row, account_id),
    );
    let row = latest_account_row(tables.accounts@, account_id)->0;
    let at = choose|at: int| 0 <= at < tables.accounts@.len() && tables.accounts@[at] == row;
    assert(tables.accounts@[at].account_id@ == account_id);
    assert forall|entry: MapEntryRow| #[trigger]
        columns.map_entries@.contains(entry) implies exists|i: int|
        0 <= i < tables.storage@.len() && (#[trigger] tables.storage@[i]).account_id@ == account_id
            && tables.storage@[i].is_latest && tables.storage@[i].slot_name@ == entry.slot_name@
            && tables.storage@[i].key@ == entry.key@ && tables.storage@[i].value@
            == entry.value@ by {
        let j = choose|j: int|
            0 <= j < columns.map_entries@.len() && columns.map_entries@[j] == entry;
        assert(is_entry_columns(columns.map_entries@[j], entries[j]));
        assert(entries.contains(entries[j]));
        let i = choose|i: int| 0 <= i < tables.storage@.len() && tables.storage@[i] == entries[j];
        assert(tables.storage@[i].account_id@ == account_id);
    }
    assert forall|asset: VaultAssetRow| #[trigger]
        columns.assets@.contains(asset) implies exists|i: int|
        0 <= i < tables.assets@.len() && (#[trigger] tables.assets@[i]).account_id@ == account_id
            && tables.assets@[i].is_latest && tables.assets@[i].vault_key@ == asset.vault_key@
            && column(tables.assets@[i].asset) == column(asset.asset) by {
        let j = choose|j: int| 0 <= j < columns.assets@.len() && columns.assets@[j] == asset;
        assert(is_asset_columns(columns.assets@[j], assets[j]));
        assert(assets.contains(assets[j]));
        let i = choose|i: int| 0 <= i < tables.assets@.len() && tables.assets@[i] == assets[j];
        assert(tables.assets@[i].account_id@ == account_id);
    }
    assert forall|i: int|
        0 <= i < tables.storage@.len() && (#[trigger] tables.storage@[i]).account_id@ == account_id
            && tables.storage@[i].is_latest implies exists|j: int|
        0 <= j < columns.map_entries@.len() && (#[trigger] columns.map_entries@[j]).slot_name@
            == tables.storage@[i].slot_name@ && columns.map_entries@[j].key@
            == tables.storage@[i].key@ && columns.map_entries@[j].value@
            == tables.storage@[i].value@ by {
        assert(entries.contains(tables.storage@[i]));
        let j = choose|j: int| 0 <= j < entries.len() && entries[j] == tables.storage@[i];
        assert(is_entry_columns(columns.map_entries@[j], entries[j]));
    }
    assert forall|i: int|
        0 <= i < tables.assets@.len() && (#[trigger] tables.assets@[i]).account_id@ == account_id
            && tables.assets@[i].is_latest implies exists|j: int|
        0 <= j < columns.assets@.len() && (#[trigger] columns.assets@[j]).vault_key@
            == tables.assets@[i].vault_key@ && column(columns.assets@[j].asset) == column(
            tables.assets@[i].asset,
        ) by {
        assert(assets.contains(tables.assets@[i]));
        let j = choose|j: int| 0 <= j < assets.len() && assets[j] == tables.assets@[i];
        assert(is_asset_columns(columns.assets@[j], assets[j]));
    }
}

/// The updates of a block are written one after another, each on the tables that the one before it left,
/// all of them at the number of the block.
pub proof fn lemma_updates_are_written_in_order(
    steps: Seq<AccountTables>,
    updates: Seq<BlockAccountUpdate>,
    block_num: BlockNumber,
    u: int,
)
    requires
        are_upserted(steps, updates, block_num),
        0 <= u < updates.len(),
    ensures
        steps.len() == updates.len() + 1,
        exists|row: AccountRowInsert| #[trigger]
            steps[u + 1].accounts@.contains(row) && row.account_id@ == account_id_bytes(
                updates[u].account_id,
            ) && row.block_num == block_num.0 && row.is_latest && row.account_commitment@
                == word_bytes(updates[u].final_state_commitment),
{
    assert(is_upserted(steps[u], updates[u], block_num, steps[u + 1]));
    let (reads, writes) = choose|reads: AccountReads, writes: AccountWrites|
        {
            &&& are_reads_of(reads, steps[u], updates[u])
            &&& #[trigger] is_written_update(
                updates[u],
                reads,
                block_num,
                Ok::<WritesView, DatabaseError>(writes@),
            )
            &&& are_written(steps[u], writes, steps[u + 1])
        };
    lemma_all_rows_are_written(updates[u], reads, block_num, writes@);
    lemma_writes_are_all_stored(steps[u], writes, steps[u + 1]);
    assert(steps[u + 1].accounts@.contains(writes.account));
}

/// An update without public state is refused only if the block that created the account cannot be read.
pub proof fn lemma_refused_updates(
    tables: AccountTables,
    update: BlockAccountUpdate,
    block_num: BlockNumber,
    error: DatabaseError,
)
    requires
        is_refused(tables, update, block_num, error),
        update.details is Private,
    ensures
        latest_account_row(
            tables.accounts@,
            account_id_bytes(update.account_id),
        ) matches Some(row) && (row.created_at_block < 0 || row.created_at_block > u32::MAX),
{
    let result = Err::<WritesView, DatabaseError>(error);
    let reads = choose|reads: AccountReads|
        {
            &&& are_reads_of(reads, tables, update)
            &&& #[trigger] is_written_update(update, reads, block_num, result)
        };
    lemma_updates_that_are_written(update, reads, block_num, result);
}

// FULL ACCOUNTS
// ================================================================================================

/// The storage of an account has the slots of its header, in their order and under their names: the
/// value of each value slot, and for each map the entries that are stored of it. An account without a
/// header has no slots.
pub proof fn lemma_slots_of_headers(header: Option<Vec<u8>>, rows: Seq<MapEntryRow>)
    ensures
        header is None && maps_of_rows(rows) is Ok ==> storage_of_rows(header, rows) == Ok::<
            Seq<StorageSlotView>,
            DatabaseError,
        >(Seq::empty()),
        header is Some && storage_header_of_bytes(header->0@) is None ==> storage_of_rows(
            header,
            rows,
        ) == Err::<Seq<StorageSlotView>, DatabaseError>(DatabaseError::DeserializationError),
        maps_of_rows(rows) is Err ==> storage_of_rows(header, rows) is Err,
        header is Some && storage_header_of_bytes(header->0@) is Some && maps_of_rows(rows) is Ok
            ==> {
            let headers = storage_header_of_bytes(header->0@)->0;
            let maps = maps_of_rows(rows)->Ok_0;
            let slots = storage_of_rows(header, rows)->Ok_0;
            &&& storage_of_rows(header, rows) is Ok
            &&& slots.len() == headers.len()
            &&& forall|i: int|
                0 <= i < headers.len() ==> match (#[trigger] headers[i]).slot_type {
                    StorageSlotType::ValueSlot => slots[i] == StorageSlotView::SingleValue(
                        headers[i].name,
                        headers[i].value,
                    ),
                    StorageSlotType::MapSlot => slots[i] == StorageSlotView::MapEntries(
                        headers[i].name,
                        if maps.contains_key(headers[i].name) {
                            maps[headers[i].name]
                        } else {
                            vstd::map::Map::empty()
                        },
                    ),
                }
        },
{
    if header is None && maps_of_rows(rows) is Ok {
        assert(storage_of_rows(header, rows)->Ok_0 =~= Seq::empty());
    }
}

/// The whole state of an account has the nonce of its row, the code of its row with its commitment, the
/// storage that its header and its entries stand for, and the assets of its rows.
pub proof fn lemma_states_of_rows(
    account_id: AccountId,
    row: FullAccountRow,
    header: Option<Vec<u8>>,
    map_entries: Seq<MapEntryRow>,
    assets: Seq<VaultAssetRow>,
)
    ensures
        full_state_of_rows(account_id, Some(row), header, map_entries, assets) matches Ok(state)
            ==> {
            &&& row.nonce is Some
            &&& 0 <= row.nonce->0 ==> state.nonce == row.nonce->0
            &&& state.code == row.code@
            &&& code_commitment_of_bytes(row.code@) == Some(state.code_commitment)
            &&& storage_of_rows(header, map_entries) == Ok::<_, DatabaseError>(state.slots)
            &&& assets_of_rows(assets) == Ok::<_, DatabaseError>(state.assets)
        },
        row.nonce is None ==> full_state_of_rows(
            account_id,
            Some(row),
            header,
            map_entries,
            assets,
        ) == Err::<FullStateView, DatabaseError>(
            DatabaseError::DataCorrupted(DataCorruption::MissingNonce(account_id)),
        ),
        full_state_of_rows(account_id, None, header, map_entries, assets) == Err::<
            FullStateView,
            DatabaseError,
        >(DatabaseError::AccountNotFoundInDb(account_id)),
        row.nonce is Some && code_commitment_of_bytes(row.code@) is Some && storage_of_rows(
            header,
            map_entries,
        ) is Ok && assets_of_rows(assets) is Ok ==> full_state_of_rows(
            account_id,
            Some(row),
            header,
            map_entries,
            assets,
        ) is Ok,
{
}

/// An account that is read has a nonce above zero and assets that make up a vault. It has the code, the
/// nonce and the assets of its state, and as many slots, with the same names.
pub proof fn lemma_accounts_of_states(
    state: FullStateView,
    result: Result<FullAccountState, DatabaseError>,
)
    requires
        is_account_of_state(state, result),
    ensures
        result is Ok <==> are_vault_assets(state.assets) && state.nonce != 0,
        result matches Err(error) ==> error == DatabaseError::AssetVaultError || error
            == DatabaseError::AccountError,
        result matches Ok(account) ==> {
            &&& account.nonce == state.nonce
            &&& account.code_commitment == state.code_commitment
            &&& account.code@ == state.code
            &&& account.assets@ == state.assets
            &&& account.slots@.len() == state.slots.len()
            &&& forall|i: int|
                0 <= i < account.slots@.len() ==> match (#[trigger] account.slots@[i]).content {
                    StorageSlotContent::SingleValue(value) => state.slots[i]
                        == StorageSlotView::SingleValue(account.slots@[i].name@, value),
                    StorageSlotContent::MapEntries(entries) => state.slots[i]
                        == StorageSlotView::MapEntries(
                        account.slots@[i].name@,
                        pairs_by_key(entries@),
                    ),
                }
        },
{
    if result is Ok {
        let account = result->Ok_0;
        let slots = account.slots@.map_values(|slot: StorageSlot| slot_view(slot));
        assert(full_state_view(account).slots == slots);
        assert(slots == state.slots);
        assert forall|i: int| 0 <= i < account.slots@.len() implies match (
        #[trigger] account.slots@[i]).content {
            StorageSlotContent::SingleValue(value) => state.slots[i]
                == StorageSlotView::SingleValue(account.slots@[i].name@, value),
            StorageSlotContent::MapEntries(entries) => state.slots[i] == StorageSlotView::MapEntries(
                account.slots@[i].name@,
                pairs_by_key(entries@),
            ),
        } by {
            assert(slots[i] == slot_view(account.slots@[i]));
        }
    }
}

// CONSISTENCY
// ================================================================================================

/// In consistent tables no account has two latest rows or two rows at a block, no key of a vault has two
/// latest rows, and no key of a map has.
pub proof fn lemma_consistent_tables(tables: AccountTables)
    requires
        tables.is_consistent(),
    ensures
        forall|i: int, j: int|
            0 <= i < j < tables.accounts@.len() && (#[trigger] tables.accounts@[i]).account_id@ == (
            #[trigger] tables.accounts@[j]).account_id@ ==> tables.accounts@[i].block_num
                != tables.accounts@[j].block_num && !(tables.accounts@[i].is_latest
                && tables.accounts@[j].is_latest),
        forall|i: int, j: int|
            0 <= i < j < tables.assets@.len() && (#[trigger] tables.assets@[i]).account_id@ == (
            #[trigger] tables.assets@[j]).account_id@ && tables.assets@[i].vault_key@
                == tables.assets@[j].vault_key@ ==> !(tables.assets@[i].is_latest
                && tables.assets@[j].is_latest),
        forall|i: int, j: int|
            0 <= i < j < tables.storage@.len() && (#[trigger] tables.storage@[i]).account_id@ == (
            #[trigger] tables.storage@[j]).account_id@ && tables.storage@[i].slot_name@
                == tables.storage@[j].slot_name@ && tables.storage@[i].key@
                == tables.storage@[j].key@ ==> !(tables.storage@[i].is_latest
                && tables.storage@[j].is_latest),
{
    assert forall|i: int, j: int|
        0 <= i < j < tables.accounts@.len() && (#[trigger] tables.accounts@[i]).account_id@ == (
        #[trigger] tables.accounts@[j]).account_id@ implies tables.accounts@[i].block_num
        != tables.accounts@[j].block_num && !(tables.accounts@[i].is_latest
        && tables.accounts@[j].is_latest) by {
        assert(tables.accounts@[i].subject() == tables.accounts@[j].subject());
        assert(!is_same_version(tables.accounts@[i], tables.accounts@[j]));
        assert(tables.accounts@[i].latest() == tables.accounts@[i].is_latest);
        assert(tables.accounts@[j].latest() == tables.accounts@[j].is_latest);
    }
    assert forall|i: int, j: int|
        0 <= i < j < tables.assets@.len() && (#[trigger] tables.assets@[i]).account_id@ == (
        #[trigger] tables.assets@[j]).account_id@ && tables.assets@[i].vault_key@
            == tables.assets@[j].vault_key@ implies !(tables.assets@[i].is_latest
        && tables.assets@[j].is_latest) by {
        assert(tables.assets@[i].subject() == tables.assets@[j].subject());
        assert(tables.assets@[i].latest() == tables.assets@[i].is_latest);
        assert(tables.assets@[j].latest() == tables.assets@[j].is_latest);
    }
    assert forall|i: int, j: int|
        0 <= i < j < tables.storage@.len() && (#[trigger] tables.storage@[i]).account_id@ == (
        #[trigger] tables.storage@[j]).account_id@ && tables.storage@[i].slot_name@
            == tables.storage@[j].slot_name@ && tables.storage@[i].key@
            == tables.storage@[j].key@ implies !(tables.storage@[i].is_latest
        && tables.storage@[j].is_latest) by {
        assert(tables.storage@[i].subject() == tables.storage@[j].subject());
        assert(tables.storage@[i].latest() == tables.storage@[i].is_latest);
        assert(tables.storage@[j].latest() == tables.storage@[j].is_latest);
    }
}

} // verus!
