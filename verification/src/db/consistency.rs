//! The tables agree with each other: the roots that are stored with an account are those of the
//! entries and assets that are stored of it, whatever updates were applied.

use vstd::prelude::*;

use crate::account_code::code_commitment_of_bytes;
use crate::account_id::AccountId;
use crate::block_number::BlockNumber;
use crate::db::conv::{collect_results, lemma_collect_values, lemma_raw_sql_round_trip};
use crate::db::delta::{
    assets_of_rows, balance_of, balances_of_rows, contents_after_delta, fungible_vault_key,
    grouped_entries, headers_of_row, is_vault_delta, map_update, slot_after, slot_map, slots_after,
    value_update, MapDelta, MapEntryRow, MapEntryView, VaultAssetRow, VaultDelta,
};
use crate::db::entries::{has_distinct_keys, lemma_pairs_by_key, pairs_by_key};
use crate::db::full_account::{full_state_of_rows, slot_of_header, FullAccountRow, FullStateView};
use crate::db::history::{has_one_latest_row, lemma_contains_split, row_after_write, HistoryRow};
use crate::db::stored::{
    entries_of_rows, entry_of_row, has_distinct_slots, has_distinct_subjects, has_entry,
    holds_entry, is_latest_of, is_storage_table, latest_rows, lemma_entries_are_distinct,
    lemma_grouped_entries, lemma_latest_rows, lemma_new_storage_header_matches_entries,
    lemma_storage_header_matches_entries, lemma_stored_maps, lemma_written_entries_are_read,
    lemma_written_entry_is_read, map_with_entries, stored_maps,
};
use crate::db::stored_assets::{
    asset_of_row, has_distinct_changes, has_plain_keys, holds_asset, is_asset_table, key_of_row,
    lemma_latest_assets, lemma_new_vault_matches_assets, lemma_row_assets, lemma_stored_vault,
    lemma_vault_root_matches_assets, lemma_written_asset_is_read, lemma_written_assets_are_read,
    pending_of_rows, row_assets, stored_vault,
};
use crate::db::tables::{
    are_asset_columns, are_entry_columns, are_reads_of, are_written, balance_rows,
    has_one_row_per_block, is_asset_columns, is_balance_key, is_entry_columns, latest_account_row,
    lemma_no_version_before, lemma_upsert_keeps_history, rows_after_upsert, rows_after_writes,
    slot_rows, version_position, AccountTables,
};
use crate::db::updates::{
    all_slot_entries, change_results, changed_maps, changed_slots, delta_entries, entry_views,
    faucets_of_changes, is_account_update, is_slot_content, nonce_after, pending_fungible,
    pending_non_fungible, slot_entries, slot_header, stored_state, AccountDelta, AccountReads,
    AccountUpdateDetails, BlockAccountUpdate, FullAccountState, PartialStateView,
    PendingAssetInsert, PreparedView, StorageSlot, StorageSlotContent,
};
use crate::db::upsert::{
    asset_row, column, creation_block, is_readable_asset, is_readable_header, is_readable_update,
    is_written_with_root, prepared_update, storage_row, writes_of, AccountAssetRowInsert,
    AccountRowInsert, AccountStorageMapRowInsert, AccountWrites,
};
use crate::errors::DatabaseError;
use crate::protocol::{
    account_id_bytes, are_distinct_assets, asset_pairs, faucet_of_key, has_canonical_values,
    is_asset, is_fungible_faucet, is_slot_name, is_valid_account_id, is_vault_key,
    lemma_account_id_round_trip, lemma_word_round_trip, reduced, storage_header_bytes,
    storage_map_root_of, vault_amount, vault_root_of, word_bytes, word_of_bytes,
};
use crate::state::account::{Asset, SlotHeaderView};
use crate::word::Word;

verus! {

// STORED ACCOUNTS
// ================================================================================================

/// Whether all rows of the tables are those of values, with one latest row each.
pub open spec fn are_account_tables(tables: AccountTables) -> bool {
    &&& has_one_latest_row(tables.accounts@)
    &&& has_one_row_per_block(tables.accounts@)
    &&& is_storage_table(tables.storage@)
    &&& is_asset_table(tables.assets@)
}

/// Whether the roots of a state are those of the entries and assets that are stored of the account.
pub open spec fn has_stored_roots(
    state: PartialStateView,
    tables: AccountTables,
    account_id: AccountId,
) -> bool {
    let id = account_id_bytes(account_id);
    &&& forall|i: int|
        0 <= i < state.storage_header.len() && (
        #[trigger] state.storage_header[i]).slot_type is MapSlot ==> state.storage_header[i].value
            == storage_map_root_of(
            slot_map(stored_maps(tables.storage@, id), state.storage_header[i].name),
        )
    &&& state.vault_root == vault_root_of(stored_vault(tables.assets@, id))
}

/// Whether the latest row of an account holds a state, which can be read back.
pub open spec fn is_latest_state(
    state: PartialStateView,
    tables: AccountTables,
    account_id: AccountId,
) -> bool {
    &&& latest_account_row(tables.accounts@, account_id_bytes(account_id)) matches Some(row)
    &&& row.nonce == Some(state.nonce as i64)
    &&& column(row.code_commitment) == Some(word_bytes(state.code_commitment))
    &&& column(row.storage_header) == Some(storage_header_bytes(state.storage_header))
    &&& column(row.vault_root) == Some(word_bytes(state.vault_root))
    &&& is_readable_header(state.storage_header)
    &&& has_canonical_values(state.storage_header)
}

/// Whether an account is stored with a state: its latest row holds the state, and the roots of the
/// state are those of the entries and assets that are stored of the account.
pub open spec fn is_stored(
    state: PartialStateView,
    tables: AccountTables,
    account_id: AccountId,
) -> bool {
    is_latest_state(state, tables, account_id) && has_stored_roots(state, tables, account_id)
}

// WRITTEN ROWS
// ================================================================================================

/// Whether entries to store have valid slot names and canonical words.
pub open spec fn are_valid_entries(entries: Seq<MapEntryView>) -> bool {
    forall|i: int|
        0 <= i < entries.len() ==> is_slot_name((#[trigger] entries[i]).slot_name)
            && entries[i].key.is_canonical() && entries[i].value.is_canonical()
}

/// Whether assets to store are assets under their keys, none of them empty.
pub open spec fn are_valid_assets(pending: Seq<PendingAssetInsert>) -> bool {
    forall|i: int|
        0 <= i < pending.len() ==> (#[trigger] pending[i]).vault_key.is_canonical() && (
        pending[i].asset matches Some(asset) ==> {
            &&& is_asset(asset)
            &&& asset.key == pending[i].vault_key
            &&& asset.value != Word::empty()
        })
}

/// Whether rows are latest rows of map entries of an account.
pub open spec fn are_latest_entries(
    rows: Seq<AccountStorageMapRowInsert>,
    account_id: Seq<u8>,
) -> bool {
    forall|i: int|
        0 <= i < rows.len() ==> holds_entry(#[trigger] rows[i]) && rows[i].is_latest
            && rows[i].account_id@ == account_id
}

/// Whether rows are latest rows of assets of an account.
pub open spec fn are_latest_assets(rows: Seq<AccountAssetRowInsert>, account_id: Seq<u8>) -> bool {
    forall|i: int|
        0 <= i < rows.len() ==> holds_asset(#[trigger] rows[i]) && rows[i].is_latest
            && rows[i].account_id@ == account_id
}

proof fn lemma_word_is_read(word: Word)
    requires
        word.is_canonical(),
    ensures
        word_of_bytes(word_bytes(word)) == Some(word),
{
    lemma_word_round_trip(word, Seq::empty());
    assert(word_bytes(word) + Seq::empty() =~= word_bytes(word));
}

/// The rows of an update hold what the update stores.
proof fn lemma_written_rows(
    update: BlockAccountUpdate,
    block_num: BlockNumber,
    created_at_block: BlockNumber,
    prepared: PreparedView,
    writes: AccountWrites,
)
    requires
        writes@ == writes_of(update, block_num, created_at_block, prepared),
        is_readable_update(prepared),
        are_valid_entries(prepared.storage),
        are_valid_assets(prepared.assets),
    ensures
        are_latest_entries(writes.storage@, account_id_bytes(update.account_id)),
        entries_of_rows(writes.storage@) == prepared.storage,
        are_latest_assets(writes.assets@, account_id_bytes(update.account_id)),
        pending_of_rows(writes.assets@) == prepared.assets,
{
    let id = account_id_bytes(update.account_id);
    let storage = writes.storage@;
    let assets = writes.assets@;
    assert(writes@.storage.len() == storage.len());
    assert(writes@.assets.len() == assets.len());
    assert forall|i: int| 0 <= i < storage.len() implies holds_entry(#[trigger] storage[i])
        && storage[i].is_latest && storage[i].account_id@ == id && entry_of_row(storage[i])
        == prepared.storage[i] by {
        assert(writes@.storage[i] == storage[i]@);
        assert(writes@.storage[i] == storage_row(
            update.account_id,
            block_num,
            prepared.storage[i],
        ));
        lemma_word_is_read(prepared.storage[i].key);
        lemma_word_is_read(prepared.storage[i].value);
    }
    assert(entries_of_rows(storage) =~= prepared.storage);
    assert forall|i: int| 0 <= i < assets.len() implies holds_asset(#[trigger] assets[i])
        && assets[i].is_latest && assets[i].account_id@ == id && key_of_row(assets[i])
        == prepared.assets[i].vault_key && asset_of_row(assets[i]) == prepared.assets[i].asset by {
        assert(writes@.assets[i] == assets[i]@);
        assert(writes@.assets[i] == asset_row(update.account_id, block_num, prepared.assets[i]));
        assert(is_readable_asset(prepared.assets[i]));
        lemma_word_is_read(prepared.assets[i].vault_key);
        assert(column(assets[i].asset) == assets[i]@.asset);
    }
    assert(pending_of_rows(assets) =~= prepared.assets);
}

/// The latest row of an account is the one that was written last.
pub proof fn lemma_latest_account_after_upsert(rows: Seq<AccountRowInsert>, row: AccountRowInsert)
    requires
        has_one_latest_row(rows),
        has_one_row_per_block(rows),
        row.is_latest,
    ensures
        latest_account_row(rows_after_upsert(rows, row), row.account_id@) == Some(row),
{
    let after = rows_after_upsert(rows, row);
    let latest = latest_rows(after, row.account_id@);
    lemma_upsert_keeps_history(rows, row);
    lemma_latest_rows(after, row.account_id@);
    assert(latest.contains(row));
    let i = choose|i: int| 0 <= i < latest.len() && latest[i] == row;
    assert(latest.contains(latest[0]));
    assert(latest[0].subject() == latest[i].subject());
}

/// The latest row of another account stays as it is.
proof fn lemma_latest_account_is_kept(
    rows: Seq<AccountRowInsert>,
    row: AccountRowInsert,
    account_id: Seq<u8>,
)
    requires
        row.account_id@ != account_id,
    ensures
        latest_rows(rows_after_upsert(rows, row), account_id) == latest_rows(rows, account_id),
{
    let after = rows_after_upsert(rows, row);
    let wanted = |row: AccountRowInsert| is_latest_of(row, account_id);
    let position = version_position(rows, row);
    lemma_no_version_before(rows, row);
    if position < rows.len() {
        lemma_filter_of_unwanted(rows, after, wanted);
    } else {
        let earlier = rows.map_values(
            |earlier: AccountRowInsert| row_after_write(earlier, row),
        );
        lemma_filter_of_unwanted(rows, earlier, wanted);
        reveal(Seq::filter);
        assert(after.drop_last() =~= earlier);
        assert(after.last() == row);
    }
}

/// Rows that are not wanted may change without a trace among those that are.
pub proof fn lemma_filter_of_unwanted(
    rows: Seq<AccountRowInsert>,
    others: Seq<AccountRowInsert>,
    wanted: spec_fn(AccountRowInsert) -> bool,
)
    requires
        rows.len() == others.len(),
        forall|i: int|
            0 <= i < rows.len() ==> (#[trigger] rows[i]) == others[i] || !wanted(rows[i])
                && !wanted(others[i]),
    ensures
        rows.filter(wanted) == others.filter(wanted),
    decreases rows.len(),
{
    reveal(Seq::filter);
    if rows.len() > 0 {
        assert forall|i: int| 0 <= i < rows.len() - 1 implies (#[trigger] rows.drop_last()[i])
            == others.drop_last()[i] || !wanted(rows.drop_last()[i]) && !wanted(
            others.drop_last()[i],
        ) by {
            assert(rows[i] == rows.drop_last()[i]);
        }
        lemma_filter_of_unwanted(rows.drop_last(), others.drop_last(), wanted);
        let last = rows.len() - 1;
        assert(rows[last] == others[last] || !wanted(rows[last]) && !wanted(others[last]));
    }
}

/// Writing rows of an account changes nothing that is stored of another account.
pub proof fn lemma_other_accounts_are_kept(
    storage: Seq<AccountStorageMapRowInsert>,
    written_storage: Seq<AccountStorageMapRowInsert>,
    assets: Seq<AccountAssetRowInsert>,
    written_assets: Seq<AccountAssetRowInsert>,
    account_id: Seq<u8>,
    other: Seq<u8>,
    slot_name: Seq<char>,
)
    requires
        is_storage_table(storage),
        is_asset_table(assets),
        are_latest_entries(written_storage, account_id),
        are_latest_assets(written_assets, account_id),
        other != account_id,
    ensures
        slot_map(stored_maps(rows_after_writes(storage, written_storage), other), slot_name)
            == slot_map(stored_maps(storage, other), slot_name),
        stored_vault(rows_after_writes(assets, written_assets), other) == stored_vault(
            assets,
            other,
        ),
    decreases written_storage.len() + written_assets.len(),
{
    if written_storage.len() > 0 {
        let before = written_storage.drop_last();
        assert forall|i: int| 0 <= i < before.len() implies holds_entry(#[trigger] before[i])
            && before[i].is_latest && before[i].account_id@ == account_id by {
            assert(before[i] == written_storage[i]);
        }
        lemma_other_accounts_are_kept(
            storage,
            before,
            assets,
            written_assets,
            account_id,
            other,
            slot_name,
        );
        lemma_written_entries_are_read(storage, before, account_id, slot_name);
        assert(holds_entry(written_storage[written_storage.len() - 1]));
        lemma_written_entry_is_read(
            rows_after_writes(storage, before),
            written_storage.last(),
            other,
            slot_name,
        );
    } else if written_assets.len() > 0 {
        let before = written_assets.drop_last();
        assert forall|i: int| 0 <= i < before.len() implies holds_asset(#[trigger] before[i])
            && before[i].is_latest && before[i].account_id@ == account_id by {
            assert(before[i] == written_assets[i]);
        }
        lemma_other_accounts_are_kept(
            storage,
            written_storage,
            assets,
            before,
            account_id,
            other,
            slot_name,
        );
        lemma_written_assets_are_read(assets, before, account_id);
        assert(holds_asset(written_assets[written_assets.len() - 1]));
        lemma_written_asset_is_read(
            rows_after_writes(assets, before),
            written_assets.last(),
            other,
        );
    }
}

// NEW ACCOUNTS
// ================================================================================================

proof fn lemma_new_entries_are_valid(slots: Seq<StorageSlot>)
    requires
        forall|i: int|
            0 <= i < slots.len() ==> is_slot_content((#[trigger] slots[i]).content) && is_slot_name(
                slots[i].name@,
            ),
    ensures
        are_valid_entries(all_slot_entries(slots)),
    decreases slots.len(),
{
    if slots.len() > 0 {
        let before = slots.drop_last();
        assert forall|i: int| 0 <= i < before.len() implies is_slot_content(
            (#[trigger] before[i]).content,
        ) && is_slot_name(before[i].name@) by {
            assert(before[i] == slots[i]);
        }
        lemma_new_entries_are_valid(before);
        assert(is_slot_content(slots[slots.len() - 1].content));
        let entries = all_slot_entries(slots);
        let entries_before = all_slot_entries(before);
        assert forall|i: int| 0 <= i < entries.len() implies is_slot_name(
            (#[trigger] entries[i]).slot_name,
        ) && entries[i].key.is_canonical() && entries[i].value.is_canonical() by {
            if i < entries_before.len() {
                assert(entries[i] == entries_before[i]);
            } else {
                assert(entries[i] == slot_entries(slots.last())[i - entries_before.len()]);
            }
        }
    }
}

/// A new account is stored with the state of its update. Its storage maps and its vault are read back
/// as the update gave them, and the tables stay valid.
pub proof fn lemma_new_account_is_stored(
    tables: AccountTables,
    update: BlockAccountUpdate,
    account: FullAccountState,
    reads: AccountReads,
    block_num: BlockNumber,
    vault_root: Result<Word, DatabaseError>,
    writes: AccountWrites,
    after: AccountTables,
)
    requires
        is_account_update(update),
        update.details == AccountUpdateDetails::FullState(account),
        is_written_with_root(update, reads, block_num, vault_root, Ok(writes@)),
        are_written(tables, writes, after),
        are_account_tables(tables),
        latest_rows(tables.storage@, account_id_bytes(update.account_id)).len() == 0,
        latest_rows(tables.assets@, account_id_bytes(update.account_id)).len() == 0,
    ensures
        are_account_tables(after),
        ({
            let id = account_id_bytes(update.account_id);
            let state = PartialStateView {
                nonce: account.nonce,
                code_commitment: account.code_commitment,
                storage_header: account.slots@.map_values(|slot: StorageSlot| slot_header(slot)),
                vault_root: vault_root->Ok_0,
            };
            &&& is_stored(state, after, update.account_id)
            &&& stored_state(prepared_update(update, reads, vault_root)->Ok_0.state) == Some(state)
            &&& stored_vault(after.assets@, id) == pairs_by_key(asset_pairs(account.assets@))
            &&& forall|i: int|
                0 <= i < account.slots@.len() ==> ((
                #[trigger] account.slots@[i]).content matches StorageSlotContent::MapEntries(
                    entries,
                ) ==> slot_map(stored_maps(after.storage@, id), account.slots@[i].name@)
                    == pairs_by_key(entries@))
        }),
{
    let id = account_id_bytes(update.account_id);
    let prepared = prepared_update(update, reads, vault_root)->Ok_0;
    let created_at_block = creation_block(reads.created_at_block, block_num)->Ok_0;
    let slots = account.slots@;
    let header = slots.map_values(|slot: StorageSlot| slot_header(slot));
    assert(prepared.state->FullAccount_0.storage_header == header);
    assert forall|i: int| 0 <= i < slots.len() implies is_slot_content(
        (#[trigger] slots[i]).content,
    ) && is_slot_name(slots[i].name@) by {
        assert(is_slot_name(header[i].name));
    }
    assert forall|i: int, j: int| 0 <= i < j < slots.len() implies (#[trigger] slots[i]).name@ != (
    #[trigger] slots[j]).name@ by {
        assert(header[i].name != header[j].name);
    }
    lemma_new_entries_are_valid(slots);
    assert forall|i: int| 0 <= i < prepared.assets.len() implies (
    #[trigger] prepared.assets[i]).vault_key.is_canonical() && (
    prepared.assets[i].asset matches Some(asset) ==> {
        &&& is_asset(asset)
        &&& asset.key == prepared.assets[i].vault_key
        &&& asset.value != Word::empty()
    }) by {
        assert(is_asset(account.assets@[i]));
    }
    lemma_written_rows(update, block_num, created_at_block, prepared, writes);
    assert(writes.account@ == writes@.account);
    lemma_upsert_keeps_history(tables.accounts@, writes.account);
    lemma_latest_account_after_upsert(tables.accounts@, writes.account);
    lemma_written_entries_are_read(tables.storage@, writes.storage@, id, Seq::empty());
    lemma_written_assets_are_read(tables.assets@, writes.assets@, id);
    lemma_new_vault_matches_assets(tables.assets@, writes.assets@, id, account.assets@);
    assert forall|i: int| 0 <= i < slots.len() implies ((
    #[trigger] slots[i]).content matches StorageSlotContent::MapEntries(entries) ==> slot_map(
        stored_maps(after.storage@, id),
        slots[i].name@,
    ) == pairs_by_key(entries@)) by {
        lemma_new_storage_header_matches_entries(
            tables.storage@,
            writes.storage@,
            id,
            slots,
            i,
        );
    }
    assert forall|i: int| 0 <= i < header.len() && (
    #[trigger] header[i]).slot_type is MapSlot implies header[i].value == storage_map_root_of(
        slot_map(stored_maps(after.storage@, id), header[i].name),
    ) by {
        assert(slots[i].content is MapEntries);
    }
}

// READS
// ================================================================================================

proof fn lemma_assets_of_columns(found: Seq<VaultAssetRow>, rows: Seq<AccountAssetRowInsert>)
    requires
        are_asset_columns(found, rows),
        forall|i: int| 0 <= i < rows.len() ==> holds_asset(#[trigger] rows[i]),
    ensures
        assets_of_rows(found) == Ok::<Seq<Asset>, DatabaseError>(row_assets(rows)),
    decreases rows.len(),
{
    if rows.len() > 0 {
        let before = rows.drop_last();
        assert forall|i: int| 0 <= i < before.len() implies is_asset_columns(
            found.drop_last()[i],
            #[trigger] before[i],
        ) && holds_asset(before[i]) by {
            assert(before[i] == rows[i]);
        }
        lemma_assets_of_columns(found.drop_last(), before);
        let last = rows.len() - 1;
        assert(holds_asset(rows[last]));
        assert(is_asset_columns(found[last], rows[last]));
    }
}

proof fn lemma_entries_of_columns(
    found: Seq<MapEntryRow>,
    rows: Seq<AccountStorageMapRowInsert>,
)
    requires
        are_entry_columns(found, rows),
        forall|i: int| 0 <= i < rows.len() ==> holds_entry(#[trigger] rows[i]),
    ensures
        collect_results(found.map_values(|row: MapEntryRow| row.decoded())) == Ok::<
            Seq<MapEntryView>,
            DatabaseError,
        >(entries_of_rows(rows)),
    decreases rows.len(),
{
    let results = found.map_values(|row: MapEntryRow| row.decoded());
    if rows.len() > 0 {
        let before = rows.drop_last();
        let found_before = found.drop_last();
        assert forall|i: int| 0 <= i < before.len() implies is_entry_columns(
            found_before[i],
            #[trigger] before[i],
        ) && holds_entry(before[i]) by {
            assert(before[i] == rows[i]);
        }
        lemma_entries_of_columns(found_before, before);
        let last = rows.len() - 1;
        assert(holds_entry(rows[last]));
        assert(is_entry_columns(found[last], rows[last]));
        assert(results.drop_last() =~= found_before.map_values(|row: MapEntryRow| row.decoded()));
        assert(entries_of_rows(rows) =~= entries_of_rows(before).push(entry_of_row(rows[last])));
    } else {
        assert(results =~= Seq::empty());
        assert(entries_of_rows(rows) =~= Seq::empty());
    }
}

proof fn lemma_filtered_rows<R: HistoryRow>(rows: Seq<R>, wanted: spec_fn(R) -> bool)
    ensures
        forall|row: R| #[trigger]
            rows.filter(wanted).contains(row) <==> rows.contains(row) && wanted(row),
        has_distinct_subjects(rows) ==> has_distinct_subjects(rows.filter(wanted)),
    decreases rows.len(),
{
    reveal(Seq::filter);
    if rows.len() > 0 {
        let before = rows.drop_last();
        let found = before.filter(wanted);
        let row = rows.last();
        lemma_filtered_rows(before, wanted);
        assert forall|other: R| #[trigger] rows.filter(wanted).contains(other) <==> rows.contains(
            other,
        ) && wanted(other) by {
            lemma_contains_split(rows, other);
            if wanted(row) {
                lemma_contains_split(found.push(row), other);
                assert(found.push(row).drop_last() =~= found);
            }
            assert(found.contains(other) <==> before.contains(other) && wanted(other));
        }
        if has_distinct_subjects(rows) {
            assert forall|i: int, j: int| 0 <= i < j < before.len() implies (
            #[trigger] before[i]).subject() != (#[trigger] before[j]).subject() by {
                assert(before[i] == rows[i] && before[j] == rows[j]);
            }
            if wanted(row) {
                assert forall|i: int| 0 <= i < found.len() implies (#[trigger] found[i]).subject()
                    != row.subject() by {
                    assert(found.contains(found[i]));
                    let j = choose|j: int| 0 <= j < before.len() && before[j] == found[i];
                    assert(rows[j] == found[i]);
                    assert(rows[rows.len() - 1] == row);
                }
            }
        }
    }
}

proof fn lemma_slot_rows(
    rows: Seq<AccountStorageMapRowInsert>,
    account_id: Seq<u8>,
    slot_names: Seq<Seq<char>>,
)
    requires
        is_storage_table(rows),
    ensures
        has_distinct_subjects(slot_rows(rows, account_id, slot_names)),
        forall|i: int|
            0 <= i < slot_rows(rows, account_id, slot_names).len() ==> holds_entry(
                #[trigger] slot_rows(rows, account_id, slot_names)[i],
            ) && slot_rows(rows, account_id, slot_names)[i].account_id@ == account_id,
{
    let latest = latest_rows(rows, account_id);
    let found = slot_rows(rows, account_id, slot_names);
    lemma_latest_rows(rows, account_id);
    lemma_filtered_rows(
        latest,
        |row: AccountStorageMapRowInsert| slot_names.contains(row.slot_name@),
    );
    assert forall|i: int| 0 <= i < found.len() implies holds_entry(#[trigger] found[i])
        && found[i].account_id@ == account_id by {
        assert(found.contains(found[i]));
        assert(latest.contains(found[i]));
        let j = choose|j: int| 0 <= j < rows.len() && rows[j] == found[i];
        assert(holds_entry(rows[j]));
    }
}

/// The entries of a slot that a query by slots returns are all that are stored of it.
proof fn lemma_changed_slot_is_read(
    rows: Seq<AccountStorageMapRowInsert>,
    account_id: Seq<u8>,
    slot_names: Seq<Seq<char>>,
    slot_name: Seq<char>,
)
    requires
        is_storage_table(rows),
        slot_names.contains(slot_name),
    ensures
        slot_map(
            grouped_entries(entries_of_rows(slot_rows(rows, account_id, slot_names))),
            slot_name,
        ) == slot_map(stored_maps(rows, account_id), slot_name),
{
    let latest = latest_rows(rows, account_id);
    let found = slot_rows(rows, account_id, slot_names);
    let entries = entries_of_rows(found);
    let read = slot_map(grouped_entries(entries), slot_name);
    let stored = slot_map(stored_maps(rows, account_id), slot_name);
    lemma_slot_rows(rows, account_id, slot_names);
    lemma_entries_are_distinct(found, account_id);
    lemma_filtered_rows(
        latest,
        |row: AccountStorageMapRowInsert| slot_names.contains(row.slot_name@),
    );
    assert forall|key: Word|
        {
            &&& #[trigger] read.contains_key(key) == stored.contains_key(key)
            &&& read.contains_key(key) ==> read[key] == stored[key]
        } by {
        lemma_grouped_entries(entries, slot_name, key);
        if read.contains_key(key) {
            let value = read[key];
            assert(has_entry(entries, slot_name, key, value));
            let i = choose|i: int|
                0 <= i < entries.len() && #[trigger] entries[i] == (MapEntryView {
                    slot_name,
                    key,
                    value,
                });
            assert(found.contains(found[i]));
            assert(latest.contains(found[i]));
            assert(entry_of_row(found[i]) == entries[i]);
            lemma_stored_maps(rows, account_id, slot_name, key, value);
        }
        if stored.contains_key(key) {
            let value = stored[key];
            lemma_stored_maps(rows, account_id, slot_name, key, value);
            let row = choose|row: AccountStorageMapRowInsert| #[trigger]
                latest.contains(row) && entry_of_row(row) == (MapEntryView {
                    slot_name,
                    key,
                    value,
                });
            assert(found.contains(row));
            let i = choose|i: int| 0 <= i < found.len() && found[i] == row;
            assert(entries[i] == entry_of_row(row));
            assert(has_entry(entries, slot_name, key, value));
        }
    }
    assert(read =~= stored);
}

proof fn lemma_unchanged_slot(
    deltas: Seq<MapDelta>,
    maps: vstd::map::Map<Seq<char>, vstd::map::Map<Word, Word>>,
    slot_name: Seq<char>,
)
    requires
        !changed_slots(deltas).contains(slot_name),
    ensures
        map_update(deltas, maps, slot_name) is None,
    decreases deltas.len(),
{
    if deltas.len() > 0 {
        let before = deltas.drop_last();
        let names = changed_slots(before);
        if names.contains(slot_name) {
            let i = choose|i: int| 0 <= i < names.len() && names[i] == slot_name;
            assert(changed_slots(deltas)[i] == slot_name);
        }
        if deltas.last().entries@.len() > 0 {
            assert(changed_slots(deltas)[names.len() as int] == deltas.last().slot_name@);
        }
        lemma_unchanged_slot(before, maps, slot_name);
    }
}

proof fn lemma_balance(assets: Seq<Asset>, faucet_id: AccountId)
    requires
        forall|i: int|
            0 <= i < assets.len() ==> (faucet_of_key((#[trigger] assets[i]).key) == faucet_id
                <==> assets[i].key == fungible_vault_key(faucet_id)),
        is_fungible_faucet(faucet_id),
        has_distinct_keys(asset_pairs(assets)),
    ensures
        balance_of(assets, faucet_id) == vault_amount(
            pairs_by_key(asset_pairs(assets)),
            fungible_vault_key(faucet_id),
        ),
    decreases assets.len(),
{
    let pairs = asset_pairs(assets);
    lemma_pairs_by_key(pairs);
    if assets.len() > 0 {
        let before = assets.drop_last();
        let last = assets.len() - 1;
        assert(asset_pairs(before) =~= pairs.drop_last());
        assert forall|i: int| 0 <= i < before.len() implies (faucet_of_key(
            (#[trigger] before[i]).key,
        ) == faucet_id <==> before[i].key == fungible_vault_key(faucet_id)) by {
            assert(before[i] == assets[i]);
        }
        lemma_balance(before, faucet_id);
        assert(pairs[last] == (assets[last].key, assets[last].value));
        assert(faucet_of_key(assets[last].key) == faucet_id <==> assets[last].key
            == fungible_vault_key(faucet_id));
    }
}

/// The balances that a query by faucets returns are the amounts that the stored vault holds.
proof fn lemma_balances_are_amounts(
    rows: Seq<AccountAssetRowInsert>,
    account_id: Seq<u8>,
    fungible: Seq<(Word, i64)>,
    position: int,
)
    requires
        is_asset_table(rows),
        forall|i: int|
            0 <= i < fungible.len() ==> {
                let key = (#[trigger] fungible[i]).0;
                is_vault_key(key) && is_fungible_faucet(faucet_of_key(key))
            },
        has_plain_keys(fungible),
        0 <= position < fungible.len(),
    ensures
        balance_of(
            row_assets(balance_rows(rows, account_id, faucets_of_changes(fungible))),
            faucet_of_key(fungible[position].0),
        ) == vault_amount(stored_vault(rows, account_id), fungible[position].0),
{
    let latest = latest_rows(rows, account_id);
    let faucet_ids = faucets_of_changes(fungible);
    let found = balance_rows(rows, account_id, faucet_ids);
    let assets = row_assets(found);
    let key = fungible[position].0;
    let faucet_id = faucet_of_key(key);
    lemma_latest_assets(rows, account_id);
    lemma_filtered_rows(
        latest,
        |row: AccountAssetRowInsert| is_balance_key(row.vault_key@, faucet_ids),
    );
    assert forall|i: int| 0 <= i < found.len() implies holds_asset(#[trigger] found[i])
        && found[i].account_id@ == account_id && is_balance_key(
        found[i].vault_key@,
        faucet_ids,
    ) by {
        assert(found.contains(found[i]));
        assert(latest.contains(found[i]));
        let j = choose|j: int| 0 <= j < latest.len() && latest[j] == found[i];
        assert(holds_asset(latest[j]));
    }
    lemma_row_assets(found, account_id);
    assert forall|i: int| 0 <= i < assets.len() implies (faucet_of_key((#[trigger] assets[i]).key)
        == faucet_id <==> assets[i].key == fungible_vault_key(faucet_id)) by {
        assert(assets.contains(assets[i]));
        let j = choose|j: int|
            0 <= j < found.len() && asset_of_row(#[trigger] found[j]) == Some(assets[i]);
        let k = choose|k: int|
            0 <= k < faucet_ids.len() && found[j].vault_key@ == word_bytes(
                fungible_vault_key(#[trigger] faucet_ids[k]),
            );
        assert(is_vault_key(fungible[k].0));
        assert(fungible_vault_key(faucet_ids[k]).is_canonical());
        lemma_word_is_read(fungible_vault_key(faucet_ids[k]));
        assert(assets[i].key == fungible_vault_key(faucet_ids[k]));
    }
    assert(is_vault_key(fungible[position].0));
    lemma_balance(assets, faucet_id);
    lemma_pairs_by_key(asset_pairs(assets));
    let read = pairs_by_key(asset_pairs(assets));
    let stored = stored_vault(rows, account_id);
    if read.contains_key(key) {
        let value = read[key];
        let pairs = asset_pairs(assets);
        let i = choose|i: int| 0 <= i < pairs.len() && (#[trigger] pairs[i]).0 == key;
        assert(assets.contains(assets[i]));
        let j = choose|j: int|
            0 <= j < found.len() && asset_of_row(#[trigger] found[j]) == Some(assets[i]);
        assert(found.contains(found[j]));
        assert(latest.contains(found[j]));
        assert(asset_of_row(found[j]) == Some(Asset { key, value }));
        lemma_stored_vault(rows, account_id, key, value);
    }
    if stored.contains_key(key) {
        let value = stored[key];
        lemma_stored_vault(rows, account_id, key, value);
        let row = choose|row: AccountAssetRowInsert| #[trigger]
            latest.contains(row) && asset_of_row(row) == Some(Asset { key, value });
        let j = choose|j: int| 0 <= j < latest.len() && latest[j] == row;
        assert(holds_asset(latest[j]));
        assert(faucet_ids[position] == faucet_id);
        assert(is_balance_key(row.vault_key@, faucet_ids));
        assert(found.contains(row));
        let k = choose|k: int| 0 <= k < found.len() && found[k] == row;
        assert(asset_of_row(found[k]) == Some(Asset { key, value }));
        assert(assets.contains(Asset { key, value }));
        let i = choose|i: int| 0 <= i < assets.len() && assets[i] == (Asset { key, value });
        assert(asset_pairs(assets)[i].0 == key);
    }
}

// CHANGED ACCOUNTS
// ================================================================================================

/// Whether a delta is one of an account: its maps have valid names, no map and no faucet is there
/// twice, its amounts are under the plain keys of their faucets, and it gives values to value slots
/// only.
pub open spec fn is_delta_of(delta: AccountDelta, slots: Seq<SlotHeaderView>) -> bool {
    &&& forall|i: int|
        0 <= i < delta.storage.maps@.len() ==> is_slot_name(
            (#[trigger] delta.storage.maps@[i]).slot_name@,
        )
    &&& has_distinct_slots(delta.storage.maps@)
    &&& has_distinct_changes(delta.vault.fungible@)
    &&& has_plain_keys(delta.vault.fungible@)
    &&& forall|i: int|
        0 <= i < slots.len() && (#[trigger] slots[i]).slot_type is MapSlot ==> value_update(
            delta.storage.values@,
            slots[i].name,
        ) is None
}

proof fn lemma_delta_entries_are_valid(deltas: Seq<MapDelta>)
    requires
        forall|i: int|
            0 <= i < deltas.len() ==> is_slot_name((#[trigger] deltas[i]).slot_name@),
        forall|i: int, j: int|
            0 <= i < deltas.len() && 0 <= j < deltas[i].entries@.len() ==> (
            #[trigger] deltas[i].entries@[j]).0.is_canonical()
                && deltas[i].entries@[j].1.is_canonical(),
    ensures
        are_valid_entries(delta_entries(deltas)),
    decreases deltas.len(),
{
    if deltas.len() > 0 {
        let before = deltas.drop_last();
        let last = deltas.last();
        assert forall|i: int| 0 <= i < before.len() implies is_slot_name(
            (#[trigger] before[i]).slot_name@,
        ) by {
            assert(before[i] == deltas[i]);
        }
        assert forall|i: int, j: int|
            0 <= i < before.len() && 0 <= j < before[i].entries@.len() implies (
        #[trigger] before[i].entries@[j]).0.is_canonical()
            && before[i].entries@[j].1.is_canonical() by {
            assert(before[i].entries@[j] == deltas[i].entries@[j]);
        }
        lemma_delta_entries_are_valid(before);
        let entries = delta_entries(deltas);
        let entries_before = delta_entries(before);
        let position = deltas.len() - 1;
        assert(is_slot_name(deltas[position].slot_name@));
        assert forall|i: int| 0 <= i < entries.len() implies is_slot_name(
            (#[trigger] entries[i]).slot_name,
        ) && entries[i].key.is_canonical() && entries[i].value.is_canonical() by {
            if i < entries_before.len() {
                assert(entries[i] == entries_before[i]);
            } else {
                let j = i - entries_before.len();
                assert(entries[i] == entry_views(last.slot_name@, last.entries@)[j]);
                assert(deltas[position].entries@[j].0.is_canonical());
            }
        }
    }
}

proof fn lemma_delta_assets_are_valid(
    balances: Seq<u64>,
    delta: VaultDelta,
    fungible: Seq<PendingAssetInsert>,
)
    requires
        is_vault_delta(delta),
        pending_fungible(balances, delta.fungible@) == Ok::<
            Seq<PendingAssetInsert>,
            DatabaseError,
        >(fungible),
    ensures
        are_valid_assets(
            fungible + delta.non_fungible@.map_values(
                |change: (Asset, bool)| pending_non_fungible(change),
            ),
        ),
{
    let pending = fungible + delta.non_fungible@.map_values(
        |change: (Asset, bool)| pending_non_fungible(change),
    );
    lemma_collect_values(change_results(balances, delta.fungible@));
    assert forall|i: int| 0 <= i < pending.len() implies (
    #[trigger] pending[i]).vault_key.is_canonical() && (pending[i].asset matches Some(asset) ==> {
        &&& is_asset(asset)
        &&& asset.key == pending[i].vault_key
        &&& asset.value != Word::empty()
    }) by {
        if i < fungible.len() {
            assert(pending[i] == fungible[i]);
            assert(change_results(balances, delta.fungible@)[i] == Ok::<
                PendingAssetInsert,
                DatabaseError,
            >(fungible[i]));
            assert(is_vault_key(delta.fungible@[i].0));
        } else {
            let change = delta.non_fungible@[i - fungible.len()];
            assert(pending[i] == pending_non_fungible(change));
            assert(is_asset(change.0));
        }
    }
}

/// A change of a stored account leaves it stored with the changed state: the roots that the delta
/// computes from the parts of the state that it touches are the roots of all entries and assets that
/// are then stored, and the tables stay valid.
#[verifier::spinoff_prover]
#[verifier::rlimit(40)]
pub proof fn lemma_changed_account_is_stored(
    tables: AccountTables,
    update: BlockAccountUpdate,
    delta: AccountDelta,
    reads: AccountReads,
    block_num: BlockNumber,
    vault_root: Result<Word, DatabaseError>,
    writes: AccountWrites,
    after: AccountTables,
    state: PartialStateView,
)
    requires
        is_account_update(update),
        update.details == AccountUpdateDetails::Delta(delta),
        is_written_with_root(update, reads, block_num, vault_root, Ok(writes@)),
        are_reads_of(reads, tables, update),
        are_written(tables, writes, after),
        are_account_tables(tables),
        is_stored(state, tables, update.account_id),
        state.code_commitment.is_canonical(),
        is_delta_of(delta, state.storage_header),
    ensures
        are_account_tables(after),
        ({
            let id = account_id_bytes(update.account_id);
            let changed = PartialStateView {
                nonce: nonce_after(state.nonce, delta.nonce_delta)->0,
                code_commitment: state.code_commitment,
                storage_header: slots_after(
                    state.storage_header,
                    delta.storage,
                    stored_maps(tables.storage@, id),
                ),
                vault_root: vault_root->Ok_0,
            };
            &&& nonce_after(state.nonce, delta.nonce_delta) is Some
            &&& is_stored(changed, after, update.account_id)
            &&& stored_state(prepared_update(update, reads, vault_root)->Ok_0.state) == Some(
                changed,
            )
            &&& contents_after_delta(stored_vault(tables.assets@, id), delta.vault) == Some(
                stored_vault(after.assets@, id),
            )
            &&& forall|slot_name: Seq<char>| #[trigger]
                slot_map(stored_maps(after.storage@, id), slot_name) == map_with_entries(
                    slot_map(stored_maps(tables.storage@, id), slot_name),
                    slot_name,
                    delta_entries(delta.storage.maps@),
                )
        }),
{
    let id = account_id_bytes(update.account_id);
    let prepared = prepared_update(update, reads, vault_root)->Ok_0;
    let created_at_block = creation_block(reads.created_at_block, block_num)->Ok_0;
    let row = latest_account_row(tables.accounts@, id)->0;
    let stored = stored_maps(tables.storage@, id);
    let vault = stored_vault(tables.assets@, id);

    // What the update read.
    lemma_word_is_read(state.code_commitment);
    lemma_raw_sql_round_trip(block_num, state.nonce);
    let headers = headers_of_row(update.account_id, reads.headers)->Ok_0;
    assert(headers_of_row(update.account_id, reads.headers) is Ok);
    assert(headers.storage_header == state.storage_header);
    assert(headers.nonce == state.nonce);
    let names = changed_slots(delta.storage.maps@);
    let maps = changed_maps(delta.storage, reads.map_entries@)->Ok_0;
    lemma_slot_rows(tables.storage@, id, names);
    lemma_entries_of_columns(reads.map_entries@, slot_rows(tables.storage@, id, names));
    let fungible_changes = delta.vault.fungible@;
    let faucet_ids = faucets_of_changes(fungible_changes);
    let found = balance_rows(tables.assets@, id, faucet_ids);
    lemma_latest_assets(tables.assets@, id);
    lemma_assets_of_columns(reads.assets@, latest_rows(tables.assets@, id));
    lemma_balance_rows(tables.assets@, id, faucet_ids);
    lemma_assets_of_columns(reads.balances@, found);
    let balances = balances_of_rows(faucet_ids, reads.balances@)->Ok_0;
    assert forall|i: int| 0 <= i < fungible_changes.len() implies vault_amount(
        vault,
        (#[trigger] fungible_changes[i]).0,
    ) == balances[i] by {
        assert forall|k: int| 0 <= k < fungible_changes.len() implies {
            let key = (#[trigger] fungible_changes[k]).0;
            is_vault_key(key) && is_fungible_faucet(faucet_of_key(key))
        } by {}
        lemma_balances_are_amounts(tables.assets@, id, fungible_changes, i);
        assert(faucet_ids[i] == faucet_of_key(fungible_changes[i].0));
    }

    // What the update wrote.
    let fungible = pending_fungible(balances, fungible_changes)->Ok_0;
    lemma_delta_entries_are_valid(delta.storage.maps@);
    lemma_delta_assets_are_valid(balances, delta.vault, fungible);
    lemma_written_rows(update, block_num, created_at_block, prepared, writes);
    assert(writes.account@ == writes@.account);
    lemma_upsert_keeps_history(tables.accounts@, writes.account);
    lemma_latest_account_after_upsert(tables.accounts@, writes.account);
    assert forall|slot_name: Seq<char>| #[trigger]
        slot_map(stored_maps(after.storage@, id), slot_name) == map_with_entries(
            slot_map(stored, slot_name),
            slot_name,
            delta_entries(delta.storage.maps@),
        ) by {
        lemma_written_entries_are_read(tables.storage@, writes.storage@, id, slot_name);
    }
    lemma_written_entries_are_read(tables.storage@, writes.storage@, id, Seq::empty());
    lemma_written_assets_are_read(tables.assets@, writes.assets@, id);
    lemma_vault_root_matches_assets(
        tables.assets@,
        writes.assets@,
        id,
        delta.vault,
        balances,
        fungible,
    );

    // The slots of the header.
    let slots = state.storage_header;
    let changed = slots_after(slots, delta.storage, stored);
    assert forall|i: int| 0 <= i < slots.len() implies slot_after(
        #[trigger] slots[i],
        delta.storage,
        maps,
    ) == slot_after(slots[i], delta.storage, stored) by {
        if names.contains(slots[i].name) {
            lemma_changed_slot_is_read(tables.storage@, id, names, slots[i].name);
            lemma_map_update_of_slot(delta.storage.maps@, maps, stored, slots[i].name);
        } else {
            lemma_unchanged_slot(delta.storage.maps@, maps, slots[i].name);
            lemma_unchanged_slot(delta.storage.maps@, stored, slots[i].name);
        }
    }
    assert(slots_after(slots, delta.storage, maps) =~= changed);
    assert forall|i: int| 0 <= i < changed.len() && (
    #[trigger] changed[i]).slot_type is MapSlot implies changed[i].value == storage_map_root_of(
        slot_map(stored_maps(after.storage@, id), changed[i].name),
    ) by {
        assert(slots[i].slot_type is MapSlot);
        lemma_storage_header_matches_entries(
            tables.storage@,
            writes.storage@,
            id,
            delta.storage,
            stored,
            slots[i],
        );
    }
}

proof fn lemma_balance_rows(
    rows: Seq<AccountAssetRowInsert>,
    account_id: Seq<u8>,
    faucet_ids: Seq<AccountId>,
)
    requires
        is_asset_table(rows),
    ensures
        forall|i: int|
            0 <= i < balance_rows(rows, account_id, faucet_ids).len() ==> holds_asset(
                #[trigger] balance_rows(rows, account_id, faucet_ids)[i],
            ),
{
    let latest = latest_rows(rows, account_id);
    let found = balance_rows(rows, account_id, faucet_ids);
    lemma_latest_assets(rows, account_id);
    lemma_filtered_rows(
        latest,
        |row: AccountAssetRowInsert| is_balance_key(row.vault_key@, faucet_ids),
    );
    assert forall|i: int| 0 <= i < found.len() implies holds_asset(#[trigger] found[i]) by {
        assert(found.contains(found[i]));
        assert(latest.contains(found[i]));
        let j = choose|j: int| 0 <= j < latest.len() && latest[j] == found[i];
        assert(holds_asset(latest[j]));
    }
}

proof fn lemma_map_update_of_slot(
    deltas: Seq<MapDelta>,
    maps: vstd::map::Map<Seq<char>, vstd::map::Map<Word, Word>>,
    others: vstd::map::Map<Seq<char>, vstd::map::Map<Word, Word>>,
    slot_name: Seq<char>,
)
    requires
        slot_map(maps, slot_name) == slot_map(others, slot_name),
    ensures
        map_update(deltas, maps, slot_name) == map_update(deltas, others, slot_name),
    decreases deltas.len(),
{
    if deltas.len() > 0 {
        lemma_map_update_of_slot(deltas.drop_last(), maps, others, slot_name);
    }
}

// OTHER ACCOUNTS
// ================================================================================================

/// An update of an account leaves every other account stored as it was.
pub proof fn lemma_other_account_stays_stored(
    tables: AccountTables,
    writes: AccountWrites,
    after: AccountTables,
    account_id: AccountId,
    other: AccountId,
    state: PartialStateView,
)
    requires
        are_account_tables(tables),
        are_written(tables, writes, after),
        writes.account.account_id@ == account_id_bytes(account_id),
        are_latest_entries(writes.storage@, account_id_bytes(account_id)),
        are_latest_assets(writes.assets@, account_id_bytes(account_id)),
        is_valid_account_id(account_id),
        is_valid_account_id(other),
        other != account_id,
        is_stored(state, tables, other),
    ensures
        is_stored(state, after, other),
{
    let id = account_id_bytes(account_id);
    let other_id = account_id_bytes(other);
    assert(other_id != id) by {
        lemma_account_id_round_trip(account_id, Seq::empty());
        lemma_account_id_round_trip(other, Seq::empty());
        assert(id + Seq::empty() =~= id);
        assert(other_id + Seq::empty() =~= other_id);
    }
    lemma_latest_account_is_kept(tables.accounts@, writes.account, other_id);
    let header = state.storage_header;
    assert forall|i: int| 0 <= i < header.len() && (
    #[trigger] header[i]).slot_type is MapSlot implies header[i].value == storage_map_root_of(
        slot_map(stored_maps(after.storage@, other_id), header[i].name),
    ) by {
        lemma_other_accounts_are_kept(
            tables.storage@,
            writes.storage@,
            tables.assets@,
            writes.assets@,
            id,
            other_id,
            header[i].name,
        );
    }
    lemma_other_accounts_are_kept(
        tables.storage@,
        writes.storage@,
        tables.assets@,
        writes.assets@,
        id,
        other_id,
        Seq::empty(),
    );
}

// READING
// ================================================================================================

/// The whole state of a stored account is read back from its latest rows: the nonce and the slots of
/// its state, each map with the entries that are stored of it, and the assets of its vault.
pub proof fn lemma_stored_account_is_read(
    tables: AccountTables,
    account_id: AccountId,
    state: PartialStateView,
    row: FullAccountRow,
    header: Option<Vec<u8>>,
    map_entries: Seq<MapEntryRow>,
    assets: Seq<VaultAssetRow>,
)
    requires
        are_account_tables(tables),
        is_latest_state(state, tables, account_id),
        ({
            let id = account_id_bytes(account_id);
            let latest = latest_account_row(tables.accounts@, id)->0;
            &&& row.nonce == latest.nonce
            &&& code_commitment_of_bytes(row.code@) is Some
            &&& column(header) == column(latest.storage_header)
            &&& are_entry_columns(map_entries, latest_rows(tables.storage@, id))
            &&& are_asset_columns(assets, latest_rows(tables.assets@, id))
        }),
    ensures
        ({
            let id = account_id_bytes(account_id);
            let found = row_assets(latest_rows(tables.assets@, id));
            &&& full_state_of_rows(account_id, Some(row), header, map_entries, assets) == Ok::<
                FullStateView,
                DatabaseError,
            >(
                FullStateView {
                    nonce: reduced(state.nonce),
                    code_commitment: code_commitment_of_bytes(row.code@)->0,
                    code: row.code@,
                    slots: state.storage_header.map_values(
                        |slot: SlotHeaderView|
                            slot_of_header(slot, stored_maps(tables.storage@, id)),
                    ),
                    assets: found,
                },
            )
            &&& are_distinct_assets(found)
            &&& pairs_by_key(asset_pairs(found)) == stored_vault(tables.assets@, id)
        }),
{
    let id = account_id_bytes(account_id);
    let latest = latest_rows(tables.storage@, id);
    lemma_raw_sql_round_trip(BlockNumber(0), state.nonce);
    lemma_latest_rows(tables.storage@, id);
    assert forall|i: int| 0 <= i < latest.len() implies holds_entry(#[trigger] latest[i]) by {
        assert(latest.contains(latest[i]));
        let j = choose|j: int| 0 <= j < tables.storage@.len() && tables.storage@[j] == latest[i];
        assert(holds_entry(tables.storage@[j]));
    }
    lemma_entries_of_columns(map_entries, latest);
    lemma_latest_assets(tables.assets@, id);
    lemma_assets_of_columns(assets, latest_rows(tables.assets@, id));
}

} // verus!
