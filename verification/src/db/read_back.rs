//! What was stored of an account is read back: the state of a new account, and that of an account
//! after a delta.

use vstd::prelude::*;

use crate::account_code::code_commitment_of_bytes;
use crate::account_id::AccountId;
use crate::block_number::BlockNumber;
use crate::db::consistency::{
    are_account_tables, is_delta_of, is_stored, lemma_changed_account_is_stored,
    lemma_new_account_is_stored, lemma_stored_account_is_read,
};
use crate::db::delta::{contents_after_delta, slots_after, MapEntryRow, VaultAssetRow};
use crate::db::entries::pairs_by_key;
use crate::db::full_account::{
    full_state_of_rows, slot_of_header, slot_view, FullAccountRow, FullStateView, StorageSlotView,
};
use crate::db::stored::{latest_rows, stored_maps};
use crate::db::stored_assets::stored_vault;
use crate::db::tables::{
    are_asset_columns, are_entry_columns, are_reads_of, are_written, latest_account_row,
    AccountTables,
};
use crate::db::updates::{
    is_account_update, nonce_after, slot_header, AccountDelta, AccountReads, AccountUpdateDetails,
    BlockAccountUpdate, FullAccountState, PartialStateView, StorageSlot,
};
use crate::db::upsert::{
    column, is_written_with_root, lemma_stored_state_matches_commitment, AccountWrites,
};
use crate::errors::DatabaseError;
use crate::protocol::{
    account_commitment_of, account_id_bytes, asset_pairs, storage_commitment_of,
    storage_map_root_of, vault_root_of,
};
use crate::state::account::{AccountHeader, SlotHeaderView, StorageSlotType};
use crate::word::{Word, FIELD_ORDER};

verus! {

/// The header of a slot that was read back.
pub open spec fn header_of_slot(slot: StorageSlotView) -> SlotHeaderView {
    match slot {
        StorageSlotView::SingleValue(name, value) => SlotHeaderView {
            name,
            slot_type: StorageSlotType::ValueSlot,
            value,
        },
        StorageSlotView::MapEntries(name, entries) => SlotHeaderView {
            name,
            slot_type: StorageSlotType::MapSlot,
            value: storage_map_root_of(entries),
        },
    }
}

/// The header of an account whose whole state was read back: the roots are those of the entries and
/// assets of the state.
pub open spec fn header_of_state(account_id: AccountId, state: FullStateView) -> AccountHeader {
    AccountHeader {
        id: account_id,
        nonce: state.nonce,
        vault_root: vault_root_of(pairs_by_key(asset_pairs(state.assets))),
        storage_commitment: storage_commitment_of(
            state.slots.map_values(|slot: StorageSlotView| header_of_slot(slot)),
        ),
        code_commitment: state.code_commitment,
    }
}

/// Whether columns are those of the latest rows of an account, joined with the code that the account
/// has.
pub open spec fn are_latest_columns(
    tables: AccountTables,
    account_id: AccountId,
    code_commitment: Word,
    row: FullAccountRow,
    header: Option<Vec<u8>>,
    map_entries: Seq<MapEntryRow>,
    assets: Seq<VaultAssetRow>,
) -> bool {
    let id = account_id_bytes(account_id);
    let latest = latest_account_row(tables.accounts@, id)->0;
    &&& row.nonce == latest.nonce
    &&& code_commitment_of_bytes(row.code@) == Some(code_commitment)
    &&& column(header) == column(latest.storage_header)
    &&& are_entry_columns(map_entries, latest_rows(tables.storage@, id))
    &&& are_asset_columns(assets, latest_rows(tables.assets@, id))
}

/// The whole state of a stored account is read back with the header of the stored state: its nonce,
/// the commitment of its code, the commitment of its storage and the root of its vault.
pub proof fn lemma_stored_account_has_its_header(
    tables: AccountTables,
    account_id: AccountId,
    state: PartialStateView,
    row: FullAccountRow,
    header: Option<Vec<u8>>,
    map_entries: Seq<MapEntryRow>,
    assets: Seq<VaultAssetRow>,
)
    requires
        are_account_tables(tables),
        is_stored(state, tables, account_id),
        state.nonce < FIELD_ORDER,
        are_latest_columns(
            tables,
            account_id,
            state.code_commitment,
            row,
            header,
            map_entries,
            assets,
        ),
    ensures
        ({
            let id = account_id_bytes(account_id);
            &&& full_state_of_rows(account_id, Some(row), header, map_entries, assets) matches Ok(
                read,
            )
            &&& header_of_state(account_id, read) == state.header(account_id)
            &&& read.code == row.code@
            &&& read.slots == state.storage_header.map_values(
                |slot: SlotHeaderView| slot_of_header(slot, stored_maps(tables.storage@, id)),
            )
            &&& pairs_by_key(asset_pairs(read.assets)) == stored_vault(tables.assets@, id)
        }),
{
    lemma_stored_account_is_read(tables, account_id, state, row, header, map_entries, assets);
    let id = account_id_bytes(account_id);
    let maps = stored_maps(tables.storage@, id);
    let read = full_state_of_rows(account_id, Some(row), header, map_entries, assets)->Ok_0;
    let headers = read.slots.map_values(|slot: StorageSlotView| header_of_slot(slot));
    assert forall|i: int| 0 <= i < headers.len() implies #[trigger] headers[i]
        == state.storage_header[i] by {
        assert(read.slots[i] == slot_of_header(state.storage_header[i], maps));
    }
    assert(headers =~= state.storage_header);
}

/// A new account that was stored is read back as the block gave it: with its nonce, its code, its
/// slots and its assets, and so with the commitment that the block gives it.
pub proof fn lemma_new_account_is_read(
    tables: AccountTables,
    update: BlockAccountUpdate,
    account: FullAccountState,
    reads: AccountReads,
    block_num: BlockNumber,
    vault_root: Result<Word, DatabaseError>,
    writes: AccountWrites,
    after: AccountTables,
    row: FullAccountRow,
    header: Option<Vec<u8>>,
    map_entries: Seq<MapEntryRow>,
    assets: Seq<VaultAssetRow>,
)
    requires
        is_account_update(update),
        update.details == AccountUpdateDetails::FullState(account),
        account.nonce < FIELD_ORDER,
        is_written_with_root(update, reads, block_num, vault_root, Ok(writes@)),
        are_written(tables, writes, after),
        are_account_tables(tables),
        latest_rows(tables.storage@, account_id_bytes(update.account_id)).len() == 0,
        latest_rows(tables.assets@, account_id_bytes(update.account_id)).len() == 0,
        are_latest_columns(
            after,
            update.account_id,
            account.code_commitment,
            row,
            header,
            map_entries,
            assets,
        ),
    ensures
        ({
            let result = full_state_of_rows(
                update.account_id,
                Some(row),
                header,
                map_entries,
                assets,
            );
            &&& result matches Ok(read)
            &&& account_commitment_of(header_of_state(update.account_id, read))
                == update.final_state_commitment
            &&& read.nonce == account.nonce
            &&& read.code_commitment == account.code_commitment
            &&& read.slots == account.slots@.map_values(|slot: StorageSlot| slot_view(slot))
            &&& pairs_by_key(asset_pairs(read.assets)) == pairs_by_key(asset_pairs(account.assets@))
        }),
{
    lemma_new_account_is_stored(
        tables,
        update,
        account,
        reads,
        block_num,
        vault_root,
        writes,
        after,
    );
    let id = account_id_bytes(update.account_id);
    let state = PartialStateView {
        nonce: account.nonce,
        code_commitment: account.code_commitment,
        storage_header: account.slots@.map_values(|slot: StorageSlot| slot_header(slot)),
        vault_root: vault_root->Ok_0,
    };
    lemma_stored_state_matches_commitment(update, reads, vault_root);
    lemma_stored_account_has_its_header(
        after,
        update.account_id,
        state,
        row,
        header,
        map_entries,
        assets,
    );
    let maps = stored_maps(after.storage@, id);
    let slots = state.storage_header.map_values(|slot: SlotHeaderView| slot_of_header(slot, maps));
    let given = account.slots@.map_values(|slot: StorageSlot| slot_view(slot));
    assert forall|i: int| 0 <= i < slots.len() implies #[trigger] slots[i] == given[i] by {
        assert(state.storage_header[i] == slot_header(account.slots@[i]));
    }
    assert(slots =~= given);
}

/// A stored account that a delta changed is read back as the account after the delta: with the nonce,
/// the storage and the vault that the delta leads to, and with the code that it had, and so with the
/// commitment that the block gives it.
pub proof fn lemma_changed_account_is_read(
    tables: AccountTables,
    update: BlockAccountUpdate,
    delta: AccountDelta,
    reads: AccountReads,
    block_num: BlockNumber,
    vault_root: Result<Word, DatabaseError>,
    writes: AccountWrites,
    after: AccountTables,
    state: PartialStateView,
    row: FullAccountRow,
    header: Option<Vec<u8>>,
    map_entries: Seq<MapEntryRow>,
    assets: Seq<VaultAssetRow>,
)
    requires
        is_account_update(update),
        update.details == AccountUpdateDetails::Delta(delta),
        is_written_with_root(update, reads, block_num, vault_root, Ok(writes@)),
        are_reads_of(reads, tables, update),
        are_written(tables, writes, after),
        are_account_tables(tables),
        is_stored(state, tables, update.account_id),
        state.code_commitment.is_canonical(),
        is_delta_of(delta, state.storage_header),
        are_latest_columns(
            after,
            update.account_id,
            state.code_commitment,
            row,
            header,
            map_entries,
            assets,
        ),
    ensures
        ({
            let id = account_id_bytes(update.account_id);
            let slots = slots_after(
                state.storage_header,
                delta.storage,
                stored_maps(tables.storage@, id),
            );
            let result = full_state_of_rows(
                update.account_id,
                Some(row),
                header,
                map_entries,
                assets,
            );
            &&& result matches Ok(read)
            &&& account_commitment_of(header_of_state(update.account_id, read))
                == update.final_state_commitment
            &&& Some(read.nonce) == nonce_after(state.nonce, delta.nonce_delta)
            &&& read.code_commitment == state.code_commitment
            &&& header_of_state(update.account_id, read).storage_commitment
                == storage_commitment_of(slots)
            &&& contents_after_delta(stored_vault(tables.assets@, id), delta.vault) == Some(
                pairs_by_key(asset_pairs(read.assets)),
            )
        }),
{
    lemma_changed_account_is_stored(
        tables,
        update,
        delta,
        reads,
        block_num,
        vault_root,
        writes,
        after,
        state,
    );
    let id = account_id_bytes(update.account_id);
    let changed = PartialStateView {
        nonce: nonce_after(state.nonce, delta.nonce_delta)->0,
        code_commitment: state.code_commitment,
        storage_header: slots_after(
            state.storage_header,
            delta.storage,
            stored_maps(tables.storage@, id),
        ),
        vault_root: vault_root->Ok_0,
    };
    lemma_stored_state_matches_commitment(update, reads, vault_root);
    lemma_stored_account_has_its_header(
        after,
        update.account_id,
        changed,
        row,
        header,
        map_entries,
        assets,
    );
}

} // verus!
