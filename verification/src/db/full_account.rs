//! The whole state of an account, put together from the tables that hold its parts.

use vstd::prelude::*;

use crate::account_code::{code_commitment, code_commitment_of_bytes};
use crate::account_id::AccountId;
use crate::db::accounts::{AccountSummary, AccountSummaryRaw};
use crate::db::conv::raw_sql_to_nonce;
use crate::db::delta::{
    are_slot_entries, assets_of_rows, copy_slot_entries, group_storage_map_entries, maps_of_rows,
    select_latest_vault_assets, slot_map, slot_pairs, MapEntryRow, SlotEntries, VaultAssetRow,
};
use crate::db::entries::pairs_by_key;
use crate::db::updates::{FullAccountState, StorageSlot, StorageSlotContent};
use crate::errors::{DataCorruption, DatabaseError};
use crate::protocol::{
    are_map_entries, are_vault_assets, build_vault, reduce, reduced, storage_header_from_bytes,
    storage_header_of_bytes,
};
use crate::state::account::{AccountStorageHeader, Asset, SlotHeaderView, StorageSlotType};
use crate::word::Word;

verus! {

/// The latest row of an account joined with its code, which is encoded.
#[derive(Clone, Debug, PartialEq, Eq)]
pub struct FullAccountRow {
    pub nonce: Option<i64>,
    pub code: Vec<u8>,
}

/// What the full state of an account holds.
#[verifier::ext_equal]
pub struct FullStateView {
    pub nonce: u64,
    pub code_commitment: Word,
    pub code: Seq<u8>,
    pub slots: Seq<StorageSlotView>,
    pub assets: Seq<Asset>,
}

/// What a storage slot of an account holds.
pub enum StorageSlotView {
    SingleValue(Seq<char>, Word),
    MapEntries(Seq<char>, vstd::map::Map<Word, Word>),
}

/// What a storage slot holds.
pub open spec fn slot_view(slot: StorageSlot) -> StorageSlotView {
    match slot.content {
        StorageSlotContent::SingleValue(value) => StorageSlotView::SingleValue(slot.name@, value),
        StorageSlotContent::MapEntries(entries) => StorageSlotView::MapEntries(
            slot.name@,
            pairs_by_key(entries@),
        ),
    }
}

/// What the full state of an account holds.
pub open spec fn full_state_view(account: FullAccountState) -> FullStateView {
    FullStateView {
        nonce: account.nonce,
        code_commitment: account.code_commitment,
        code: account.code@,
        slots: account.slots@.map_values(|slot: StorageSlot| slot_view(slot)),
        assets: account.assets@,
    }
}

// STORAGE
// ================================================================================================

/// The slot that a header stands for: the value of a value slot, and the entries of a map.
pub open spec fn slot_of_header(
    header: SlotHeaderView,
    maps: vstd::map::Map<Seq<char>, vstd::map::Map<Word, Word>>,
) -> StorageSlotView {
    match header.slot_type {
        StorageSlotType::ValueSlot => StorageSlotView::SingleValue(header.name, header.value),
        StorageSlotType::MapSlot => StorageSlotView::MapEntries(
            header.name,
            slot_map(maps, header.name),
        ),
    }
}

/// The slots of a stored storage header. An account without a header has no slots.
pub open spec fn storage_header_column(bytes: Option<Vec<u8>>) -> Result<
    Seq<SlotHeaderView>,
    DatabaseError,
> {
    match bytes {
        None => Ok(Seq::empty()),
        Some(bytes) => match storage_header_of_bytes(bytes@) {
            None => Err(DatabaseError::DeserializationError),
            Some(slots) => Ok(slots),
        },
    }
}

/// The storage that a header and rows of map entries stand for.
pub open spec fn storage_of_rows(header: Option<Vec<u8>>, rows: Seq<MapEntryRow>) -> Result<
    Seq<StorageSlotView>,
    DatabaseError,
> {
    match storage_header_column(header) {
        Err(error) => Err(error),
        Ok(slots) => match maps_of_rows(rows) {
            Err(error) => Err(error),
            Ok(maps) => Ok(slots.map_values(|slot: SlotHeaderView| slot_of_header(slot, maps))),
        },
    }
}

/// Takes the latest storage header and the latest rows of map entries as the header with the entries
/// of each map.
pub fn select_latest_account_storage_components(
    header: &Option<Vec<u8>>,
    rows: &Vec<MapEntryRow>,
) -> (r: Result<(AccountStorageHeader, Vec<SlotEntries>), DatabaseError>)
    ensures
        match storage_header_column(*header) {
            Err(error) => r == Err::<(AccountStorageHeader, Vec<SlotEntries>), DatabaseError>(
                error,
            ),
            Ok(slots) => match maps_of_rows(rows@) {
                Err(error) => r == Err::<(AccountStorageHeader, Vec<SlotEntries>), DatabaseError>(
                    error,
                ),
                Ok(maps) => r matches Ok((found, entries)) && found@ == slots && are_slot_entries(
                    entries@,
                ) && pairs_by_key(slot_pairs(entries@)) == maps,
            },
        },
{
    let header = match header {
        Some(bytes) => match storage_header_from_bytes(bytes) {
            Some(header) => header,
            None => return Err(DatabaseError::DeserializationError),
        },
        None => {
            let header = AccountStorageHeader { slots: Vec::new() };
            assert(header@ =~= Seq::empty());
            header
        },
    };
    let entries = group_storage_map_entries(rows)?;
    Ok((header, entries))
}

/// Takes the latest storage header and the latest rows of map entries as the storage of an account.
pub fn select_latest_account_storage(header: &Option<Vec<u8>>, rows: &Vec<MapEntryRow>) -> (r:
    Result<Vec<StorageSlot>, DatabaseError>)
    ensures
        match storage_of_rows(*header, rows@) {
            Err(error) => r == Err::<Vec<StorageSlot>, DatabaseError>(error),
            Ok(slots) => r matches Ok(found) && found@.map_values(
                |slot: StorageSlot| slot_view(slot),
            ) == slots && forall|i: int|
                0 <= i < found@.len() ==> ((
                #[trigger] found@[i]).content matches StorageSlotContent::MapEntries(entries)
                    ==> are_map_entries(entries@)),
        },
{
    let (header, maps) = select_latest_account_storage_components(header, rows)?;
    let ghost contents = pairs_by_key(slot_pairs(maps@));
    let ghost expected = header@.map_values(|slot: SlotHeaderView| slot_of_header(slot, contents));
    let mut slots: Vec<StorageSlot> = Vec::new();
    let mut i: usize = 0;
    while i < header.slots.len()
        invariant
            i <= header.slots@.len(),
            are_slot_entries(maps@),
            contents == pairs_by_key(slot_pairs(maps@)),
            expected == header@.map_values(|slot: SlotHeaderView| slot_of_header(slot, contents)),
            slots@.len() == i,
            forall|k: int| 0 <= k < i ==> slot_view(#[trigger] slots@[k]) == expected[k],
            forall|k: int|
                0 <= k < i ==> ((
                #[trigger] slots@[k]).content matches StorageSlotContent::MapEntries(entries)
                    ==> are_map_entries(entries@)),
        decreases header.slots@.len() - i,
    {
        let slot = &header.slots[i];
        assert(header@[i as int] == slot@);
        let content = match slot.slot_type {
            StorageSlotType::ValueSlot => StorageSlotContent::SingleValue(slot.value),
            StorageSlotType::MapSlot => StorageSlotContent::MapEntries(
                copy_slot_entries(&maps, &slot.name),
            ),
        };
        let rebuilt = StorageSlot { name: slot.name.clone(), content };
        assert(slot_view(rebuilt) == expected[i as int]);
        slots.push(rebuilt);
        i = i + 1;
    }
    assert(slots@.map_values(|slot: StorageSlot| slot_view(slot)) =~= expected);
    Ok(slots)
}

// FULL ACCOUNTS
// ================================================================================================

/// The full state that rows stand for, apart from whether its assets make up a vault.
pub open spec fn full_state_of_rows(
    account_id: AccountId,
    row: Option<FullAccountRow>,
    header: Option<Vec<u8>>,
    map_entries: Seq<MapEntryRow>,
    assets: Seq<VaultAssetRow>,
) -> Result<FullStateView, DatabaseError> {
    match row {
        None => Err(DatabaseError::AccountNotFoundInDb(account_id)),
        Some(row) => match row.nonce {
            None => Err(DatabaseError::DataCorrupted(DataCorruption::MissingNonce(account_id))),
            Some(nonce) => match code_commitment_of_bytes(row.code@) {
                None => Err(DatabaseError::DeserializationError),
                Some(code_commitment) => match storage_of_rows(header, map_entries) {
                    Err(error) => Err(error),
                    Ok(slots) => match assets_of_rows(assets) {
                        Err(error) => Err(error),
                        Ok(assets) => Ok(
                            FullStateView {
                                nonce: reduced(nonce as u64),
                                code_commitment,
                                code: row.code@,
                                slots,
                                assets,
                            },
                        ),
                    },
                },
            },
        },
    }
}

/// Whether a result is the account with the given state: a failure if the assets do not make up a
/// vault, or if the account has no nonce yet.
pub open spec fn is_account_of_state(
    state: FullStateView,
    result: Result<FullAccountState, DatabaseError>,
) -> bool {
    if !are_vault_assets(state.assets) {
        result == Err::<FullAccountState, DatabaseError>(DatabaseError::AssetVaultError)
    } else if state.nonce == 0 {
        result == Err::<FullAccountState, DatabaseError>(DatabaseError::AccountError)
    } else {
        result matches Ok(account) && full_state_view(account) == state
    }
}

/// Takes the latest rows of an account as its whole state.
pub fn select_full_account(
    account_id: AccountId,
    row: Option<FullAccountRow>,
    header: &Option<Vec<u8>>,
    map_entries: &Vec<MapEntryRow>,
    assets: &Vec<VaultAssetRow>,
) -> (r: Result<FullAccountState, DatabaseError>)
    ensures
        match full_state_of_rows(account_id, row, *header, map_entries@, assets@) {
            Err(error) => r == Err::<FullAccountState, DatabaseError>(error),
            Ok(state) => is_account_of_state(state, r),
        },
{
    let row = match row {
        Some(row) => row,
        None => return Err(DatabaseError::AccountNotFoundInDb(account_id)),
    };
    let nonce: u64 = match row.nonce {
        Some(raw) => reduce(raw_sql_to_nonce(raw)),
        None => return Err(DatabaseError::DataCorrupted(DataCorruption::MissingNonce(account_id))),
    };
    let code_commitment = match code_commitment(&row.code) {
        Some(commitment) => commitment,
        None => return Err(DatabaseError::DeserializationError),
    };
    let slots = select_latest_account_storage(header, map_entries)?;
    let assets = select_latest_vault_assets(assets)?;
    if build_vault(&assets).is_none() {
        return Err(DatabaseError::AssetVaultError);
    }
    if nonce == 0 {
        return Err(DatabaseError::AccountError);
    }
    let account = FullAccountState {
        nonce,
        code_commitment,
        code: row.code,
        slots,
        assets,
    };
    Ok(account)
}

/// An account: its summary and, if its state is public, the state.
#[derive(Clone, Debug, PartialEq, Eq)]
pub struct AccountInfo {
    pub summary: AccountSummary,
    pub details: Option<FullAccountState>,
}

/// Takes the latest row of an account, and the account's whole state as it was read, as information
/// on the account. The state is part of it if it is public, and must then have been read.
pub fn select_account(
    account_id: AccountId,
    row: Option<AccountSummaryRaw>,
    full_account: Result<FullAccountState, DatabaseError>,
) -> (r: Result<AccountInfo, DatabaseError>)
    ensures
        r == (match row {
            None => Err::<AccountInfo, DatabaseError>(
                DatabaseError::AccountNotFoundInDb(account_id),
            ),
            Some(raw) => match raw.decoded() {
                Err(error) => Err(error),
                Ok(summary) => if account_id.has_public_state() {
                    match full_account {
                        Err(error) => Err(error),
                        Ok(account) => Ok(AccountInfo { summary, details: Some(account) }),
                    }
                } else {
                    Ok(AccountInfo { summary, details: None })
                },
            },
        }),
{
    match row {
        None => Err(DatabaseError::AccountNotFoundInDb(account_id)),
        Some(raw) => {
            let summary = raw.try_into_summary()?;
            let details = if account_id.has_public_state() {
                Some(full_account?)
            } else {
                None
            };
            Ok(AccountInfo { summary, details })
        },
    }
}

/// Takes the latest row of a network account, if there is one, and the account's whole state as it
/// was read, as information on the account. The state is left out if it could not be read.
pub fn select_network_account_by_id(
    row: Option<AccountSummaryRaw>,
    full_account: Result<FullAccountState, DatabaseError>,
) -> (r: Result<Option<AccountInfo>, DatabaseError>)
    ensures
        r == (match row {
            None => Ok::<Option<AccountInfo>, DatabaseError>(None),
            Some(raw) => match raw.decoded() {
                Err(error) => Err(error),
                Ok(summary) => Ok(
                    Some(
                        AccountInfo {
                            summary,
                            details: match full_account {
                                Err(_) => None,
                                Ok(account) => Some(account),
                            },
                        },
                    ),
                ),
            },
        }),
{
    match row {
        None => Ok(None),
        Some(raw) => {
            let summary = raw.try_into_summary()?;
            let details = match full_account {
                Ok(account) => Some(account),
                Err(_) => None,
            };
            Ok(Some(AccountInfo { summary, details }))
        },
    }
}

} // verus!
