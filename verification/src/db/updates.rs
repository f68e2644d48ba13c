//! Updates of accounts by a block: the state, the storage map entries and the assets that each of
//! them stores.

use vstd::prelude::*;

use crate::account_id::AccountId;
use crate::bytes::copy_bytes;
use crate::db::conv::{collect_results, lemma_collect_prefix_error, lemma_collect_step};
use crate::db::delta::{
    apply_storage_delta, assets_of_rows, balances_of_rows, faucet_id_of_key, fits_changes,
    fungible_vault_key, group_storage_map_entries, has_bounded_amounts, headers_of_row,
    is_canonical_delta, is_vault_delta, magnitude, maps_of_rows, select_latest_vault_assets,
    select_minimal_account_state_headers, select_vault_balances_by_faucet_ids, slot_pairs,
    slots_after, unsigned_abs, vault_root_after, vault_root_after_delta, AccountStateDeltaRow,
    MapDelta, MapEntryRow, MapEntryView, SlotEntries, StorageDelta, VaultAssetRow, VaultDelta,
};
use crate::db::entries::pairs_by_key;
use crate::errors::{DataCorruption, DatabaseError};
use crate::protocol::{
    account_commitment, account_commitment_of, are_distinct_assets, are_map_entries,
    are_vault_assets, asset_pairs, faucet_of_key, fits_map, has_canonical_values,
    is_fungible_faucet, is_storage_header, is_valid_account_id, map_root, reduce, reduced,
    storage_commitment, storage_commitment_of, storage_map_root_of, vault_root_of,
    MAX_FUNGIBLE_AMOUNT,
};
use crate::state::account::{
    AccountHeader, AccountStorageHeader, Asset, SlotHeaderView, StorageSlotHeader, StorageSlotType,
};
use crate::word::Word;

verus! {

// ACCOUNT UPDATES
// ================================================================================================

/// What a storage slot holds.
#[derive(Clone, Debug, PartialEq, Eq)]
pub enum StorageSlotContent {
    /// A single value.
    SingleValue(Word),
    /// The entries of a map.
    MapEntries(Vec<(Word, Word)>),
}

/// A storage slot of an account.
#[derive(Clone, Debug, PartialEq, Eq)]
pub struct StorageSlot {
    pub name: String,
    pub content: StorageSlotContent,
}

/// The whole public state of an account.
#[derive(Clone, Debug, PartialEq, Eq)]
pub struct FullAccountState {
    pub nonce: u64,
    pub code_commitment: Word,
    /// The encoded code.
    pub code: Vec<u8>,
    pub slots: Vec<StorageSlot>,
    pub assets: Vec<Asset>,
}

/// The change of an existing account's public state.
#[derive(Clone, Debug, PartialEq, Eq)]
pub struct AccountDelta {
    pub storage: StorageDelta,
    pub vault: VaultDelta,
    pub nonce_delta: u64,
}

/// What a block says of the state of an account that it changes.
#[derive(Clone, Debug, PartialEq, Eq)]
pub enum AccountUpdateDetails {
    /// The state is not public.
    Private,
    /// The whole state of a new account.
    FullState(FullAccountState),
    /// The change of an existing account.
    Delta(AccountDelta),
}

/// A change of an account by a block.
#[derive(Clone, Debug, PartialEq, Eq)]
pub struct BlockAccountUpdate {
    pub account_id: AccountId,
    pub final_state_commitment: Word,
    pub details: AccountUpdateDetails,
}

/// Whether a full state is that of an account: canonical values, map entries with distinct keys, and
/// a vault of assets with distinct keys.
pub open spec fn is_full_state(account: FullAccountState) -> bool {
    &&& forall|i: int|
        0 <= i < account.slots@.len() ==> is_slot_content((#[trigger] account.slots@[i]).content)
    &&& are_distinct_assets(account.assets@)
}

/// Whether the content of a slot is a canonical value or map entries with distinct keys.
pub open spec fn is_slot_content(content: StorageSlotContent) -> bool {
    match content {
        StorageSlotContent::SingleValue(value) => value.is_canonical(),
        StorageSlotContent::MapEntries(entries) => are_map_entries(entries@),
    }
}

/// Whether an update is one that a block can hold.
pub open spec fn is_account_update(update: BlockAccountUpdate) -> bool {
    &&& is_valid_account_id(update.account_id)
    &&& match update.details {
        AccountUpdateDetails::Private => true,
        AccountUpdateDetails::FullState(account) => is_full_state(account),
        AccountUpdateDetails::Delta(delta) => is_canonical_delta(delta.storage) && is_vault_delta(
            delta.vault,
        ),
    }
}

/// Takes the change of an account as a block holds it as details of an update. Without a delta the
/// state is not public. A delta that holds code is the whole state of a new account: `account` is the
/// account that it stands for, unless it does not stand for one.
pub fn update_details(
    delta: Option<AccountDelta>,
    holds_code: bool,
    account: Option<FullAccountState>,
) -> (r: Result<AccountUpdateDetails, DatabaseError>)
    ensures
        r == (match delta {
            None => Ok::<AccountUpdateDetails, DatabaseError>(AccountUpdateDetails::Private),
            Some(delta) => if !holds_code {
                Ok(AccountUpdateDetails::Delta(delta))
            } else {
                match account {
                    Some(account) => Ok(AccountUpdateDetails::FullState(account)),
                    None => Err(DatabaseError::AccountError),
                }
            },
        }),
{
    match delta {
        None => Ok(AccountUpdateDetails::Private),
        Some(delta) => if !holds_code {
            Ok(AccountUpdateDetails::Delta(delta))
        } else {
            match account {
                Some(account) => Ok(AccountUpdateDetails::FullState(account)),
                None => Err(DatabaseError::AccountError),
            }
        },
    }
}

// PREPARED UPDATES
// ================================================================================================

/// The state that is stored in the row of a public account.
#[derive(Clone, Debug, PartialEq, Eq)]
pub struct PartialAccountState {
    pub nonce: u64,
    pub code_commitment: Word,
    pub storage_header: AccountStorageHeader,
    pub vault_root: Word,
}

/// What the state holds.
pub struct PartialStateView {
    pub nonce: u64,
    pub code_commitment: Word,
    pub storage_header: Seq<SlotHeaderView>,
    pub vault_root: Word,
}

impl View for PartialAccountState {
    type V = PartialStateView;

    open spec fn view(&self) -> PartialStateView {
        PartialStateView {
            nonce: self.nonce,
            code_commitment: self.code_commitment,
            storage_header: self.storage_header@,
            vault_root: self.vault_root,
        }
    }
}

impl PartialStateView {
    /// The header of the account with this state.
    pub open spec fn header(self, id: AccountId) -> AccountHeader {
        AccountHeader {
            id,
            nonce: self.nonce,
            vault_root: self.vault_root,
            storage_commitment: storage_commitment_of(self.storage_header),
            code_commitment: self.code_commitment,
        }
    }
}

/// The state to store for an account.
#[derive(Clone, Debug, PartialEq, Eq)]
pub enum AccountStateForInsert {
    /// The state is not public.
    Private,
    /// The state of a new account with its encoded code.
    FullAccount(PartialAccountState, Vec<u8>),
    /// The state of an existing account.
    PartialState(PartialAccountState),
}

/// What the state to store holds.
pub enum StateForInsertView {
    Private,
    FullAccount(PartialStateView, Seq<u8>),
    PartialState(PartialStateView),
}

impl View for AccountStateForInsert {
    type V = StateForInsertView;

    open spec fn view(&self) -> StateForInsertView {
        match self {
            AccountStateForInsert::Private => StateForInsertView::Private,
            AccountStateForInsert::FullAccount(state, code) => StateForInsertView::FullAccount(
                state@,
                code@,
            ),
            AccountStateForInsert::PartialState(state) => StateForInsertView::PartialState(state@),
        }
    }
}

/// The state that a row holds, if it is that of a public account.
pub open spec fn stored_state(state: StateForInsertView) -> Option<PartialStateView> {
    match state {
        StateForInsertView::Private => None,
        StateForInsertView::FullAccount(state, _) => Some(state),
        StateForInsertView::PartialState(state) => Some(state),
    }
}

/// Whether the values of the stored slots are canonical.
pub open spec fn has_canonical_state(state: StateForInsertView) -> bool {
    stored_state(state) matches Some(state) ==> has_canonical_values(state.storage_header)
}

/// An entry of a storage map to store.
#[derive(Clone, Debug, PartialEq, Eq)]
pub struct PendingStorageInsert {
    pub slot_name: String,
    pub key: Word,
    pub value: Word,
}

impl View for PendingStorageInsert {
    type V = MapEntryView;

    open spec fn view(&self) -> MapEntryView {
        MapEntryView { slot_name: self.slot_name@, key: self.key, value: self.value }
    }
}

/// An asset to store under its vault key, or `None` to store its removal.
#[derive(Clone, Copy, Debug, PartialEq, Eq)]
pub struct PendingAssetInsert {
    pub vault_key: Word,
    pub asset: Option<Asset>,
}

/// What an update stores.
#[derive(Clone, Debug, PartialEq, Eq)]
pub struct PreparedUpdate {
    pub state: AccountStateForInsert,
    pub storage: Vec<PendingStorageInsert>,
    pub assets: Vec<PendingAssetInsert>,
}

/// What an update stores.
#[verifier::ext_equal]
pub struct PreparedView {
    pub state: StateForInsertView,
    pub storage: Seq<MapEntryView>,
    pub assets: Seq<PendingAssetInsert>,
}

/// The views of entries to store.
pub open spec fn storage_views(storage: Seq<PendingStorageInsert>) -> Seq<MapEntryView> {
    storage.map_values(|pending: PendingStorageInsert| pending@)
}

impl View for PreparedUpdate {
    type V = PreparedView;

    open spec fn view(&self) -> PreparedView {
        PreparedView {
            state: self.state@,
            storage: storage_views(self.storage@),
            assets: self.assets@,
        }
    }
}

// FULL STATE
// ================================================================================================

/// The header of a slot: the value of a value slot, and the root of a map.
pub open spec fn slot_header(slot: StorageSlot) -> SlotHeaderView {
    match slot.content {
        StorageSlotContent::SingleValue(value) => SlotHeaderView {
            name: slot.name@,
            slot_type: StorageSlotType::ValueSlot,
            value,
        },
        StorageSlotContent::MapEntries(entries) => SlotHeaderView {
            name: slot.name@,
            slot_type: StorageSlotType::MapSlot,
            value: storage_map_root_of(pairs_by_key(entries@)),
        },
    }
}

/// Whether trees can hold all maps of the slots.
pub open spec fn fits_slots(slots: Seq<StorageSlot>) -> bool {
    forall|i: int|
        0 <= i < slots.len() ==> ((
        #[trigger] slots[i]).content matches StorageSlotContent::MapEntries(entries) ==> fits_map(
            pairs_by_key(entries@),
        ))
}

/// The entries of a slot's map, none for a value slot.
pub open spec fn slot_entries(slot: StorageSlot) -> Seq<MapEntryView> {
    match slot.content {
        StorageSlotContent::SingleValue(_) => Seq::empty(),
        StorageSlotContent::MapEntries(entries) => entry_views(slot.name@, entries@),
    }
}

/// Entries of the map of a slot.
pub open spec fn entry_views(slot_name: Seq<char>, entries: Seq<(Word, Word)>) -> Seq<
    MapEntryView,
> {
    entries.map_values(
        |entry: (Word, Word)| MapEntryView { slot_name, key: entry.0, value: entry.1 },
    )
}

/// The entries of all maps, slot by slot.
pub open spec fn all_slot_entries(slots: Seq<StorageSlot>) -> Seq<MapEntryView>
    decreases slots.len(),
{
    if slots.len() == 0 {
        Seq::empty()
    } else {
        all_slot_entries(slots.drop_last()) + slot_entries(slots.last())
    }
}

/// The assets of a new account as they are stored.
pub open spec fn new_assets(assets: Seq<Asset>) -> Seq<PendingAssetInsert> {
    assets.map_values(
        |asset: Asset| PendingAssetInsert { vault_key: asset.key, asset: Some(asset) },
    )
}

/// What the full state of an account stores, given the root of its vault. The state must hash to
/// the commitment of the block.
pub open spec fn full_update(
    update: BlockAccountUpdate,
    account: FullAccountState,
    vault_root: Result<Word, DatabaseError>,
) -> Result<PreparedView, DatabaseError> {
    let storage_header = account.slots@.map_values(|slot: StorageSlot| slot_header(slot));
    match vault_root {
        Err(error) => Err(error),
        Ok(vault_root) => {
            let state = PartialStateView {
                nonce: account.nonce,
                code_commitment: account.code_commitment,
                storage_header,
                vault_root,
            };
            let calculated = account_commitment_of(state.header(update.account_id));
            if !fits_slots(account.slots@) || !is_storage_header(storage_header) {
                Err(DatabaseError::DataCorrupted(DataCorruption::InvalidStorageHeader))
            } else if calculated != update.final_state_commitment {
                Err(
                    DatabaseError::AccountCommitmentsMismatch {
                        calculated,
                        expected: update.final_state_commitment,
                    },
                )
            } else {
                Ok(
                    PreparedView {
                        state: StateForInsertView::FullAccount(state, account.code@),
                        storage: all_slot_entries(account.slots@),
                        assets: new_assets(account.assets@),
                    },
                )
            }
        },
    }
}

/// The root of the vault of a full state, or a failure if its assets do not make up a vault.
pub open spec fn full_vault_root(account: FullAccountState) -> Result<Word, DatabaseError> {
    if are_vault_assets(account.assets@) {
        Ok(vault_root_of(pairs_by_key(asset_pairs(account.assets@))))
    } else {
        Err(DatabaseError::AssetVaultError)
    }
}

fn storage_header_of_slots(slots: &Vec<StorageSlot>) -> (r: Option<AccountStorageHeader>)
    requires
        forall|i: int| 0 <= i < slots@.len() ==> is_slot_content((#[trigger] slots@[i]).content),
    ensures
        r is Some <==> fits_slots(slots@),
        r matches Some(header) ==> header@ == slots@.map_values(
            |slot: StorageSlot| slot_header(slot),
        ) && has_canonical_values(header@),
{
    let mut headers: Vec<StorageSlotHeader> = Vec::new();
    let mut i: usize = 0;
    while i < slots.len()
        invariant
            i <= slots@.len(),
            headers@.len() == i,
            forall|k: int|
                0 <= k < slots@.len() ==> is_slot_content((#[trigger] slots@[k]).content),
            forall|k: int| 0 <= k < i ==> (#[trigger] headers@[k])@ == slot_header(slots@[k]),
            forall|k: int| 0 <= k < i ==> (#[trigger] headers@[k])@.value.is_canonical(),
            forall|k: int|
                0 <= k < i ==> ((
                #[trigger] slots@[k]).content matches StorageSlotContent::MapEntries(entries)
                    ==> fits_map(pairs_by_key(entries@))),
        decreases slots@.len() - i,
    {
        let slot = &slots[i];
        let header = match &slot.content {
            StorageSlotContent::SingleValue(value) => StorageSlotHeader {
                name: slot.name.clone(),
                slot_type: StorageSlotType::ValueSlot,
                value: *value,
            },
            StorageSlotContent::MapEntries(entries) => match map_root(entries) {
                Some(value) => StorageSlotHeader {
                    name: slot.name.clone(),
                    slot_type: StorageSlotType::MapSlot,
                    value,
                },
                None => {
                    assert(slots@[i as int].content is MapEntries);
                    return None;
                },
            },
        };
        assert(header@ == slot_header(slots@[i as int]));
        headers.push(header);
        i = i + 1;
    }
    let r = AccountStorageHeader { slots: headers };
    assert(r@ =~= slots@.map_values(|slot: StorageSlot| slot_header(slot)));
    Some(r)
}

fn push_entries(
    pending: &mut Vec<PendingStorageInsert>,
    slot_name: &String,
    entries: &Vec<(Word, Word)>,
)
    ensures
        storage_views(final(pending)@) == storage_views(old(pending)@) + entry_views(
            slot_name@,
            entries@,
        ),
{
    let ghost start = storage_views(pending@);
    let ghost added = entry_views(slot_name@, entries@);
    let mut i: usize = 0;
    while i < entries.len()
        invariant
            i <= entries@.len(),
            added == entry_views(slot_name@, entries@),
            storage_views(pending@) =~= start + added.take(i as int),
        decreases entries@.len() - i,
    {
        let ghost before = pending@;
        let insert = PendingStorageInsert {
            slot_name: slot_name.clone(),
            key: entries[i].0,
            value: entries[i].1,
        };
        assert(insert@ == added[i as int]);
        pending.push(insert);
        assert(storage_views(pending@) =~= storage_views(before).push(insert@));
        i = i + 1;
    }
    assert(added.take(i as int) =~= added);
}

/// Prepares what the full state of a new account stores.
pub fn prepare_full_account_update(update: &BlockAccountUpdate, account: &FullAccountState) -> (r:
    Result<PreparedUpdate, DatabaseError>)
    requires
        is_valid_account_id(update.account_id),
        is_full_state(*account),
    ensures
        match full_update(*update, *account, full_vault_root(*account)) {
            Err(error) => r == Err::<PreparedUpdate, DatabaseError>(error),
            Ok(prepared) => r matches Ok(found) && found@ == prepared,
        },
        r matches Ok(found) ==> has_canonical_state(found@.state),
{
    let delta = VaultDelta { fungible: Vec::new(), non_fungible: Vec::new() };
    let root_result = vault_root_after_delta(&account.assets, &delta);
    assert(root_result == full_vault_root(*account));
    let vault_root = match root_result {
        Ok(vault_root) => vault_root,
        Err(error) => return Err(error),
    };
    let storage_header = match storage_header_of_slots(&account.slots) {
        Some(storage_header) => storage_header,
        None => return Err(DatabaseError::DataCorrupted(DataCorruption::InvalidStorageHeader)),
    };
    let commitment = match storage_commitment(&storage_header) {
        Some(commitment) => commitment,
        None => return Err(DatabaseError::DataCorrupted(DataCorruption::InvalidStorageHeader)),
    };
    let header = AccountHeader {
        id: update.account_id,
        nonce: account.nonce,
        vault_root,
        storage_commitment: commitment,
        code_commitment: account.code_commitment,
    };
    let calculated = account_commitment(&header);
    if calculated != update.final_state_commitment {
        return Err(
            DatabaseError::AccountCommitmentsMismatch {
                calculated,
                expected: update.final_state_commitment,
            },
        );
    }
    let mut storage: Vec<PendingStorageInsert> = Vec::new();
    assert(storage_views(storage@) =~= Seq::empty());
    let mut i: usize = 0;
    while i < account.slots.len()
        invariant
            i <= account.slots@.len(),
            storage_views(storage@) =~= all_slot_entries(account.slots@.take(i as int)),
        decreases account.slots@.len() - i,
    {
        proof {
            assert(account.slots@.take(i + 1).drop_last() =~= account.slots@.take(i as int));
            assert(account.slots@.take(i + 1).last() == account.slots@[i as int]);
        }
        if let StorageSlotContent::MapEntries(entries) = &account.slots[i].content {
            push_entries(&mut storage, &account.slots[i].name, entries);
        }
        i = i + 1;
    }
    assert(account.slots@.take(i as int) =~= account.slots@);
    let mut assets: Vec<PendingAssetInsert> = Vec::new();
    let mut j: usize = 0;
    while j < account.assets.len()
        invariant
            j <= account.assets@.len(),
            assets@ =~= new_assets(account.assets@).take(j as int),
        decreases account.assets@.len() - j,
    {
        let asset = account.assets[j];
        assets.push(PendingAssetInsert { vault_key: asset.key, asset: Some(asset) });
        j = j + 1;
    }
    let state = PartialAccountState {
        nonce: account.nonce,
        code_commitment: account.code_commitment,
        storage_header,
        vault_root,
    };
    let prepared = PreparedUpdate {
        state: AccountStateForInsert::FullAccount(state, copy_bytes(&account.code)),
        storage,
        assets,
    };
    proof {
        assert(prepared.state@->FullAccount_1 =~= account.code@);
        assert(prepared.assets@ =~= new_assets(account.assets@));
        assert(Ok::<PreparedView, DatabaseError>(prepared@) == full_update(
            *update,
            *account,
            root_result,
        ));
    }
    Ok(prepared)
}

// PARTIAL STATE
// ================================================================================================

/// What the database holds of an account before an update: the block that created it, its latest
/// row, the latest assets of the faucets that the update names, the latest entries of the maps that
/// it changes, and all latest assets. Updates without a delta need the first only.
#[derive(Clone, Debug, PartialEq, Eq)]
pub struct AccountReads {
    pub created_at_block: Option<i64>,
    pub headers: Option<AccountStateDeltaRow>,
    pub balances: Vec<VaultAssetRow>,
    pub map_entries: Vec<MapEntryRow>,
    pub assets: Vec<VaultAssetRow>,
}

/// The faucets of fungible changes.
pub open spec fn faucets_of_changes(fungible: Seq<(Word, i64)>) -> Seq<AccountId> {
    fungible.map_values(|change: (Word, i64)| faucet_of_key(change.0))
}

/// Returns the faucets of a delta's fungible changes, whose balances an update reads.
pub fn changed_faucets(delta: &VaultDelta) -> (r: Vec<AccountId>)
    ensures
        r@ == faucets_of_changes(delta.fungible@),
{
    let mut faucets: Vec<AccountId> = Vec::new();
    let mut i: usize = 0;
    while i < delta.fungible.len()
        invariant
            i <= delta.fungible@.len(),
            faucets@ =~= faucets_of_changes(delta.fungible@).take(i as int),
        decreases delta.fungible@.len() - i,
    {
        faucets.push(faucet_id_of_key(delta.fungible[i].0));
        i = i + 1;
    }
    assert(faucets@ =~= faucets_of_changes(delta.fungible@));
    faucets
}

/// The names of the slots of which a delta changes map entries.
pub open spec fn changed_slots(maps: Seq<MapDelta>) -> Seq<Seq<char>>
    decreases maps.len(),
{
    if maps.len() == 0 {
        Seq::empty()
    } else if maps.last().entries@.len() == 0 {
        changed_slots(maps.drop_last())
    } else {
        changed_slots(maps.drop_last()).push(maps.last().slot_name@)
    }
}

/// Returns the names of the slots of which a delta changes map entries, which an update reads.
pub fn changed_slot_names(delta: &StorageDelta) -> (r: Vec<String>)
    ensures
        r@.map_values(|name: String| name@) == changed_slots(delta.maps@),
{
    let mut names: Vec<String> = Vec::new();
    assert(names@.map_values(|name: String| name@) =~= Seq::empty());
    let mut i: usize = 0;
    while i < delta.maps.len()
        invariant
            i <= delta.maps@.len(),
            names@.map_values(|name: String| name@) =~= changed_slots(delta.maps@.take(i as int)),
        decreases delta.maps@.len() - i,
    {
        let ghost before = names@;
        proof {
            assert(delta.maps@.take(i + 1).drop_last() =~= delta.maps@.take(i as int));
            assert(delta.maps@.take(i + 1).last() == delta.maps@[i as int]);
        }
        if delta.maps[i].entries.len() > 0 {
            let name = delta.maps[i].slot_name.clone();
            names.push(name);
            assert(names@.map_values(|name: String| name@) =~= before.map_values(
                |name: String| name@,
            ).push(name@));
        }
        i = i + 1;
    }
    assert(delta.maps@.take(i as int) =~= delta.maps@);
    names
}

/// The balance of a faucet after a change, or `None` if it would leave the range of amounts.
pub open spec fn balance_after(balance: u64, change: i64) -> Option<u64> {
    if magnitude(change) > MAX_FUNGIBLE_AMOUNT {
        None
    } else if 0 <= balance + change <= MAX_FUNGIBLE_AMOUNT {
        Some((balance + change) as u64)
    } else {
        None
    }
}

/// What a fungible change stores: the new balance, or a removal if nothing is left.
pub open spec fn pending_of_change(balance: u64, change: (Word, i64)) -> Result<
    PendingAssetInsert,
    DatabaseError,
> {
    let vault_key = fungible_vault_key(faucet_of_key(change.0));
    match balance_after(balance, change.1) {
        None => Err(DatabaseError::AssetError),
        Some(amount) => Ok(
            PendingAssetInsert {
                vault_key,
                asset: if amount == 0 {
                    None
                } else {
                    Some(Asset { key: vault_key, value: Word(amount, 0, 0, 0) })
                },
            },
        ),
    }
}

/// What the fungible changes store, given the balances before.
pub open spec fn pending_fungible(balances: Seq<u64>, fungible: Seq<(Word, i64)>) -> Result<
    Seq<PendingAssetInsert>,
    DatabaseError,
> {
    collect_results(change_results(balances, fungible))
}

/// What each fungible change stores.
pub open spec fn change_results(balances: Seq<u64>, fungible: Seq<(Word, i64)>) -> Seq<
    Result<PendingAssetInsert, DatabaseError>,
> {
    Seq::new(fungible.len(), |i: int| pending_of_change(balances[i], fungible[i]))
}

/// What a non-fungible change stores.
pub open spec fn pending_non_fungible(change: (Asset, bool)) -> PendingAssetInsert {
    PendingAssetInsert {
        vault_key: change.0.key,
        asset: if change.1 {
            Some(change.0)
        } else {
            None
        },
    }
}

/// The changed entries of all maps, map by map.
pub open spec fn delta_entries(maps: Seq<MapDelta>) -> Seq<MapEntryView>
    decreases maps.len(),
{
    if maps.len() == 0 {
        Seq::empty()
    } else {
        delta_entries(maps.drop_last()) + entry_views(
            maps.last().slot_name@,
            maps.last().entries@,
        )
    }
}

/// The nonce after a delta, or `None` if the sum of the nonces exceeds 64 bits.
pub open spec fn nonce_after(nonce: u64, nonce_delta: u64) -> Option<u64> {
    let sum = reduced(nonce) + reduced(nonce_delta);
    if sum <= u64::MAX {
        Some(reduced(sum as u64))
    } else {
        None
    }
}

/// The maps that a delta changes, as they were before. Without changes no row is read.
pub open spec fn changed_maps(delta: StorageDelta, rows: Seq<MapEntryRow>) -> Result<
    vstd::map::Map<Seq<char>, vstd::map::Map<Word, Word>>,
    DatabaseError,
> {
    if changed_slots(delta.maps@).len() == 0 {
        Ok(vstd::map::Map::empty())
    } else {
        maps_of_rows(rows)
    }
}

/// What a delta stores, given the root of the vault after it. The state after the delta must hash
/// to the commitment of the block.
pub open spec fn partial_update(
    update: BlockAccountUpdate,
    delta: AccountDelta,
    reads: AccountReads,
    vault_root: Result<Word, DatabaseError>,
) -> Result<PreparedView, DatabaseError> {
    match headers_of_row(update.account_id, reads.headers) {
        Err(error) => Err(error),
        Ok(headers) => match balances_of_rows(
            faucets_of_changes(delta.vault.fungible@),
            reads.balances@,
        ) {
            Err(error) => Err(error),
            Ok(balances) => match pending_fungible(balances, delta.vault.fungible@) {
                Err(error) => Err(error),
                Ok(fungible) => match changed_maps(delta.storage, reads.map_entries@) {
                    Err(error) => Err(error),
                    Ok(maps) => {
                        let slots = slots_after(headers.storage_header, delta.storage, maps);
                        if !fits_changes(headers.storage_header, delta.storage, maps)
                            || !is_storage_header(slots) {
                            Err(DatabaseError::DataCorrupted(DataCorruption::InvalidStorageHeader))
                        } else {
                            match assets_of_rows(reads.assets@) {
                                Err(error) => Err(error),
                                Ok(_) => match vault_root {
                                    Err(error) => Err(error),
                                    Ok(vault_root) => match nonce_after(
                                        headers.nonce,
                                        delta.nonce_delta,
                                    ) {
                                        None => Err(
                                            DatabaseError::DataCorrupted(
                                                DataCorruption::NonceOverflow(update.account_id),
                                            ),
                                        ),
                                        Some(nonce) => checked_update(
                                            update,
                                            PartialStateView {
                                                nonce,
                                                code_commitment: headers.code_commitment,
                                                storage_header: slots,
                                                vault_root,
                                            },
                                            delta_entries(delta.storage.maps@),
                                            fungible + delta.vault.non_fungible@.map_values(
                                                |change: (Asset, bool)|
                                                    pending_non_fungible(change),
                                            ),
                                        ),
                                    },
                                },
                            }
                        }
                    },
                },
            },
        },
    }
}

/// What an update stores if its state hashes to the commitment of the block.
pub open spec fn checked_update(
    update: BlockAccountUpdate,
    state: PartialStateView,
    storage: Seq<MapEntryView>,
    assets: Seq<PendingAssetInsert>,
) -> Result<PreparedView, DatabaseError> {
    let calculated = account_commitment_of(state.header(update.account_id));
    if calculated != update.final_state_commitment {
        Err(
            DatabaseError::AccountCommitmentsMismatch {
                calculated,
                expected: update.final_state_commitment,
            },
        )
    } else {
        Ok(PreparedView { state: StateForInsertView::PartialState(state), storage, assets })
    }
}

/// The root of the vault after a delta, or a failure if the stored assets do not make up a vault, or
/// the delta cannot be applied to it.
pub open spec fn partial_vault_root(delta: AccountDelta, reads: AccountReads) -> Result<
    Word,
    DatabaseError,
> {
    match assets_of_rows(reads.assets@) {
        Err(error) => Err(error),
        Ok(assets) => vault_root_after(assets, delta.vault),
    }
}

fn change_balance(balance: u64, change: i64) -> (r: Option<u64>)
    requires
        balance <= MAX_FUNGIBLE_AMOUNT,
    ensures
        r == balance_after(balance, change),
{
    let amount: u64 = unsigned_abs(change);
    if amount > MAX_FUNGIBLE_AMOUNT {
        None
    } else if change < 0 {
        if amount <= balance {
            Some(balance - amount)
        } else {
            None
        }
    } else if balance + amount <= MAX_FUNGIBLE_AMOUNT {
        Some(balance + amount)
    } else {
        None
    }
}

fn prepare_fungible_changes(balances: &Vec<u64>, fungible: &Vec<(Word, i64)>) -> (r: Result<
    Vec<PendingAssetInsert>,
    DatabaseError,
>)
    requires
        balances@.len() == fungible@.len(),
        forall|i: int|
            0 <= i < balances@.len() ==> #[trigger] balances@[i] <= MAX_FUNGIBLE_AMOUNT,
    ensures
        match pending_fungible(balances@, fungible@) {
            Err(error) => r == Err::<Vec<PendingAssetInsert>, DatabaseError>(error),
            Ok(pending) => r matches Ok(found) && found@ == pending,
        },
        r is Ok ==> has_bounded_amounts(fungible@),
{
    let ghost results = change_results(balances@, fungible@);
    let mut pending: Vec<PendingAssetInsert> = Vec::new();
    let mut i: usize = 0;
    while i < fungible.len()
        invariant
            i <= fungible@.len(),
            balances@.len() == fungible@.len(),
            results == change_results(balances@, fungible@),
            collect_results(results.take(i as int)) == Ok::<
                Seq<PendingAssetInsert>,
                DatabaseError,
            >(pending@),
            forall|k: int|
                0 <= k < balances@.len() ==> #[trigger] balances@[k] <= MAX_FUNGIBLE_AMOUNT,
            has_bounded_amounts(fungible@.take(i as int)),
        decreases fungible@.len() - i,
    {
        let (key, change) = fungible[i];
        proof {
            assert(fungible@[i as int] == (key, change));
            lemma_collect_step(results, i as int);
            if results[i as int] is Err {
                lemma_collect_prefix_error(results, i + 1);
            }
        }
        let faucet_id = faucet_id_of_key(key);
        let vault_key = Word(0, 0, faucet_id.suffix, faucet_id.prefix);
        match change_balance(balances[i], change) {
            None => return Err(DatabaseError::AssetError),
            Some(amount) => {
                let asset = if amount == 0 {
                    None
                } else {
                    Some(Asset { key: vault_key, value: Word(amount, 0, 0, 0) })
                };
                pending.push(PendingAssetInsert { vault_key, asset });
            },
        }
        assert forall|k: int| 0 <= k < i + 1 implies magnitude(
            (#[trigger] fungible@.take(i + 1)[k]).1,
        ) <= MAX_FUNGIBLE_AMOUNT by {
            if k < i {
                assert(fungible@.take(i as int)[k] == fungible@.take(i + 1)[k]);
            }
        }
        i = i + 1;
    }
    assert(results.take(i as int) =~= results);
    assert(fungible@.take(i as int) =~= fungible@);
    Ok(pending)
}

/// Prepares what the change of an existing account stores.
pub fn prepare_partial_account_update(
    update: &BlockAccountUpdate,
    delta: &AccountDelta,
    reads: &AccountReads,
) -> (r: Result<PreparedUpdate, DatabaseError>)
    requires
        is_valid_account_id(update.account_id),
        is_canonical_delta(delta.storage),
        is_vault_delta(delta.vault),
    ensures
        match partial_update(*update, *delta, *reads, partial_vault_root(*delta, *reads)) {
            Err(error) => r == Err::<PreparedUpdate, DatabaseError>(error),
            Ok(prepared) => r matches Ok(found) && found@ == prepared,
        },
        r matches Ok(found) ==> has_canonical_state(found@.state),
{
    let headers = select_minimal_account_state_headers(update.account_id, &reads.headers)?;
    let faucet_ids = changed_faucets(&delta.vault);
    proof {
        assert forall|i: int| 0 <= i < faucet_ids@.len() implies is_fungible_faucet(
            #[trigger] faucet_ids@[i],
        ) by {
            assert(delta.vault.fungible@[i].0 == delta.vault.fungible@[i].0);
        }
    }
    let balances = select_vault_balances_by_faucet_ids(&faucet_ids, &reads.balances)?;
    let mut assets = prepare_fungible_changes(&balances, &delta.vault.fungible)?;
    let ghost fungible = assets@;
    let ghost non_fungible = delta.vault.non_fungible@.map_values(
        |change: (Asset, bool)| pending_non_fungible(change),
    );
    let mut i: usize = 0;
    while i < delta.vault.non_fungible.len()
        invariant
            i <= delta.vault.non_fungible@.len(),
            non_fungible == delta.vault.non_fungible@.map_values(
                |change: (Asset, bool)| pending_non_fungible(change),
            ),
            assets@ =~= fungible + non_fungible.take(i as int),
        decreases delta.vault.non_fungible@.len() - i,
    {
        let (asset, added) = delta.vault.non_fungible[i];
        assert(delta.vault.non_fungible@[i as int] == (asset, added));
        let kept = if added {
            Some(asset)
        } else {
            None
        };
        assets.push(PendingAssetInsert { vault_key: asset.key, asset: kept });
        i = i + 1;
    }
    assert(assets@ =~= fungible + non_fungible);

    let mut storage: Vec<PendingStorageInsert> = Vec::new();
    assert(storage_views(storage@) =~= Seq::empty());
    let mut j: usize = 0;
    while j < delta.storage.maps.len()
        invariant
            j <= delta.storage.maps@.len(),
            storage_views(storage@) =~= delta_entries(delta.storage.maps@.take(j as int)),
        decreases delta.storage.maps@.len() - j,
    {
        proof {
            assert(delta.storage.maps@.take(j + 1).drop_last() =~= delta.storage.maps@.take(
                j as int,
            ));
            assert(delta.storage.maps@.take(j + 1).last() == delta.storage.maps@[j as int]);
        }
        let map = &delta.storage.maps[j];
        push_entries(&mut storage, &map.slot_name, &map.entries);
        j = j + 1;
    }
    assert(delta.storage.maps@.take(j as int) =~= delta.storage.maps@);

    let slot_names = changed_slot_names(&delta.storage);
    let maps: Vec<SlotEntries> = if slot_names.len() == 0 {
        let maps: Vec<SlotEntries> = Vec::new();
        assert(slot_pairs(maps@) =~= Seq::empty());
        maps
    } else {
        group_storage_map_entries(&reads.map_entries)?
    };
    let storage_header = apply_storage_delta(&headers.storage_header, &delta.storage, &maps)?;
    let commitment = match storage_commitment(&storage_header) {
        Some(commitment) => commitment,
        None => return Err(DatabaseError::DataCorrupted(DataCorruption::InvalidStorageHeader)),
    };

    let latest_assets = select_latest_vault_assets(&reads.assets)?;
    let root_result = vault_root_after_delta(&latest_assets, &delta.vault);
    assert(root_result == partial_vault_root(*delta, *reads));
    let vault_root = match root_result {
        Ok(vault_root) => vault_root,
        Err(error) => return Err(error),
    };

    let nonce: u64 = match reduce(headers.nonce).checked_add(reduce(delta.nonce_delta)) {
        Some(sum) => reduce(sum),
        None => return Err(
            DatabaseError::DataCorrupted(DataCorruption::NonceOverflow(update.account_id)),
        ),
    };
    let header = AccountHeader {
        id: update.account_id,
        nonce,
        vault_root,
        storage_commitment: commitment,
        code_commitment: headers.code_commitment,
    };
    let calculated = account_commitment(&header);
    if calculated != update.final_state_commitment {
        return Err(
            DatabaseError::AccountCommitmentsMismatch {
                calculated,
                expected: update.final_state_commitment,
            },
        );
    }
    let state = PartialAccountState {
        nonce,
        code_commitment: headers.code_commitment,
        storage_header,
        vault_root,
    };
    Ok(PreparedUpdate { state: AccountStateForInsert::PartialState(state), storage, assets })
}

} // verus!
