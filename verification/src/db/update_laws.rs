//! Laws on updates of accounts: what a new account and a changed account store, and the rows that are
//! written for them.

use vstd::prelude::*;

use crate::account_id::AccountId;
use crate::block_number::BlockNumber;
use crate::db::accounts::NetworkAccountType;
use crate::db::conv::{lemma_collect_first_error, lemma_collect_values};
use crate::db::delta::{
    assets_of_rows, balances_of_rows, contents_after_delta, contents_after_fungible,
    contents_after_non_fungible, fits_changes, fits_update, fungible_fits, headers_of_row,
    map_after, maps_of_rows, non_fungible_fits, slot_map, slots_after, value_update,
    vault_root_after, MapDelta, MapEntryRow, MapEntryView, StorageDelta, VaultDelta,
};
use crate::db::entries::{has_distinct_keys, pairs_by_key};
use crate::db::updates::{
    all_slot_entries, balance_after, change_results, changed_maps, changed_slots, delta_entries,
    entry_views, faucets_of_changes, fits_slots, full_update, full_vault_root, is_account_update,
    nonce_after, partial_update, partial_vault_root, pending_fungible, slot_entries, slot_header,
    AccountDelta, AccountReads, AccountUpdateDetails, BlockAccountUpdate, FullAccountState,
    PartialStateView, PendingAssetInsert, PreparedView, StateForInsertView, StorageSlot,
    StorageSlotContent,
};
use crate::db::upsert::{
    account_row, asset_row, is_written_update, is_written_with_root, storage_row, WritesView,
};
use crate::errors::{DataCorruption, DatabaseError};
use crate::protocol::{
    account_commitment_of, account_id_bytes, are_distinct_assets, are_map_entries, are_vault_assets,
    asset_bytes, asset_pairs, faucet_of_key, fits_map, is_asset, is_fungible_faucet,
    is_storage_header, is_valid_account_id, is_vault_key, storage_commitment_of,
    storage_header_bytes, storage_map_root_of, vault_root_of, word_bytes,
};
use crate::smt_forest::has_room;
use crate::state::account::{AccountHeader, Asset, SlotHeaderView, StorageSlotType};
use crate::word::Word;

verus! {

// NEW ACCOUNTS
// ================================================================================================

/// Every entry of every map of an account is stored under the name of its slot, and nothing else is.
pub proof fn lemma_all_entries_are_stored(slots: Seq<StorageSlot>)
    ensures
        forall|s: int, i: int|
            0 <= s < slots.len() && slots[s].content is MapEntries && 0 <= i
                < slots[s].content->MapEntries_0@.len() ==> all_slot_entries(slots).contains(
                MapEntryView {
                    slot_name: #[trigger] slots[s].name@,
                    key: slots[s].content->MapEntries_0@[i].0,
                    value: (#[trigger] slots[s].content->MapEntries_0@[i]).1,
                },
            ),
        forall|entry: MapEntryView| #[trigger]
            all_slot_entries(slots).contains(entry) ==> exists|s: int, i: int|
                0 <= s < slots.len() && slots[s].content is MapEntries && 0 <= i
                    < slots[s].content->MapEntries_0@.len() && #[trigger] slots[s].name@
                    == entry.slot_name && #[trigger] slots[s].content->MapEntries_0@[i] == (
                    entry.key,
                    entry.value,
                ),
    decreases slots.len(),
{
    if slots.len() > 0 {
        let before = slots.drop_last();
        let last = slots.len() - 1;
        let added = slot_entries(slots.last());
        lemma_all_entries_are_stored(before);
        assert(all_slot_entries(slots) == all_slot_entries(before) + added);
        assert forall|s: int, i: int|
            0 <= s < slots.len() && slots[s].content is MapEntries && 0 <= i
                < slots[s].content->MapEntries_0@.len() implies all_slot_entries(slots).contains(
            MapEntryView {
                slot_name: #[trigger] slots[s].name@,
                key: slots[s].content->MapEntries_0@[i].0,
                value: (#[trigger] slots[s].content->MapEntries_0@[i]).1,
            },
        ) by {
            let entry = MapEntryView {
                slot_name: slots[s].name@,
                key: slots[s].content->MapEntries_0@[i].0,
                value: slots[s].content->MapEntries_0@[i].1,
            };
            if s < last {
                assert(before[s].name@ == slots[s].name@);
                assert(before[s].content->MapEntries_0@[i] == slots[s].content->MapEntries_0@[i]);
                assert(all_slot_entries(before).contains(entry));
                let at = choose|at: int|
                    0 <= at < all_slot_entries(before).len() && all_slot_entries(before)[at]
                        == entry;
                assert(all_slot_entries(slots)[at] == entry);
            } else {
                assert(added[i] == entry);
                assert(all_slot_entries(slots)[all_slot_entries(before).len() + i] == entry);
            }
        }
        assert forall|entry: MapEntryView| #[trigger]
            all_slot_entries(slots).contains(entry) implies exists|s: int, i: int|
            0 <= s < slots.len() && slots[s].content is MapEntries && 0 <= i
                < slots[s].content->MapEntries_0@.len() && #[trigger] slots[s].name@
                == entry.slot_name && #[trigger] slots[s].content->MapEntries_0@[i] == (
                entry.key,
                entry.value,
            ) by {
            let at = choose|at: int|
                0 <= at < all_slot_entries(slots).len() && all_slot_entries(slots)[at] == entry;
            if at < all_slot_entries(before).len() {
                assert(all_slot_entries(before)[at] == entry);
                assert(all_slot_entries(before).contains(entry));
                let (s, i) = choose|s: int, i: int|
                    0 <= s < before.len() && before[s].content is MapEntries && 0 <= i
                        < before[s].content->MapEntries_0@.len() && #[trigger] before[s].name@
                        == entry.slot_name && #[trigger] before[s].content->MapEntries_0@[i] == (
                        entry.key,
                        entry.value,
                    );
                assert(slots[s].name@ == entry.slot_name);
                assert(slots[s].content->MapEntries_0@[i] == (entry.key, entry.value));
            } else {
                let i = at - all_slot_entries(before).len();
                assert(added[i] == entry);
                assert(slots[last].name@ == entry.slot_name);
                assert(slots[last].content->MapEntries_0@[i] == (entry.key, entry.value));
            }
        }
    }
}

/// A new account is stored if the header of its state hashes to the commitment that the block gives it.
/// It is stored with its nonce, its code and the root of its vault, with each value slot and the root of
/// each map, and with each of its assets under the key of the asset.
pub proof fn lemma_new_accounts_are_stored(
    update: BlockAccountUpdate,
    account: FullAccountState,
    root: Word,
)
    ensures
        full_update(update, account, Ok(root)) matches Ok(prepared) ==> {
            &&& prepared.state matches StateForInsertView::FullAccount(state, code)
            &&& code == account.code@
            &&& state.nonce == account.nonce
            &&& state.code_commitment == account.code_commitment
            &&& state.vault_root == root
            &&& is_storage_header(state.storage_header)
            &&& state.storage_header.len() == account.slots@.len()
            &&& forall|i: int|
                0 <= i < account.slots@.len() ==> {
                    let slot = #[trigger] account.slots@[i];
                    &&& state.storage_header[i].name == slot.name@
                    &&& match slot.content {
                        StorageSlotContent::SingleValue(value) => {
                            &&& state.storage_header[i].slot_type == StorageSlotType::ValueSlot
                            &&& state.storage_header[i].value == value
                        },
                        StorageSlotContent::MapEntries(entries) => {
                            &&& state.storage_header[i].slot_type == StorageSlotType::MapSlot
                            &&& state.storage_header[i].value == storage_map_root_of(
                                pairs_by_key(entries@),
                            )
                            &&& fits_map(pairs_by_key(entries@))
                        },
                    }
                }
            &&& update.final_state_commitment == account_commitment_of(
                AccountHeader {
                    id: update.account_id,
                    nonce: account.nonce,
                    vault_root: root,
                    storage_commitment: storage_commitment_of(state.storage_header),
                    code_commitment: account.code_commitment,
                },
            )
            &&& prepared.assets.len() == account.assets@.len()
            &&& forall|i: int|
                0 <= i < account.assets@.len() ==> (#[trigger] prepared.assets[i]).vault_key
                    == account.assets@[i].key && prepared.assets[i].asset == Some(
                    account.assets@[i],
                )
        },
{
}

/// A new account is not stored if its assets do not make up a vault, if its slots do not make up a
/// storage header, or if its state hashes to another commitment than that of the block. The error says
/// which of these it is, the first that holds.
pub proof fn lemma_new_accounts_that_are_not_stored(
    update: BlockAccountUpdate,
    account: FullAccountState,
    root: Result<Word, DatabaseError>,
)
    ensures
        full_update(update, account, root) matches Err(error) ==> match root {
            Err(failure) => error == failure,
            Ok(_) => error == DatabaseError::DataCorrupted(DataCorruption::InvalidStorageHeader) || (
            error matches DatabaseError::AccountCommitmentsMismatch { calculated, expected }
                && calculated != expected && expected == update.final_state_commitment),
        },
        root matches Err(failure) ==> full_update(update, account, root)
            == Err::<PreparedView, DatabaseError>(failure),
        full_vault_root(account) matches Ok(root) ==> root == vault_root_of(
            pairs_by_key(
                Seq::new(
                    account.assets@.len(),
                    |i: int| (account.assets@[i].key, account.assets@[i].value),
                ),
            ),
        ),
        full_vault_root(account) matches Err(error) ==> error == DatabaseError::AssetVaultError,
{
    assert(asset_pairs(account.assets@) =~= Seq::new(
        account.assets@.len(),
        |i: int| (account.assets@[i].key, account.assets@[i].value),
    ));
}

// CHANGED ACCOUNTS
// ================================================================================================

/// The balances that a change reads are those of the faucets of its fungible assets, in their order: the
/// last two elements of a key name the faucet, without the lowest byte of the suffix.
pub proof fn lemma_faucets_of_changes(fungible: Seq<(Word, i64)>)
    ensures
        faucets_of_changes(fungible).len() == fungible.len(),
        forall|i: int|
            0 <= i < fungible.len() ==> (#[trigger] faucets_of_changes(fungible)[i]).prefix
                == fungible[i].0.3 && faucets_of_changes(fungible)[i].suffix == fungible[i].0.2
                - fungible[i].0.2 % 256,
{
}

/// The maps that a change reads are those of which it changes an entry.
pub proof fn lemma_changed_slots(maps: Seq<MapDelta>)
    ensures
        forall|m: int|
            0 <= m < maps.len() && maps[m].entries@.len() > 0 ==> changed_slots(maps).contains(
                #[trigger] maps[m].slot_name@,
            ),
        forall|name: Seq<char>| #[trigger]
            changed_slots(maps).contains(name) ==> exists|m: int|
                0 <= m < maps.len() && maps[m].entries@.len() > 0 && #[trigger] maps[m].slot_name@
                    == name,
        changed_slots(maps).len() <= maps.len(),
    decreases maps.len(),
{
    if maps.len() > 0 {
        let before = maps.drop_last();
        let last = maps.len() - 1;
        lemma_changed_slots(before);
        assert forall|m: int| 0 <= m < maps.len() && maps[m].entries@.len() > 0 implies changed_slots(
            maps,
        ).contains(#[trigger] maps[m].slot_name@) by {
            if m < last {
                assert(before[m].slot_name@ == maps[m].slot_name@);
                let at = choose|at: int|
                    0 <= at < changed_slots(before).len() && changed_slots(before)[at]
                        == maps[m].slot_name@;
                assert(changed_slots(maps)[at] == maps[m].slot_name@);
            } else {
                assert(changed_slots(maps).last() == maps[m].slot_name@);
            }
        }
        assert forall|name: Seq<char>| #[trigger]
            changed_slots(maps).contains(name) implies exists|m: int|
            0 <= m < maps.len() && maps[m].entries@.len() > 0 && #[trigger] maps[m].slot_name@
                == name by {
            if changed_slots(before).contains(name) {
                let m = choose|m: int|
                    0 <= m < before.len() && before[m].entries@.len() > 0
                        && #[trigger] before[m].slot_name@ == name;
                assert(maps[m].slot_name@ == name);
            } else {
                let at = choose|at: int|
                    0 <= at < changed_slots(maps).len() && changed_slots(maps)[at] == name;
                assert(at >= changed_slots(before).len()) by {
                    if at < changed_slots(before).len() {
                        assert(changed_slots(before)[at] == name);
                    }
                }
                assert(maps[last].slot_name@ == name);
            }
        }
    }
}

/// Every changed entry of every map is stored under the name of its slot, and nothing else is.
pub proof fn lemma_all_changed_entries_are_stored(maps: Seq<MapDelta>)
    ensures
        forall|m: int, i: int|
            0 <= m < maps.len() && 0 <= i < maps[m].entries@.len() ==> delta_entries(
                maps,
            ).contains(
                MapEntryView {
                    slot_name: #[trigger] maps[m].slot_name@,
                    key: maps[m].entries@[i].0,
                    value: (#[trigger] maps[m].entries@[i]).1,
                },
            ),
        forall|entry: MapEntryView| #[trigger]
            delta_entries(maps).contains(entry) ==> exists|m: int, i: int|
                0 <= m < maps.len() && 0 <= i < maps[m].entries@.len()
                    && #[trigger] maps[m].slot_name@ == entry.slot_name
                    && #[trigger] maps[m].entries@[i] == (entry.key, entry.value),
    decreases maps.len(),
{
    if maps.len() > 0 {
        let before = maps.drop_last();
        let last = maps.len() - 1;
        let added = entry_views(maps[last].slot_name@, maps[last].entries@);
        lemma_all_changed_entries_are_stored(before);
        assert(delta_entries(maps) == delta_entries(before) + added);
        assert forall|m: int, i: int|
            0 <= m < maps.len() && 0 <= i < maps[m].entries@.len() implies delta_entries(
            maps,
        ).contains(
            MapEntryView {
                slot_name: #[trigger] maps[m].slot_name@,
                key: maps[m].entries@[i].0,
                value: (#[trigger] maps[m].entries@[i]).1,
            },
        ) by {
            let entry = MapEntryView {
                slot_name: maps[m].slot_name@,
                key: maps[m].entries@[i].0,
                value: maps[m].entries@[i].1,
            };
            if m < last {
                assert(before[m].slot_name@ == maps[m].slot_name@);
                assert(before[m].entries@[i] == maps[m].entries@[i]);
                assert(delta_entries(before).contains(entry));
                let at = choose|at: int|
                    0 <= at < delta_entries(before).len() && delta_entries(before)[at] == entry;
                assert(delta_entries(maps)[at] == entry);
            } else {
                assert(added[i] == entry);
                assert(delta_entries(maps)[delta_entries(before).len() + i] == entry);
            }
        }
        assert forall|entry: MapEntryView| #[trigger]
            delta_entries(maps).contains(entry) implies exists|m: int, i: int|
            0 <= m < maps.len() && 0 <= i < maps[m].entries@.len() && #[trigger] maps[m].slot_name@
                == entry.slot_name && #[trigger] maps[m].entries@[i] == (
                entry.key,
                entry.value,
            ) by {
            let at = choose|at: int|
                0 <= at < delta_entries(maps).len() && delta_entries(maps)[at] == entry;
            if at < delta_entries(before).len() {
                assert(delta_entries(before)[at] == entry);
                assert(delta_entries(before).contains(entry));
                let (m, i) = choose|m: int, i: int|
                    0 <= m < before.len() && 0 <= i < before[m].entries@.len()
                        && #[trigger] before[m].slot_name@ == entry.slot_name
                        && #[trigger] before[m].entries@[i] == (entry.key, entry.value);
                assert(maps[m].slot_name@ == entry.slot_name);
                assert(maps[m].entries@[i] == (entry.key, entry.value));
            } else {
                let i = at - delta_entries(before).len();
                assert(added[i] == entry);
                assert(maps[last].slot_name@ == entry.slot_name);
                assert(maps[last].entries@[i] == (entry.key, entry.value));
            }
        }
    }
}

/// A change adds its amount to the balance of a faucet. The new balance is between zero and the largest
/// amount of an asset.
pub proof fn lemma_changed_balances(balance: u64, change: i64)
    requires
        balance <= 0x7fff_ffff_8000_0000,
    ensures
        balance_after(balance, change) matches Some(after) ==> after == balance + change && after
            <= 0x7fff_ffff_8000_0000,
        balance_after(balance, change) is None <==> balance + change < 0 || balance + change
            > 0x7fff_ffff_8000_0000 || change > 0x7fff_ffff_8000_0000 || change
            < -0x7fff_ffff_8000_0000,
{
}

/// The fungible changes of an account are all stored, if all of the new balances are amounts: each new
/// balance under the key of its faucet, or a removal if nothing is left.
pub proof fn lemma_new_balances_are_stored(balances: Seq<u64>, fungible: Seq<(Word, i64)>)
    requires
        balances.len() == fungible.len(),
        forall|i: int| 0 <= i < balances.len() ==> #[trigger] balances[i] <= 0x7fff_ffff_8000_0000,
    ensures
        pending_fungible(balances, fungible) matches Ok(pending) ==> {
            &&& pending.len() == fungible.len()
            &&& forall|i: int|
                0 <= i < fungible.len() ==> {
                    let key = fungible[i].0;
                    let after = balances[i] + fungible[i].1;
                    &&& 0 <= after <= 0x7fff_ffff_8000_0000
                    &&& (#[trigger] pending[i]).vault_key == Word(
                        0,
                        0,
                        (key.2 - key.2 % 256) as u64,
                        key.3,
                    )
                    &&& if after == 0 {
                        pending[i].asset is None
                    } else {
                        pending[i].asset == Some(
                            Asset {
                                key: pending[i].vault_key,
                                value: Word(after as u64, 0, 0, 0),
                            },
                        )
                    }
                }
        },
        pending_fungible(balances, fungible) matches Err(error) ==> error
            == DatabaseError::AssetError && exists|i: int|
            0 <= i < fungible.len() && (#[trigger] balances[i] + fungible[i].1 < 0 || balances[i]
                + fungible[i].1 > 0x7fff_ffff_8000_0000 || fungible[i].1 > 0x7fff_ffff_8000_0000
                || fungible[i].1 < -0x7fff_ffff_8000_0000),
{
    let results = change_results(balances, fungible);
    if pending_fungible(balances, fungible) is Ok {
        let pending = pending_fungible(balances, fungible)->Ok_0;
        lemma_collect_values(results);
        assert forall|i: int| 0 <= i < fungible.len() implies results[i] == Ok::<
            PendingAssetInsert,
            DatabaseError,
        >(#[trigger] pending[i]) by {
        }
    } else {
        lemma_collect_first_error(results);
        let error = pending_fungible(balances, fungible)->Err_0;
        let i = choose|i: int|
            0 <= i < results.len() && #[trigger] results[i] == Err::<
                PendingAssetInsert,
                DatabaseError,
            >(error);
        assert(balances[i] <= 0x7fff_ffff_8000_0000);
        lemma_changed_balances(balances[i], fungible[i].1);
    }
}

/// The nonce of an account grows by that of the change.
pub proof fn lemma_nonces_add_up(nonce: u64, nonce_delta: u64)
    requires
        nonce < 0xffff_ffff_0000_0001,
        nonce_delta < 0xffff_ffff_0000_0001,
    ensures
        nonce + nonce_delta < 0xffff_ffff_0000_0001 ==> nonce_after(nonce, nonce_delta) == Some(
            (nonce + nonce_delta) as u64,
        ),
        nonce + nonce_delta > u64::MAX ==> nonce_after(nonce, nonce_delta) is None,
{
}

/// A changed account is stored if the header of its state hashes to the commitment that the block gives
/// it. It keeps its code, its nonce grows by that of the change, and its slots are those that the change
/// leads to. Its changed entries are stored, its changed balances, and after them each change of its
/// non-fungible assets: the asset that was added, or the removal of the one that was removed.
pub proof fn lemma_changed_accounts_are_stored(
    update: BlockAccountUpdate,
    delta: AccountDelta,
    reads: AccountReads,
    root: Word,
)
    ensures
        partial_update(update, delta, reads, Ok(root)) matches Ok(prepared) ==> {
            let stored = headers_of_row(update.account_id, reads.headers);
            let balances = balances_of_rows(
                faucets_of_changes(delta.vault.fungible@),
                reads.balances@,
            );
            let fungible = pending_fungible(balances->Ok_0, delta.vault.fungible@);
            let non_fungible = delta.vault.non_fungible@;
            &&& stored is Ok
            &&& balances is Ok
            &&& fungible is Ok
            &&& assets_of_rows(reads.assets@) is Ok
            &&& changed_maps(delta.storage, reads.map_entries@) is Ok
            &&& fits_changes(
                stored->Ok_0.storage_header,
                delta.storage,
                changed_maps(delta.storage, reads.map_entries@)->Ok_0,
            )
            &&& prepared.state matches StateForInsertView::PartialState(state)
            &&& state.code_commitment == stored->Ok_0.code_commitment
            &&& nonce_after(stored->Ok_0.nonce, delta.nonce_delta) == Some(state.nonce)
            &&& state.vault_root == root
            &&& state.storage_header == slots_after(
                stored->Ok_0.storage_header,
                delta.storage,
                changed_maps(delta.storage, reads.map_entries@)->Ok_0,
            )
            &&& is_storage_header(state.storage_header)
            &&& update.final_state_commitment == account_commitment_of(
                AccountHeader {
                    id: update.account_id,
                    nonce: state.nonce,
                    vault_root: root,
                    storage_commitment: storage_commitment_of(state.storage_header),
                    code_commitment: state.code_commitment,
                },
            )
            &&& prepared.storage == delta_entries(delta.storage.maps@)
            &&& prepared.assets.len() == fungible->Ok_0.len() + non_fungible.len()
            &&& prepared.assets.take(fungible->Ok_0.len() as int) == fungible->Ok_0
            &&& forall|i: int|
                0 <= i < non_fungible.len() ==> {
                    let (asset, added) = #[trigger] non_fungible[i];
                    let pending = prepared.assets[fungible->Ok_0.len() + i];
                    &&& pending.vault_key == asset.key
                    &&& added ==> pending.asset == Some(asset)
                    &&& !added ==> pending.asset is None
                }
        },
{
    if partial_update(update, delta, reads, Ok(root)) is Ok {
        let prepared = partial_update(update, delta, reads, Ok(root))->Ok_0;
        let balances = balances_of_rows(
            faucets_of_changes(delta.vault.fungible@),
            reads.balances@,
        );
        let fungible = pending_fungible(balances->Ok_0, delta.vault.fungible@)->Ok_0;
        assert(prepared.assets.take(fungible.len() as int) =~= fungible);
    }
}

/// A change that names no entry of a map needs none of the stored entries. One that names an entry needs
/// those that are stored.
pub proof fn lemma_entries_that_are_read(
    delta: AccountDelta,
    rows: Seq<MapEntryRow>,
)
    ensures
        (forall|m: int|
            0 <= m < delta.storage.maps@.len() ==> (
            #[trigger] delta.storage.maps@[m]).entries@.len() == 0) ==> changed_maps(
            delta.storage,
            rows,
        ) == Ok::<_, DatabaseError>(
            vstd::map::Map::<Seq<char>, vstd::map::Map<Word, Word>>::empty(),
        ),
        (exists|m: int|
            0 <= m < delta.storage.maps@.len() && (
            #[trigger] delta.storage.maps@[m]).entries@.len() > 0) ==> changed_maps(
            delta.storage,
            rows,
        ) == maps_of_rows(rows),
{
    let maps = delta.storage.maps@;
    lemma_changed_slots(maps);
    if exists|m: int| 0 <= m < maps.len() && (#[trigger] maps[m]).entries@.len() > 0 {
        let m = choose|m: int| 0 <= m < maps.len() && (#[trigger] maps[m]).entries@.len() > 0;
        assert(changed_slots(maps).contains(maps[m].slot_name@));
    } else if changed_slots(maps).len() > 0 {
        assert(changed_slots(maps).contains(changed_slots(maps)[0]));
    }
}

/// A change is not stored if the state of the account cannot be read, if it does not fit the stored
/// state, or if the changed state hashes to another commitment than that of the block.
pub proof fn lemma_changes_that_are_not_stored(
    update: BlockAccountUpdate,
    delta: AccountDelta,
    reads: AccountReads,
    root: Result<Word, DatabaseError>,
)
    ensures
        headers_of_row(update.account_id, reads.headers) matches Err(error) ==> partial_update(
            update,
            delta,
            reads,
            root,
        ) == Err::<PreparedView, DatabaseError>(error),
        root is Err ==> partial_update(update, delta, reads, root) is Err,
        assets_of_rows(reads.assets@) is Err ==> partial_update(update, delta, reads, root) is Err,
        balances_of_rows(faucets_of_changes(delta.vault.fungible@), reads.balances@) is Err
            ==> partial_update(update, delta, reads, root) is Err,
        pending_fungible(
            balances_of_rows(
                faucets_of_changes(delta.vault.fungible@),
                reads.balances@,
            )->Ok_0,
            delta.vault.fungible@,
        ) is Err ==> partial_update(update, delta, reads, root) is Err,
        changed_maps(delta.storage, reads.map_entries@) is Err ==> partial_update(
            update,
            delta,
            reads,
            root,
        ) is Err,
{
}

// ROWS
// ================================================================================================

/// The row of an account holds the bytes of its identifier and of its commitment, whether it is a
/// network account, its block and the block that created it. The columns of its state are there exactly
/// if its state is public.
pub proof fn lemma_rows_of_accounts(
    account_id: AccountId,
    commitment: Word,
    block_num: BlockNumber,
    created_at_block: BlockNumber,
    state: Option<PartialStateView>,
)
    ensures
        ({
            let row = account_row(account_id, commitment, block_num, created_at_block, state);
            &&& row.account_id == account_id_bytes(account_id)
            &&& row.network_account_type == if account_id.is_network() {
                1i32
            } else {
                0i32
            }
            &&& row.block_num == block_num.0
            &&& row.created_at_block == created_at_block.0
            &&& row.account_commitment == word_bytes(commitment)
            &&& row.is_latest
            &&& state is None ==> row.code_commitment is None && row.nonce is None
                && row.storage_header is None && row.vault_root is None
            &&& state is Some ==> row.code_commitment == Some(word_bytes(state->0.code_commitment))
                && row.nonce == Some(state->0.nonce as i64) && row.storage_header == Some(
                storage_header_bytes(state->0.storage_header),
            ) && row.vault_root == Some(word_bytes(state->0.vault_root))
        }),
        NetworkAccountType::NotNetwork.raw() == 0,
        NetworkAccountType::Network.raw() == 1,
{
}

/// The row of an asset holds the bytes of its key and of the asset, or no asset if it was removed. The
/// row of an entry holds the name of its slot and the bytes of its key and its value. Both are the
/// latest rows of the account's block.
pub proof fn lemma_rows_of_entries(
    account_id: AccountId,
    block_num: BlockNumber,
    pending: PendingAssetInsert,
    entry: MapEntryView,
)
    ensures
        ({
            let row = asset_row(account_id, block_num, pending);
            &&& row.account_id == account_id_bytes(account_id)
            &&& row.block_num == block_num.0
            &&& row.vault_key == word_bytes(pending.vault_key)
            &&& pending.asset is None ==> row.asset is None
            &&& pending.asset is Some ==> row.asset == Some(asset_bytes(pending.asset->0))
            &&& row.is_latest
        }),
        ({
            let row = storage_row(account_id, block_num, entry);
            &&& row.account_id == account_id_bytes(account_id)
            &&& row.block_num == block_num.0
            &&& row.slot_name == entry.slot_name
            &&& row.key == word_bytes(entry.key)
            &&& row.value == word_bytes(entry.value)
            &&& row.is_latest
        }),
{
}

/// An update writes one row for the account, one for each entry and one for each asset that it stores,
/// all of them of the account and the block of the update. The code of the account is written if the
/// account is new.
pub proof fn lemma_all_rows_are_written(
    update: BlockAccountUpdate,
    reads: AccountReads,
    block_num: BlockNumber,
    written: WritesView,
)
    requires
        is_written_update(update, reads, block_num, Ok(written)),
    ensures
        written.account.account_id == account_id_bytes(update.account_id),
        written.account.block_num == block_num.0,
        written.account.account_commitment == word_bytes(update.final_state_commitment),
        written.account.is_latest,
        forall|i: int|
            0 <= i < written.storage.len() ==> (#[trigger] written.storage[i]).account_id
                == account_id_bytes(update.account_id) && written.storage[i].block_num
                == block_num.0 && written.storage[i].is_latest,
        forall|i: int|
            0 <= i < written.assets.len() ==> (#[trigger] written.assets[i]).account_id
                == account_id_bytes(update.account_id) && written.assets[i].block_num == block_num.0
                && written.assets[i].is_latest,
        match update.details {
            AccountUpdateDetails::Private => {
                &&& written.code is None
                &&& written.account.vault_root is None
                &&& written.account.nonce is None
                &&& written.account.storage_header is None
                &&& written.account.code_commitment is None
                &&& written.storage.len() == 0
                &&& written.assets.len() == 0
            },
            AccountUpdateDetails::FullState(account) => {
                &&& written.code matches Some(row)
                &&& row.code == account.code@
                &&& row.code_commitment == word_bytes(account.code_commitment)
                &&& written.account.code_commitment == Some(row.code_commitment)
                &&& written.account.nonce == Some(account.nonce as i64)
                &&& written.storage.len() == all_slot_entries(account.slots@).len()
                &&& forall|i: int|
                    0 <= i < written.storage.len() ==> {
                        let entry = all_slot_entries(account.slots@)[i];
                        &&& (#[trigger] written.storage[i]).slot_name == entry.slot_name
                        &&& written.storage[i].key == word_bytes(entry.key)
                        &&& written.storage[i].value == word_bytes(entry.value)
                    }
                &&& written.assets.len() == account.assets@.len()
                &&& forall|i: int|
                    0 <= i < written.assets.len() ==> (#[trigger] written.assets[i]).vault_key
                        == word_bytes(account.assets@[i].key) && written.assets[i].asset == Some(
                        asset_bytes(account.assets@[i]),
                    )
            },
            AccountUpdateDetails::Delta(delta) => {
                &&& written.code is None
                &&& written.account.nonce is Some
                &&& written.account.vault_root is Some
                &&& written.storage.len() == delta_entries(delta.storage.maps@).len()
                &&& forall|i: int|
                    0 <= i < written.storage.len() ==> {
                        let entry = delta_entries(delta.storage.maps@)[i];
                        &&& (#[trigger] written.storage[i]).slot_name == entry.slot_name
                        &&& written.storage[i].key == word_bytes(entry.key)
                        &&& written.storage[i].value == word_bytes(entry.value)
                    }
            },
        },
{
    let result = Ok::<WritesView, DatabaseError>(written);
    let root = choose|root: Result<Word, DatabaseError>| #[trigger]
        is_written_with_root(update, reads, block_num, root, result);
    assert(is_written_with_root(update, reads, block_num, root, result));
}

/// Nothing is written for an update that cannot be prepared, and nothing if the block that created the
/// account cannot be read. All other updates are written.
pub proof fn lemma_updates_that_are_written(
    update: BlockAccountUpdate,
    reads: AccountReads,
    block_num: BlockNumber,
    result: Result<WritesView, DatabaseError>,
)
    requires
        is_written_update(update, reads, block_num, result),
    ensures
        reads.created_at_block matches Some(raw) && (raw < 0 || raw > u32::MAX) ==> result is Err,
        update.details is Private && (reads.created_at_block matches Some(raw) ==> 0 <= raw
            <= u32::MAX) ==> result is Ok,
{
    let root = choose|root: Result<Word, DatabaseError>| #[trigger]
        is_written_with_root(update, reads, block_num, root, result);
    assert(is_written_with_root(update, reads, block_num, root, result));
}

/// The entries of a map are canonical and have different keys. The assets of a vault are assets with
/// different keys, and none of them is empty.
pub proof fn lemma_distinct_keys(entries: Seq<(Word, Word)>, assets: Seq<Asset>)
    ensures
        are_map_entries(entries) <==> {
            &&& forall|i: int|
                0 <= i < entries.len() ==> (#[trigger] entries[i]).0.is_canonical()
                    && entries[i].1.is_canonical()
            &&& forall|i: int, j: int|
                0 <= i < j < entries.len() ==> (#[trigger] entries[i]).0 != (
                #[trigger] entries[j]).0
        },
        are_distinct_assets(assets) <==> {
            &&& forall|i: int|
                0 <= i < assets.len() ==> is_asset(#[trigger] assets[i]) && assets[i].value != Word(
                    0,
                    0,
                    0,
                    0,
                )
            &&& forall|i: int, j: int|
                0 <= i < j < assets.len() ==> (#[trigger] assets[i]).key != (
                #[trigger] assets[j]).key
        },
{
    let pairs = asset_pairs(assets);
    assert(forall|i: int| 0 <= i < assets.len() ==> #[trigger] pairs[i].0 == assets[i].key);
    if forall|i: int, j: int|
        0 <= i < j < assets.len() ==> (#[trigger] assets[i]).key != (#[trigger] assets[j]).key {
        assert forall|i: int, j: int| 0 <= i < j < pairs.len() implies (#[trigger] pairs[i]).0 != (
        #[trigger] pairs[j]).0 by {
            assert(assets[i].key != assets[j].key);
        }
        assert(has_distinct_keys(pairs));
    }
    if has_distinct_keys(pairs) {
        assert forall|i: int, j: int| 0 <= i < j < assets.len() implies (#[trigger] assets[i]).key
            != (#[trigger] assets[j]).key by {
            assert(pairs[i].0 != pairs[j].0);
        }
    }
}

/// An update that a block can hold has a valid identifier. All words of its slots and entries are
/// canonical, no map and no vault of a new account holds a key twice, and what a change does to a vault
/// concerns assets: fungible ones by their keys, and whole non-fungible ones.
pub proof fn lemma_updates_of_blocks(update: BlockAccountUpdate)
    ensures
        is_account_update(update) <==> is_valid_account_id(update.account_id) && match update.details {
            AccountUpdateDetails::Private => true,
            AccountUpdateDetails::FullState(account) => {
                &&& are_distinct_assets(account.assets@)
                &&& forall|i: int|
                    0 <= i < account.slots@.len() ==> match (#[trigger] account.slots@[i]).content {
                        StorageSlotContent::SingleValue(value) => value.is_canonical(),
                        StorageSlotContent::MapEntries(entries) => are_map_entries(entries@),
                    }
            },
            AccountUpdateDetails::Delta(delta) => {
                &&& forall|i: int|
                    0 <= i < delta.storage.values@.len() ==> (
                    #[trigger] delta.storage.values@[i]).1.is_canonical()
                &&& forall|i: int, j: int|
                    0 <= i < delta.storage.maps@.len() && 0 <= j
                        < delta.storage.maps@[i].entries@.len() ==> (
                    #[trigger] delta.storage.maps@[i].entries@[j]).0.is_canonical()
                        && delta.storage.maps@[i].entries@[j].1.is_canonical()
                &&& forall|i: int|
                    0 <= i < delta.vault.fungible@.len() ==> {
                        let key = (#[trigger] delta.vault.fungible@[i]).0;
                        key.is_canonical() && is_vault_key(key) && is_fungible_faucet(
                            faucet_of_key(key),
                        )
                    }
                &&& forall|i: int|
                    0 <= i < delta.vault.non_fungible@.len() ==> {
                        let asset = (#[trigger] delta.vault.non_fungible@[i]).0;
                        is_asset(asset) && !is_fungible_faucet(faucet_of_key(asset.key))
                            && asset.value != Word(0, 0, 0, 0)
                    }
            },
        },
{
}

/// A vault key names a faucet by its last two elements, and says in the lowest byte of the suffix
/// whether callbacks are enabled. The value of a fungible asset is an amount, and the key of another
/// asset begins like its value.
pub proof fn lemma_assets(asset: Asset)
    ensures
        is_vault_key(asset.key) ==> (asset.key.2 % 256 == 0 || asset.key.2 % 256 == 1)
            && is_valid_account_id(
            AccountId { prefix: asset.key.3, suffix: (asset.key.2 - asset.key.2 % 256) as u64 },
        ),
        is_asset(asset) ==> asset.key.is_canonical() && asset.value.is_canonical() && is_vault_key(
            asset.key,
        ),
        is_asset(asset) && is_fungible_faucet(faucet_of_key(asset.key)) ==> asset.key.0 == 0
            && asset.key.1 == 0 && asset.value.0 <= 0x7fff_ffff_8000_0000 && asset.value.1 == 0
            && asset.value.2 == 0 && asset.value.3 == 0,
        is_asset(asset) && !is_fungible_faucet(faucet_of_key(asset.key)) ==> asset.key.0
            == asset.value.0 && asset.key.1 == asset.value.1,
        is_vault_key(asset.key) && asset.key.is_canonical() && is_fungible_faucet(
            faucet_of_key(asset.key),
        ) && asset.value.0 <= 0x7fff_ffff_8000_0000 && asset.value == Word(
            asset.value.0,
            0,
            0,
            0,
        ) ==> is_asset(asset),
{
}

/// The root of the vault that a change stores is that of the stored assets once the change was applied to
/// them. There is none if the assets do not make up a vault, or if the change cannot be applied.
pub proof fn lemma_roots_of_changed_vaults(
    delta: AccountDelta,
    reads: AccountReads,
    assets: Seq<Asset>,
)
    requires
        assets_of_rows(reads.assets@) == Ok::<Seq<Asset>, DatabaseError>(assets),
    ensures
        partial_vault_root(delta, reads) matches Ok(root) ==> {
            let before = pairs_by_key(asset_pairs(assets));
            &&& are_vault_assets(assets)
            &&& contents_after_delta(before, delta.vault) is Some
            &&& root == vault_root_of(contents_after_delta(before, delta.vault)->0)
        },
        partial_vault_root(delta, reads) matches Err(error) ==> error
            == DatabaseError::AssetVaultError,
        contents_after_delta(pairs_by_key(asset_pairs(assets)), delta.vault) is None
            ==> partial_vault_root(delta, reads) is Err,
        are_vault_assets(assets) && delta.vault.fungible@.len() == 0
            && delta.vault.non_fungible@.len() == 0 ==> partial_vault_root(delta, reads) == Ok::<
            Word,
            DatabaseError,
        >(vault_root_of(pairs_by_key(asset_pairs(assets)))),
{
}

// WHAT IS STORED
// ================================================================================================

/// A new account is stored whenever its slots make up a storage header, its maps fit into trees, its
/// vault has a root, and the header of its state hashes to the commitment of the block.
pub proof fn lemma_new_accounts_that_are_stored(
    update: BlockAccountUpdate,
    account: FullAccountState,
    root: Word,
    slots: Seq<SlotHeaderView>,
)
    requires
        slots.len() == account.slots@.len(),
        forall|i: int|
            0 <= i < slots.len() ==> {
                let slot = account.slots@[i];
                &&& (#[trigger] slots[i]).name == slot.name@
                &&& match slot.content {
                    StorageSlotContent::SingleValue(value) => slots[i].slot_type
                        == StorageSlotType::ValueSlot && slots[i].value == value,
                    StorageSlotContent::MapEntries(entries) => slots[i].slot_type
                        == StorageSlotType::MapSlot && slots[i].value == storage_map_root_of(
                        pairs_by_key(entries@),
                    ) && fits_map(pairs_by_key(entries@)),
                }
            },
        is_storage_header(slots),
        update.final_state_commitment == account_commitment_of(
            AccountHeader {
                id: update.account_id,
                nonce: account.nonce,
                vault_root: root,
                storage_commitment: storage_commitment_of(slots),
                code_commitment: account.code_commitment,
            },
        ),
    ensures
        full_update(update, account, Ok(root)) is Ok,
{
    assert(account.slots@.map_values(|slot: StorageSlot| slot_header(slot)) =~= slots);
    assert(fits_slots(account.slots@)) by {
        assert forall|i: int| 0 <= i < account.slots@.len() implies ((
        #[trigger] account.slots@[i]).content matches StorageSlotContent::MapEntries(entries)
            ==> fits_map(pairs_by_key(entries@))) by {
            assert(slots[i].name == account.slots@[i].name@);
        }
    }
}

/// A change is stored whenever the stored state can be read, the new balances are amounts, the changed
/// maps fit into trees, the nonce does not overflow, and the header of the changed state hashes to the
/// commitment of the block.
pub proof fn lemma_changes_that_are_stored(
    update: BlockAccountUpdate,
    delta: AccountDelta,
    reads: AccountReads,
    root: Word,
    slots: Seq<SlotHeaderView>,
    nonce: u64,
)
    requires
        headers_of_row(update.account_id, reads.headers) is Ok,
        balances_of_rows(faucets_of_changes(delta.vault.fungible@), reads.balances@) is Ok,
        pending_fungible(
            balances_of_rows(faucets_of_changes(delta.vault.fungible@), reads.balances@)->Ok_0,
            delta.vault.fungible@,
        ) is Ok,
        changed_maps(delta.storage, reads.map_entries@) is Ok,
        fits_changes(
            headers_of_row(update.account_id, reads.headers)->Ok_0.storage_header,
            delta.storage,
            changed_maps(delta.storage, reads.map_entries@)->Ok_0,
        ),
        slots == slots_after(
            headers_of_row(update.account_id, reads.headers)->Ok_0.storage_header,
            delta.storage,
            changed_maps(delta.storage, reads.map_entries@)->Ok_0,
        ),
        is_storage_header(slots),
        assets_of_rows(reads.assets@) is Ok,
        nonce_after(
            headers_of_row(update.account_id, reads.headers)->Ok_0.nonce,
            delta.nonce_delta,
        ) == Some(nonce),
        update.final_state_commitment == account_commitment_of(
            AccountHeader {
                id: update.account_id,
                nonce,
                vault_root: root,
                storage_commitment: storage_commitment_of(slots),
                code_commitment: headers_of_row(
                    update.account_id,
                    reads.headers,
                )->Ok_0.code_commitment,
            },
        ),
    ensures
        partial_update(update, delta, reads, Ok(root)) is Ok,
{
}

proof fn lemma_fits_update(
    deltas: Seq<MapDelta>,
    maps: vstd::map::Map<Seq<char>, vstd::map::Map<Word, Word>>,
    name: Seq<char>,
)
    requires
        forall|m: int|
            0 <= m < deltas.len() && (#[trigger] deltas[m]).entries@.len() > 0 ==> fits_map(
                map_after(slot_map(maps, deltas[m].slot_name@), deltas[m].entries@),
            ),
    ensures
        fits_update(deltas, maps, name),
    decreases deltas.len(),
{
    if deltas.len() > 0 {
        let before = deltas.drop_last();
        assert forall|m: int|
            0 <= m < before.len() && (#[trigger] before[m]).entries@.len() > 0 implies fits_map(
            map_after(slot_map(maps, before[m].slot_name@), before[m].entries@),
        ) by {
            assert(deltas[m].entries@.len() > 0);
        }
        lemma_fits_update(before, maps, name);
        if deltas.last().entries@.len() > 0 {
            assert(deltas[deltas.len() - 1].entries@.len() > 0);
        }
    }
}

/// The changes of an account's storage fit whenever each map fits into a tree once its entries were
/// changed. Changes without map entries always fit.
pub proof fn lemma_storage_changes_that_fit(
    slots: Seq<SlotHeaderView>,
    delta: StorageDelta,
    maps: vstd::map::Map<Seq<char>, vstd::map::Map<Word, Word>>,
)
    requires
        forall|m: int|
            0 <= m < delta.maps@.len() && (#[trigger] delta.maps@[m]).entries@.len() > 0
                ==> fits_map(
                map_after(slot_map(maps, delta.maps@[m].slot_name@), delta.maps@[m].entries@),
            ),
    ensures
        fits_changes(slots, delta, maps),
{
    assert forall|i: int|
        0 <= i < slots.len() && value_update(
            delta.values@,
            (#[trigger] slots[i]).name,
        ) is None implies fits_update(delta.maps@, maps, slots[i].name) by {
        lemma_fits_update(delta.maps@, maps, slots[i].name);
    }
}

proof fn lemma_small_leaves(contents: vstd::map::Map<Word, Word>, key: Word)
    requires
        contents.dom().finite(),
        contents.dom().len() < 1024,
    ensures
        has_room(contents, key),
{
    let leaf = contents.dom().filter(|other: Word| other.3 == key.3);
    vstd::set_lib::lemma_len_subset(leaf, contents.dom());
}

proof fn lemma_fungible_room(contents: vstd::map::Map<Word, Word>, fungible: Seq<(Word, i64)>)
    requires
        contents.dom().finite(),
        contents.dom().len() + fungible.len() <= 1024,
    ensures
        fungible_fits(contents, fungible),
        contents_after_fungible(contents, fungible) matches Some(after) ==> after.dom().finite()
            && after.dom().len() <= contents.dom().len() + fungible.len(),
    decreases fungible.len(),
{
    if fungible.len() > 0 {
        lemma_fungible_room(contents, fungible.drop_last());
        if contents_after_fungible(contents, fungible.drop_last()) is Some {
            let before = contents_after_fungible(contents, fungible.drop_last())->0;
            let key = fungible.last().0;
            lemma_small_leaves(before, key);
            assert(before.remove(key).dom() =~= before.dom().remove(key));
            assert(forall|value: Word| #[trigger]
                before.insert(key, value).dom() =~= before.dom().insert(key));
        }
    }
}

proof fn lemma_non_fungible_room(
    contents: vstd::map::Map<Word, Word>,
    non_fungible: Seq<(Asset, bool)>,
)
    requires
        contents.dom().finite(),
        contents.dom().len() + non_fungible.len() <= 1024,
    ensures
        non_fungible_fits(contents, non_fungible),
        contents_after_non_fungible(contents, non_fungible) matches Some(after)
            ==> after.dom().finite() && after.dom().len() <= contents.dom().len()
            + non_fungible.len(),
    decreases non_fungible.len(),
{
    if non_fungible.len() > 0 {
        lemma_non_fungible_room(contents, non_fungible.drop_last());
        if contents_after_non_fungible(contents, non_fungible.drop_last()) is Some {
            let before = contents_after_non_fungible(contents, non_fungible.drop_last())->0;
            let key = non_fungible.last().0.key;
            lemma_small_leaves(before, key);
            assert(before.remove(key).dom() =~= before.dom().remove(key));
            assert(forall|value: Word| #[trigger]
                before.insert(key, value).dom() =~= before.dom().insert(key));
        }
    }
}

/// A change of a vault that can be applied has a root if the vault has no more than 1024 assets even if
/// all assets of the change are new.
pub proof fn lemma_small_vaults_can_be_changed(assets: Seq<Asset>, delta: VaultDelta)
    requires
        are_vault_assets(assets),
        pairs_by_key(asset_pairs(assets)).dom().finite(),
        pairs_by_key(asset_pairs(assets)).dom().len() + delta.fungible@.len()
            + delta.non_fungible@.len() <= 1024,
        contents_after_delta(pairs_by_key(asset_pairs(assets)), delta) is Some,
    ensures
        vault_root_after(assets, delta) is Ok,
{
    let contents = pairs_by_key(asset_pairs(assets));
    lemma_fungible_room(contents, delta.fungible@);
    let middle = contents_after_fungible(contents, delta.fungible@)->0;
    lemma_non_fungible_room(middle, delta.non_fungible@);
}

} // verus!
