//! The checks that an update of an account is one that a block can hold.

use vstd::prelude::*;

use crate::db::delta::{
    check_fungible_faucet, faucet_id_of_key, has_canonical_updates, is_canonical_delta,
    is_vault_delta, StorageDelta, VaultDelta,
};
use crate::db::updates::{
    is_account_update, is_full_state, is_slot_content, AccountUpdateDetails, BlockAccountUpdate,
    FullAccountState, StorageSlotContent,
};
use crate::protocol::{
    are_distinct_assets, are_map_entries, asset_pairs, check_account_id, check_vault_key,
    faucet_of_key, is_asset, is_fungible_faucet, is_vault_key, MAX_FUNGIBLE_AMOUNT,
};
use crate::state::account::Asset;
use crate::word::Word;

verus! {

/// Returns whether key and value make up an asset.
pub fn check_asset(asset: Asset) -> (r: bool)
    ensures
        r == is_asset(asset),
{
    if !asset.key.check_canonical() || !asset.value.check_canonical() || !check_vault_key(
        asset.key,
    ) {
        return false;
    }
    if check_fungible_faucet(faucet_id_of_key(asset.key)) {
        asset.value.0 <= MAX_FUNGIBLE_AMOUNT && asset.value.1 == 0 && asset.value.2 == 0
            && asset.value.3 == 0
    } else {
        asset.key.0 == asset.value.0 && asset.key.1 == asset.value.1
    }
}

/// Returns whether all are assets, none of them empty and no two with the same key.
pub fn check_distinct_assets(assets: &Vec<Asset>) -> (r: bool)
    ensures
        r == are_distinct_assets(assets@),
{
    let ghost pairs = asset_pairs(assets@);
    let mut i: usize = 0;
    while i < assets.len()
        invariant
            i <= assets@.len(),
            pairs == asset_pairs(assets@),
            forall|k: int|
                0 <= k < i ==> is_asset(#[trigger] assets@[k]) && assets@[k].value
                    != Word::empty(),
            forall|j: int, k: int|
                0 <= j < k < i ==> (#[trigger] pairs[j]).0 != (#[trigger] pairs[k]).0,
        decreases assets@.len() - i,
    {
        let asset = assets[i];
        if !check_asset(asset) || asset.value == Word(0, 0, 0, 0) {
            assert(!is_asset(assets@[i as int]) || assets@[i as int].value == Word::empty());
            return false;
        }
        let mut j: usize = 0;
        while j < i
            invariant
                j <= i < assets@.len(),
                pairs == asset_pairs(assets@),
                asset == assets@[i as int],
                forall|k: int| 0 <= k < j ==> (#[trigger] pairs[k]).0 != asset.key,
            decreases i - j,
        {
            if assets[j].key == asset.key {
                assert(pairs[j as int].0 == pairs[i as int].0);
                return false;
            }
            j = j + 1;
        }
        i = i + 1;
    }
    true
}

/// Returns whether entries are canonical, no two with the same key.
pub fn check_map_entries(entries: &Vec<(Word, Word)>) -> (r: bool)
    ensures
        r == are_map_entries(entries@),
{
    let mut i: usize = 0;
    while i < entries.len()
        invariant
            i <= entries@.len(),
            forall|k: int|
                0 <= k < i ==> (#[trigger] entries@[k]).0.is_canonical()
                    && entries@[k].1.is_canonical(),
            forall|j: int, k: int|
                0 <= j < k < i ==> (#[trigger] entries@[j]).0 != (#[trigger] entries@[k]).0,
        decreases entries@.len() - i,
    {
        let (key, value) = entries[i];
        if !key.check_canonical() || !value.check_canonical() {
            assert(!entries@[i as int].0.is_canonical() || !entries@[i as int].1.is_canonical());
            return false;
        }
        let mut j: usize = 0;
        while j < i
            invariant
                j <= i < entries@.len(),
                key == entries@[i as int].0,
                forall|k: int| 0 <= k < j ==> (#[trigger] entries@[k]).0 != key,
            decreases i - j,
        {
            if entries[j].0 == key {
                assert(entries@[j as int].0 == entries@[i as int].0);
                return false;
            }
            j = j + 1;
        }
        i = i + 1;
    }
    true
}

/// Returns whether a full state is that of an account.
pub fn check_full_state(account: &FullAccountState) -> (r: bool)
    ensures
        r == is_full_state(*account),
{
    let mut i: usize = 0;
    while i < account.slots.len()
        invariant
            i <= account.slots@.len(),
            forall|k: int|
                0 <= k < i ==> is_slot_content((#[trigger] account.slots@[k]).content),
        decreases account.slots@.len() - i,
    {
        let is_content = match &account.slots[i].content {
            StorageSlotContent::SingleValue(value) => value.check_canonical(),
            StorageSlotContent::MapEntries(entries) => check_map_entries(entries),
        };
        if !is_content {
            assert(!is_slot_content(account.slots@[i as int].content));
            return false;
        }
        i = i + 1;
    }
    check_distinct_assets(&account.assets)
}

/// Returns whether all words of a storage delta are canonical.
pub fn check_storage_delta(delta: &StorageDelta) -> (r: bool)
    ensures
        r == is_canonical_delta(*delta),
{
    let mut i: usize = 0;
    while i < delta.values.len()
        invariant
            i <= delta.values@.len(),
            forall|k: int| 0 <= k < i ==> (#[trigger] delta.values@[k]).1.is_canonical(),
        decreases delta.values@.len() - i,
    {
        if !delta.values[i].1.check_canonical() {
            assert(!delta.values@[i as int].1.is_canonical());
            return false;
        }
        i = i + 1;
    }
    let mut m: usize = 0;
    while m < delta.maps.len()
        invariant
            m <= delta.maps@.len(),
            has_canonical_updates(delta.values@),
            forall|k: int, j: int|
                0 <= k < m && 0 <= j < delta.maps@[k].entries@.len() ==> (
                #[trigger] delta.maps@[k].entries@[j]).0.is_canonical()
                    && delta.maps@[k].entries@[j].1.is_canonical(),
        decreases delta.maps@.len() - m,
    {
        let entries = &delta.maps[m].entries;
        let mut j: usize = 0;
        while j < entries.len()
            invariant
                j <= entries@.len(),
                m < delta.maps@.len(),
                entries == delta.maps@[m as int].entries,
                forall|k: int|
                    0 <= k < j ==> (#[trigger] entries@[k]).0.is_canonical()
                        && entries@[k].1.is_canonical(),
            decreases entries@.len() - j,
        {
            if !entries[j].0.check_canonical() || !entries[j].1.check_canonical() {
                assert(!delta.maps@[m as int].entries@[j as int].0.is_canonical()
                    || !delta.maps@[m as int].entries@[j as int].1.is_canonical());
                return false;
            }
            j = j + 1;
        }
        m = m + 1;
    }
    true
}

/// Returns whether the changes of a vault are changes of assets.
pub fn check_vault_delta(delta: &VaultDelta) -> (r: bool)
    ensures
        r == is_vault_delta(*delta),
{
    let mut i: usize = 0;
    while i < delta.fungible.len()
        invariant
            i <= delta.fungible@.len(),
            forall|k: int|
                0 <= k < i ==> {
                    let key = (#[trigger] delta.fungible@[k]).0;
                    key.is_canonical() && is_vault_key(key) && is_fungible_faucet(
                        faucet_of_key(key),
                    )
                },
        decreases delta.fungible@.len() - i,
    {
        let key = delta.fungible[i].0;
        assert(key == delta.fungible@[i as int].0);
        if !key.check_canonical() || !check_vault_key(key) || !check_fungible_faucet(
            faucet_id_of_key(key),
        ) {
            return false;
        }
        i = i + 1;
    }
    let mut j: usize = 0;
    while j < delta.non_fungible.len()
        invariant
            j <= delta.non_fungible@.len(),
            forall|k: int|
                0 <= k < j ==> {
                    let asset = (#[trigger] delta.non_fungible@[k]).0;
                    is_asset(asset) && !is_fungible_faucet(faucet_of_key(asset.key)) && asset.value
                        != Word::empty()
                },
            forall|k: int|
                0 <= k < delta.fungible@.len() ==> {
                    let key = (#[trigger] delta.fungible@[k]).0;
                    key.is_canonical() && is_vault_key(key) && is_fungible_faucet(
                        faucet_of_key(key),
                    )
                },
        decreases delta.non_fungible@.len() - j,
    {
        let asset = delta.non_fungible[j].0;
        assert(asset == delta.non_fungible@[j as int].0);
        if !check_asset(asset) || check_fungible_faucet(faucet_id_of_key(asset.key)) || asset.value
            == Word(0, 0, 0, 0) {
            return false;
        }
        j = j + 1;
    }
    true
}

/// Returns whether an update is one that a block can hold.
pub fn check_account_update(update: &BlockAccountUpdate) -> (r: bool)
    ensures
        r == is_account_update(*update),
{
    if !check_account_id(update.account_id) {
        return false;
    }
    match &update.details {
        AccountUpdateDetails::Private => true,
        AccountUpdateDetails::FullState(account) => check_full_state(account),
        AccountUpdateDetails::Delta(delta) => check_storage_delta(&delta.storage)
            && check_vault_delta(&delta.vault),
    }
}

} // verus!
