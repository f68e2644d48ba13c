//! Laws on what the forest takes, finds and forgets.

use vstd::prelude::*;
use vstd::utf8::encode_utf8;

use crate::account_id::AccountId;
use crate::account_state_forest::forest::{update_error, AccountStateForestError};
use crate::account_state_forest::laws::{
    lemma_changed_maps_keep_others, lemma_new_maps_keep_others, names_map, names_slot, same_tree,
};
use crate::account_state_forest::model::{
    changed_since, delta_keys, entry_keys, fits_account, fits_accounts, fits_maps, hashed_entries,
    latest_contents, map_lineage, retention_start, tree_at, vault_lineage, with_account,
    with_account_keys, with_accounts, with_accounts_keys, with_changed_maps, with_changed_vault,
    with_delta_keys, with_key, with_keys, with_new_maps, with_new_tree, with_slot_keys,
    without_hash, KnownKeys, Trees,
};
use crate::block_number::BlockNumber;
use crate::db::delta::{contents_after_delta, map_after, MapDelta};
use crate::db::updates::{
    AccountDelta, AccountUpdateDetails, BlockAccountUpdate, FullAccountState, StorageSlot,
    StorageSlotContent,
};
use crate::protocol::{account_id_bytes, asset_keys, asset_pairs};
use crate::smt_forest::{
    blake3_of, contents_at, count_trees, count_with_last_element, fits_tree, has_ascending_versions,
    is_proof, leaf_len, map_key_hash_of, smt_proof_of, truncated, truncated_trees, TreeVersion,
};
use crate::word::Word;

verus! {

// STATES
// ================================================================================================

/// What a tree holds at a version is what it held when it changed last, no later than that version.
/// Nothing is known of versions before the first one that is kept.
pub proof fn lemma_latest_change_counts(versions: Seq<TreeVersion>, version: u64)
    requires
        has_ascending_versions(versions),
    ensures
        contents_at(versions, version) is None <==> forall|i: int|
            0 <= i < versions.len() ==> (#[trigger] versions[i]).version > version,
        forall|i: int|
            0 <= i < versions.len() && (#[trigger] versions[i]).version <= version && (forall|j: int|
                i < j < versions.len() ==> (#[trigger] versions[j]).version > version)
                ==> contents_at(versions, version) == Some(versions[i].contents),
    decreases versions.len(),
{
    if versions.len() > 0 {
        let before = versions.drop_last();
        let last = versions.len() - 1;
        assert forall|i: int, j: int| 0 <= i < j < before.len() implies (
        #[trigger] before[i]).version < (#[trigger] before[j]).version by {
            assert(versions[i].version < versions[j].version);
        }
        lemma_latest_change_counts(before, version);
        assert(versions[last] == versions.last());
        if versions.last().version > version {
            assert forall|i: int|
                0 <= i < versions.len() && (#[trigger] versions[i]).version <= version && (forall|
                    j: int,
                |
                    i < j < versions.len() ==> (
                    #[trigger] versions[j]).version > version) implies contents_at(versions, version)
                == Some(versions[i].contents) by {
                assert(i < last);
                assert(before[i] == versions[i]);
                assert forall|j: int| i < j < before.len() implies (
                #[trigger] before[j]).version > version by {
                    assert(versions[j].version > version);
                }
            }
            if contents_at(before, version) is None {
                assert forall|i: int| 0 <= i < versions.len() implies (
                #[trigger] versions[i]).version > version by {
                    if i < last {
                        assert(before[i].version > version);
                    }
                }
            } else {
                let i = choose|i: int|
                    0 <= i < before.len() && (#[trigger] before[i]).version <= version;
                assert(versions[i].version <= version);
            }
        }
    }
}

/// A state is found at a block as the tree of the account's vault or map has it.
pub proof fn lemma_states_at_blocks(trees: Trees, lineage: Seq<u8>, block_num: BlockNumber)
    ensures
        !trees.contains_key(lineage) ==> tree_at(trees, lineage, block_num) is None,
        trees.contains_key(lineage) ==> tree_at(trees, lineage, block_num) == contents_at(
            trees[lineage],
            block_num.0 as u64,
        ),
        changed_since(trees, lineage, block_num) is None <==> trees[lineage].last().version
            <= block_num.0,
        changed_since(trees, lineage, block_num) matches Some(now) ==> now
            == trees[lineage].last().contents,
{
}

/// The tree of an account's vault is named after the account, and the tree of a storage map after the
/// account and the slot.
pub proof fn lemma_names_of_trees(account_id: AccountId, slot_name: Seq<char>)
    ensures
        vault_lineage(account_id) == blake3_of(account_id_bytes(account_id)),
        map_lineage(account_id, slot_name) == blake3_of(
            account_id_bytes(account_id) + encode_utf8(slot_name),
        ),
{
}

/// The proof of a key of a tree that was not changed since is the one that the tree gives for the key.
pub proof fn lemma_proofs_of_latest_states(
    proof: Seq<u8>,
    contents: vstd::map::Map<Word, Word>,
    key: Word,
)
    requires
        is_proof(proof, contents, key, None),
    ensures
        proof == smt_proof_of(contents, key),
{
}

// PRUNING
// ================================================================================================

/// The states of the last 50 blocks are kept.
pub proof fn lemma_retained_blocks(chain_tip: BlockNumber)
    ensures
        chain_tip.0 >= 50 ==> retention_start(chain_tip).0 == chain_tip.0 - 50,
        chain_tip.0 < 50 ==> retention_start(chain_tip).0 == 0,
{
}

/// Pruning removes what is no longer needed: of the versions of a tree that are not later than the first
/// block that is kept, only the last one stays.
pub proof fn lemma_pruning_removes_old_versions(versions: Seq<TreeVersion>, cutoff: u64)
    requires
        has_ascending_versions(versions),
    ensures
        forall|i: int|
            1 <= i < truncated(versions, cutoff).len() ==> (#[trigger] truncated(
                versions,
                cutoff,
            )[i]).version > cutoff,
        forall|i: int|
            0 <= i < versions.len() && (#[trigger] versions[i]).version > cutoff ==> truncated(
                versions,
                cutoff,
            ).contains(versions[i]),
    decreases versions.len(),
{
    if versions.len() >= 2 && versions[1].version <= cutoff {
        let rest = versions.drop_first();
        assert forall|i: int, j: int| 0 <= i < j < rest.len() implies (#[trigger] rest[i]).version
            < (#[trigger] rest[j]).version by {
            assert(versions[i + 1].version < versions[j + 1].version);
        }
        lemma_pruning_removes_old_versions(rest, cutoff);
        assert(truncated(versions, cutoff) == truncated(rest, cutoff));
        assert forall|i: int|
            0 <= i < versions.len() && (
            #[trigger] versions[i]).version > cutoff implies truncated(versions, cutoff).contains(
            versions[i],
        ) by {
            if i == 0 {
                assert(versions[0].version < versions[1].version);
            } else {
                assert(rest[i - 1] == versions[i]);
            }
        }
    } else {
        assert(truncated(versions, cutoff) == versions);
        assert forall|i: int| 1 <= i < versions.len() implies (
        #[trigger] truncated(versions, cutoff)[i]).version > cutoff by {
            if i > 1 {
                assert(versions[1].version < versions[i].version);
            }
        }
    }
}

/// Pruning treats all trees alike, and removes none.
pub proof fn lemma_pruning_removes_no_tree(trees: Trees, cutoff: u64)
    ensures
        truncated_trees(trees, cutoff).dom() == trees.dom(),
        forall|lineage: Seq<u8>| #[trigger]
            trees.contains_key(lineage) ==> truncated_trees(trees, cutoff)[lineage] == truncated(
                trees[lineage],
                cutoff,
            ),
{
}

/// The number of versions of all trees is that of one tree and that of all others.
pub proof fn lemma_trees_are_counted_one_by_one(trees: Trees, lineage: Seq<u8>)
    requires
        trees.dom().finite(),
        trees.contains_key(lineage),
    ensures
        count_trees(trees) == trees[lineage].len() + count_trees(trees.remove(lineage)),
        count_trees(vstd::map::Map::empty()) == 0,
    decreases trees.dom().len(),
{
    let first = trees.dom().choose();
    assert(trees.dom().contains(lineage));
    assert(trees.dom().len() > 0) by {
        if trees.dom().len() == 0 {
            assert(trees.dom() =~= Set::empty());
        }
    }
    assert(trees.dom().contains(first));
    if first != lineage {
        let rest = trees.remove(first);
        assert(rest.dom() =~= trees.dom().remove(first));
        lemma_trees_are_counted_one_by_one(rest, lineage);
        let other = trees.remove(lineage);
        assert(other.dom() =~= trees.dom().remove(lineage));
        lemma_trees_are_counted_one_by_one(other, first);
        assert(rest.remove(lineage) =~= other.remove(first));
        assert(rest[lineage] == trees[lineage]);
        assert(other[first] == trees[first]);
    }
}

// UPDATES
// ================================================================================================

/// The maps of a new account are found in the forest from its block on, each with its entries under the
/// hashes of their keys.
pub proof fn lemma_new_map_is_found(
    trees: Trees,
    block_num: BlockNumber,
    update: BlockAccountUpdate,
    account: FullAccountState,
    position: int,
    later: BlockNumber,
)
    requires
        update.details == AccountUpdateDetails::FullState(account),
        0 <= position < account.slots@.len(),
        account.slots@[position].content is MapEntries,
        later.0 >= block_num.0,
    ensures
        with_account(trees, block_num, update) matches Some(after) ==> tree_at(
            after,
            map_lineage(update.account_id, account.slots@[position].name@),
            later,
        ) == Some(
            map_after(
                vstd::map::Map::empty(),
                hashed_entries(account.slots@[position].content->MapEntries_0@),
            ),
        ),
{
    let id = update.account_id;
    if with_account(trees, block_num, update) is Some {
        let with_vault = with_new_tree(
            trees,
            vault_lineage(id),
            block_num,
            asset_pairs(account.assets@),
        )->0;
        lemma_new_maps_are_found(with_vault, id, block_num, account.slots@, position, later);
    }
}

proof fn lemma_new_maps_are_found(
    trees: Trees,
    account_id: AccountId,
    block_num: BlockNumber,
    slots: Seq<StorageSlot>,
    position: int,
    later: BlockNumber,
)
    requires
        0 <= position < slots.len(),
        slots[position].content is MapEntries,
        later.0 >= block_num.0,
    ensures
        with_new_maps(trees, account_id, block_num, slots) matches Some(after) ==> tree_at(
            after,
            map_lineage(account_id, slots[position].name@),
            later,
        ) == Some(
            map_after(
                vstd::map::Map::empty(),
                hashed_entries(slots[position].content->MapEntries_0@),
            ),
        ),
    decreases slots.len(),
{
    let before = slots.drop_last();
    if position < slots.len() - 1 {
        lemma_new_maps_are_found(trees, account_id, block_num, before, position, later);
    }
}

/// A new account is taken if the forest holds none of its trees, and its vault and maps have different
/// names.
pub proof fn lemma_new_accounts_are_taken(
    trees: Trees,
    block_num: BlockNumber,
    update: BlockAccountUpdate,
    account: FullAccountState,
)
    requires
        update.details == AccountUpdateDetails::FullState(account),
        !trees.contains_key(vault_lineage(update.account_id)),
        forall|i: int|
            0 <= i < account.slots@.len() ==> {
                let lineage = map_lineage(
                    update.account_id,
                    (#[trigger] account.slots@[i]).name@,
                );
                !trees.contains_key(lineage) && lineage != vault_lineage(update.account_id)
            },
        forall|i: int, j: int|
            0 <= i < j < account.slots@.len() ==> map_lineage(
                update.account_id,
                (#[trigger] account.slots@[i]).name@,
            ) != map_lineage(update.account_id, (#[trigger] account.slots@[j]).name@),
    ensures
        with_account(trees, block_num, update) is Some,
{
    let id = update.account_id;
    let with_vault = with_new_tree(
        trees,
        vault_lineage(id),
        block_num,
        asset_pairs(account.assets@),
    )->0;
    lemma_new_maps_are_taken(with_vault, id, block_num, account.slots@);
}

proof fn lemma_new_maps_are_taken(
    trees: Trees,
    account_id: AccountId,
    block_num: BlockNumber,
    slots: Seq<StorageSlot>,
)
    requires
        forall|i: int|
            0 <= i < slots.len() ==> !trees.contains_key(
                map_lineage(account_id, (#[trigger] slots[i]).name@),
            ),
        forall|i: int, j: int|
            0 <= i < j < slots.len() ==> map_lineage(account_id, (#[trigger] slots[i]).name@)
                != map_lineage(account_id, (#[trigger] slots[j]).name@),
    ensures
        with_new_maps(trees, account_id, block_num, slots) is Some,
    decreases slots.len(),
{
    if slots.len() > 0 {
        let before = slots.drop_last();
        let last = slots.len() - 1;
        assert forall|i: int| 0 <= i < before.len() implies !trees.contains_key(
            map_lineage(account_id, (#[trigger] before[i]).name@),
        ) by {
            assert(before[i] == slots[i]);
        }
        assert forall|i: int, j: int| 0 <= i < j < before.len() implies map_lineage(
            account_id,
            (#[trigger] before[i]).name@,
        ) != map_lineage(account_id, (#[trigger] before[j]).name@) by {
            assert(before[i] == slots[i] && before[j] == slots[j]);
        }
        lemma_new_maps_are_taken(trees, account_id, block_num, before);
        let lineage = map_lineage(account_id, slots[last].name@);
        assert(!names_slot(account_id, before, lineage)) by {
            if names_slot(account_id, before, lineage) {
                let i = choose|i: int|
                    0 <= i < before.len() && map_lineage(account_id, (#[trigger] before[i]).name@)
                        == lineage;
                assert(before[i] == slots[i]);
            }
        }
        lemma_new_maps_keep_others(trees, account_id, block_num, before, lineage);
    }
}

/// A change of an account is taken if it can be applied to the vault, and the vault and the maps that it
/// changes, which have different names, changed at earlier blocks only.
pub proof fn lemma_changes_are_taken(
    trees: Trees,
    block_num: BlockNumber,
    update: BlockAccountUpdate,
    delta: AccountDelta,
)
    requires
        update.details == AccountUpdateDetails::Delta(delta),
        contents_after_delta(
            latest_contents(trees, vault_lineage(update.account_id)),
            delta.vault,
        ) is Some,
        trees.contains_key(vault_lineage(update.account_id)) ==> trees[vault_lineage(
            update.account_id,
        )].last().version < block_num.0,
        forall|i: int|
            0 <= i < delta.storage.maps@.len() ==> {
                let lineage = map_lineage(
                    update.account_id,
                    (#[trigger] delta.storage.maps@[i]).slot_name@,
                );
                &&& lineage != vault_lineage(update.account_id)
                &&& trees.contains_key(lineage) ==> trees[lineage].last().version < block_num.0
            },
        forall|i: int, j: int|
            0 <= i < j < delta.storage.maps@.len() ==> map_lineage(
                update.account_id,
                (#[trigger] delta.storage.maps@[i]).slot_name@,
            ) != map_lineage(
                update.account_id,
                (#[trigger] delta.storage.maps@[j]).slot_name@,
            ),
    ensures
        with_account(trees, block_num, update) is Some,
{
    let id = update.account_id;
    let with_vault = with_changed_vault(trees, id, block_num, delta.vault)->0;
    assert forall|i: int| 0 <= i < delta.storage.maps@.len() implies {
        let lineage = map_lineage(id, (#[trigger] delta.storage.maps@[i]).slot_name@);
        with_vault.contains_key(lineage) ==> with_vault[lineage].last().version < block_num.0
    } by {
        let lineage = map_lineage(id, delta.storage.maps@[i].slot_name@);
        assert(lineage != vault_lineage(id));
    }
    lemma_changed_maps_are_taken(with_vault, id, block_num, delta.storage.maps@);
}

proof fn lemma_changed_maps_are_taken(
    trees: Trees,
    account_id: AccountId,
    block_num: BlockNumber,
    maps: Seq<MapDelta>,
)
    requires
        forall|i: int|
            0 <= i < maps.len() ==> {
                let lineage = map_lineage(account_id, (#[trigger] maps[i]).slot_name@);
                trees.contains_key(lineage) ==> trees[lineage].last().version < block_num.0
            },
        forall|i: int, j: int|
            0 <= i < j < maps.len() ==> map_lineage(account_id, (#[trigger] maps[i]).slot_name@)
                != map_lineage(account_id, (#[trigger] maps[j]).slot_name@),
    ensures
        with_changed_maps(trees, account_id, block_num, maps) is Some,
    decreases maps.len(),
{
    if maps.len() > 0 {
        let before = maps.drop_last();
        let last = maps.len() - 1;
        assert forall|i: int| 0 <= i < before.len() implies {
            let lineage = map_lineage(account_id, (#[trigger] before[i]).slot_name@);
            trees.contains_key(lineage) ==> trees[lineage].last().version < block_num.0
        } by {
            assert(before[i] == maps[i]);
        }
        assert forall|i: int, j: int| 0 <= i < j < before.len() implies map_lineage(
            account_id,
            (#[trigger] before[i]).slot_name@,
        ) != map_lineage(account_id, (#[trigger] before[j]).slot_name@) by {
            assert(before[i] == maps[i] && before[j] == maps[j]);
        }
        lemma_changed_maps_are_taken(trees, account_id, block_num, before);
        let lineage = map_lineage(account_id, maps[last].slot_name@);
        assert(!names_map(account_id, before, lineage)) by {
            if names_map(account_id, before, lineage) {
                let i = choose|i: int|
                    0 <= i < before.len() && map_lineage(
                        account_id,
                        (#[trigger] before[i]).slot_name@,
                    ) == lineage;
                assert(before[i] == maps[i]);
            }
        }
        lemma_changed_maps_keep_others(trees, account_id, block_num, before, lineage);
        let middle = with_changed_maps(trees, account_id, block_num, before)->0;
        assert(same_tree(trees, middle, lineage));
    }
}

/// The update of a private account changes nothing and is always taken. The updates of a block are
/// applied one after the other, and one that cannot be applied stops those after it.
pub proof fn lemma_updates_are_applied_in_order(
    trees: Trees,
    keys: KnownKeys,
    block_num: BlockNumber,
    updates: Seq<BlockAccountUpdate>,
    update: BlockAccountUpdate,
)
    ensures
        update.details is Private ==> with_account(trees, block_num, update) == Some(trees)
            && with_account_keys(keys, update) == keys && fits_account(trees, block_num, update),
        with_accounts(trees, block_num, Seq::empty()) == Some(trees),
        with_accounts(trees, block_num, updates) is None ==> with_accounts(
            trees,
            block_num,
            updates.push(update),
        ) is None,
        with_accounts(trees, block_num, updates) matches Some(before) ==> with_accounts(
            trees,
            block_num,
            updates.push(update),
        ) == with_account(before, block_num, update),
        with_accounts_keys(keys, updates.push(update)) == with_account_keys(
            with_accounts_keys(keys, updates),
            update,
        ),
        fits_accounts(trees, block_num, updates.push(update)) <==> fits_accounts(
            trees,
            block_num,
            updates,
        ) && (with_accounts(trees, block_num, updates) matches Some(before) ==> fits_account(
            before,
            block_num,
            update,
        )),
{
    assert(updates.push(update).drop_last() =~= updates);
}

/// An update that fails names its account. It is a new account that is there already, or a change that
/// cannot be applied to the vault, or one that comes too late or does not fit.
pub proof fn lemma_errors_of_updates(trees: Trees, update: BlockAccountUpdate)
    ensures
        !(update.details is Delta) ==> update_error(trees, update)
            == AccountStateForestError::AccountExists(update.account_id),
        update.details matches AccountUpdateDetails::Delta(delta) ==> update_error(trees, update)
            == (if contents_after_delta(
            latest_contents(trees, vault_lineage(update.account_id)),
            delta.vault,
        ) is None {
            AccountStateForestError::InvalidVaultDelta(update.account_id)
        } else {
            AccountStateForestError::UpdateRefused(update.account_id)
        }),
{
}

// ROOM
// ================================================================================================

proof fn lemma_counted_keys(keys: Seq<Word>, element: u64)
    ensures
        count_with_last_element(keys, element) <= keys.len(),
    decreases keys.len(),
{
    if keys.len() > 0 {
        lemma_counted_keys(keys.drop_last(), element);
    }
}

/// A tree takes changes of keys if it has no more than 1024 entries even if all of the keys are new.
pub proof fn lemma_small_trees_fit(contents: vstd::map::Map<Word, Word>, keys: Seq<Word>)
    requires
        contents.dom().finite(),
        contents.dom().len() + keys.len() <= 1024,
    ensures
        fits_tree(contents, keys),
{
    assert forall|i: int| 0 <= i < keys.len() implies ({
        let element = (#[trigger] keys[i]).3;
        leaf_len(contents, element) + count_with_last_element(keys, element) <= 1024
    }) by {
        let element = keys[i].3;
        let leaf = contents.dom().filter(|key: Word| key.3 == element);
        lemma_counted_keys(keys, element);
        vstd::set_lib::lemma_len_subset(leaf, contents.dom());
    }
}

/// A new account fits if its vault and each of its maps have no more than 1024 entries.
pub proof fn lemma_small_accounts_fit(
    trees: Trees,
    block_num: BlockNumber,
    update: BlockAccountUpdate,
    account: FullAccountState,
)
    requires
        update.details == AccountUpdateDetails::FullState(account),
        account.assets@.len() <= 1024,
        forall|i: int|
            0 <= i < account.slots@.len() ==> ((
            #[trigger] account.slots@[i]).content matches StorageSlotContent::MapEntries(entries)
                ==> entries@.len() <= 1024),
    ensures
        fits_account(trees, block_num, update),
{
    lemma_small_trees_fit(vstd::map::Map::empty(), asset_keys(account.assets@));
    assert forall|i: int| 0 <= i < account.slots@.len() implies ((
    #[trigger] account.slots@[i]).content matches StorageSlotContent::MapEntries(entries)
        ==> fits_tree(vstd::map::Map::empty(), entry_keys(hashed_entries(entries@)))) by {
        if let StorageSlotContent::MapEntries(entries) = account.slots@[i].content {
            lemma_small_trees_fit(vstd::map::Map::empty(), entry_keys(hashed_entries(entries@)));
        }
    }
}

/// A change of assets fits if the vault has no more than 1024 entries even if all assets are new.
pub proof fn lemma_small_changes_fit(
    trees: Trees,
    block_num: BlockNumber,
    update: BlockAccountUpdate,
    delta: AccountDelta,
)
    requires
        update.details == AccountUpdateDetails::Delta(delta),
        delta.storage.maps@.len() == 0,
        latest_contents(trees, vault_lineage(update.account_id)).dom().finite(),
        latest_contents(trees, vault_lineage(update.account_id)).dom().len()
            + delta.vault.fungible@.len() + delta.vault.non_fungible@.len() <= 1024,
    ensures
        fits_account(trees, block_num, update),
{
    lemma_small_trees_fit(
        latest_contents(trees, vault_lineage(update.account_id)),
        delta_keys(delta.vault),
    );
}

/// Changes of maps fit if each map has no more than 1024 entries even if all its keys are new.
pub proof fn lemma_small_map_changes_fit(
    trees: Trees,
    account_id: AccountId,
    block_num: BlockNumber,
    maps: Seq<MapDelta>,
    map: MapDelta,
    before: Trees,
)
    requires
        fits_maps(trees, account_id, block_num, maps),
        with_changed_maps(trees, account_id, block_num, maps) == Some(before),
        latest_contents(before, map_lineage(account_id, map.slot_name@)).dom().finite(),
        latest_contents(before, map_lineage(account_id, map.slot_name@)).dom().len()
            + map.entries@.len() <= 1024,
    ensures
        fits_maps(trees, account_id, block_num, maps.push(map)),
{
    assert(maps.push(map).drop_last() =~= maps);
    lemma_small_trees_fit(
        latest_contents(before, map_lineage(account_id, map.slot_name@)),
        entry_keys(hashed_entries(map.entries@)),
    );
}

// KEYS
// ================================================================================================

proof fn lemma_hash_is_dropped(keys: KnownKeys, hash: Word)
    ensures
        without_hash(keys, hash).len() <= keys.len(),
        forall|i: int|
            0 <= i < without_hash(keys, hash).len() ==> (#[trigger] without_hash(
                keys,
                hash,
            )[i]).0 != hash,
        forall|other: Word, distance: int|
            #![trigger is_known_within(keys, other, distance)]
            other != hash && is_known_within(keys, other, distance) ==> is_known_within(
                without_hash(keys, hash),
                other,
                distance,
            ),
    decreases keys.len(),
{
    reveal(Seq::filter);
    if keys.len() > 0 {
        let before = keys.drop_last();
        let found = without_hash(before, hash);
        let all = without_hash(keys, hash);
        lemma_hash_is_dropped(before, hash);
        assert forall|other: Word, distance: int|
            #![trigger is_known_within(keys, other, distance)]
            other != hash && is_known_within(keys, other, distance) implies is_known_within(
            all,
            other,
            distance,
        ) by {
            let i = choose|i: int|
                keys.len() - distance <= i < keys.len() && 0 <= i && (#[trigger] keys[i]).0
                    == other;
            if i == keys.len() - 1 {
                assert(all == found.push(keys.last()));
                assert(all[all.len() - 1].0 == other);
            } else {
                assert(before[i].0 == other);
                assert(is_known_within(before, other, distance - 1));
                assert(is_known_within(found, other, distance - 1));
                let k = choose|k: int|
                    found.len() - (distance - 1) <= k < found.len() && 0 <= k && (
                    #[trigger] found[k]).0 == other;
                assert(all[k].0 == other);
            }
        }
    }
}

/// Whether one of the keys that were learnt last has the given hash.
pub open spec fn is_known_within(keys: KnownKeys, hash: Word, distance: int) -> bool {
    exists|i: int|
        keys.len() - distance <= i < keys.len() && 0 <= i && (#[trigger] keys[i]).0 == hash
}

/// A key that is learnt is known, and comes last. Keys that were learnt before stay known, as long as no
/// more than 16384 keys were learnt since.
pub proof fn lemma_learnt_keys_are_known(keys: KnownKeys, key: Word)
    ensures
        with_key(keys, key).len() <= 16384,
        with_key(keys, key).len() > 0 && with_key(keys, key).last() == (map_key_hash_of(key), key),
        forall|hash: Word, distance: int|
            #![trigger is_known_within(keys, hash, distance)]
            hash != map_key_hash_of(key) && distance < 16384 && is_known_within(
                keys,
                hash,
                distance,
            ) ==> is_known_within(with_key(keys, key), hash, distance + 1),
{
    let added = map_key_hash_of(key);
    let rest = without_hash(keys, added);
    let all = rest.push((added, key));
    let kept = with_key(keys, key);
    lemma_hash_is_dropped(keys, added);
    assert(kept.last() == all.last());
    assert forall|hash: Word, distance: int|
        #![trigger is_known_within(keys, hash, distance)]
        hash != added && distance < 16384 && is_known_within(
            keys,
            hash,
            distance,
        ) implies is_known_within(kept, hash, distance + 1) by {
        assert(is_known_within(rest, hash, distance));
        let k = choose|k: int|
            rest.len() - distance <= k < rest.len() && 0 <= k && (#[trigger] rest[k]).0 == hash;
        let dropped = all.len() - kept.len();
        assert(all[k] == rest[k]);
        assert(k >= dropped);
        assert(kept[k - dropped] == all[k]);
    }
}

/// Of keys that are learnt one after the other, at most 16384 of them, all are known afterwards.
pub proof fn lemma_all_learnt_keys_are_known(keys: KnownKeys, added: Seq<Word>)
    requires
        added.len() <= 16384,
    ensures
        forall|i: int|
            0 <= i < added.len() ==> is_known_within(
                with_keys(keys, added),
                map_key_hash_of(#[trigger] added[i]),
                added.len() - i,
            ),
    decreases added.len(),
{
    if added.len() > 0 {
        let before = added.drop_last();
        let last = added.len() - 1;
        let known = with_keys(keys, before);
        lemma_all_learnt_keys_are_known(keys, before);
        lemma_learnt_keys_are_known(known, added.last());
        let all = with_keys(keys, added);
        assert forall|i: int| 0 <= i < added.len() implies is_known_within(
            all,
            map_key_hash_of(#[trigger] added[i]),
            added.len() - i,
        ) by {
            let hash = map_key_hash_of(added[i]);
            if hash == map_key_hash_of(added.last()) {
                assert(all[all.len() - 1].0 == hash);
            } else {
                assert(before[i] == added[i]);
                assert(is_known_within(known, hash, before.len() - i));
            }
        }
    }
}

/// The keys of an account that are learnt are those of all entries of its maps: of a new account those of
/// all its maps, and of a change those of the entries that it changes.
pub proof fn lemma_keys_of_accounts_are_learnt(
    keys: KnownKeys,
    update: BlockAccountUpdate,
    slots: Seq<StorageSlot>,
    slot: StorageSlot,
    maps: Seq<MapDelta>,
    map: MapDelta,
)
    ensures
        update.details matches AccountUpdateDetails::FullState(account) && account.slots@
            == slots.push(slot) ==> with_account_keys(keys, update) == (match slot.content {
            StorageSlotContent::SingleValue(_) => with_slot_keys(keys, slots),
            StorageSlotContent::MapEntries(entries) => with_keys(
                with_slot_keys(keys, slots),
                entries@.map_values(|entry: (Word, Word)| entry.0),
            ),
        }),
        update.details matches AccountUpdateDetails::Delta(delta) && delta.storage.maps@
            == maps.push(map) ==> with_account_keys(keys, update) == with_keys(
            with_delta_keys(keys, maps),
            map.entries@.map_values(|entry: (Word, Word)| entry.0),
        ),
{
    assert(slots.push(slot).drop_last() =~= slots);
    assert(maps.push(map).drop_last() =~= maps);
}

} // verus!
