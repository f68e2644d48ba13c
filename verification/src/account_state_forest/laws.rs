//! What holds of the account state forest as a whole.

use vstd::prelude::*;

use crate::account_id::AccountId;
use crate::account_state_forest::model::{
    hashed_entries, is_empty_vault_delta, latest_contents, map_lineage, retention_start, tree_at,
    vault_lineage, with_account, with_changed_maps, with_changed_vault, with_new_maps,
    with_new_tree, Trees,
};
use crate::block_number::BlockNumber;
use crate::db::delta::{contents_after_delta, map_after, vault_root_after, MapDelta};
use crate::db::entries::pairs_by_key;
use crate::db::updates::{
    is_full_state, AccountDelta, AccountUpdateDetails, BlockAccountUpdate, FullAccountState,
    StorageSlot, StorageSlotContent,
};
use crate::errors::DatabaseError;
use crate::protocol::{
    are_distinct_assets, asset_pairs, has_hash, has_no_collision, hashed_map, is_asset,
    key_with_hash, storage_map_root_of, valued_entries,
};
use crate::smt_forest::{
    is_forest, lemma_added_version, lemma_truncation_keeps_recent, map_key_hash_of, smt_root_of,
    truncated_trees, with_version, TreeVersion, MAX_TREE_HISTORY,
};
use crate::state::account::Asset;
use crate::word::Word;

verus! {

/// Pruning changes nothing for the blocks whose states are kept: every vault and storage map is found
/// there as before.
pub proof fn lemma_prune_keeps_recent_blocks(
    trees: Trees,
    chain_tip: BlockNumber,
    lineage: Seq<u8>,
    block_num: BlockNumber,
)
    requires
        is_forest(trees),
        block_num@ >= retention_start(chain_tip)@,
    ensures
        tree_at(truncated_trees(trees, retention_start(chain_tip).0 as u64), lineage, block_num)
            == tree_at(trees, lineage, block_num),
{
    if trees.contains_key(lineage) {
        lemma_truncation_keeps_recent(
            trees[lineage],
            retention_start(chain_tip).0 as u64,
            block_num.0 as u64,
        );
    }
}

/// Pruning keeps the latest state of every vault and storage map, however old it is.
pub proof fn lemma_prune_keeps_latest(trees: Trees, chain_tip: BlockNumber, lineage: Seq<u8>)
    requires
        is_forest(trees),
    ensures
        latest_contents(
            truncated_trees(trees, retention_start(chain_tip).0 as u64),
            lineage,
        ) == latest_contents(trees, lineage),
{
    if trees.contains_key(lineage) {
        let cutoff = retention_start(chain_tip).0 as u64;
        lemma_truncation_keeps_recent(trees[lineage], cutoff, cutoff);
    }
}

// UPDATES
// ================================================================================================

/// Whether an update of an account may change the tree of a lineage: the account's vault or one of its
/// storage maps that the update names.
pub open spec fn touches(update: BlockAccountUpdate, lineage: Seq<u8>) -> bool {
    &&& !(update.details is Private)
    &&& lineage == vault_lineage(update.account_id) || touches_map(update, lineage)
}

/// Whether an update of an account names a storage map with the given lineage.
pub open spec fn touches_map(update: BlockAccountUpdate, lineage: Seq<u8>) -> bool {
    match update.details {
        AccountUpdateDetails::Private => false,
        AccountUpdateDetails::FullState(account) => names_slot(
            update.account_id,
            account.slots@,
            lineage,
        ),
        AccountUpdateDetails::Delta(delta) => names_map(
            update.account_id,
            delta.storage.maps@,
            lineage,
        ),
    }
}

/// Whether one of the slots has the given lineage.
pub open spec fn names_slot(
    account_id: AccountId,
    slots: Seq<StorageSlot>,
    lineage: Seq<u8>,
) -> bool {
    exists|i: int|
        0 <= i < slots.len() && map_lineage(account_id, (#[trigger] slots[i]).name@) == lineage
}

/// Whether one of the maps has the given lineage.
pub open spec fn names_map(account_id: AccountId, maps: Seq<MapDelta>, lineage: Seq<u8>) -> bool {
    exists|i: int|
        0 <= i < maps.len() && map_lineage(account_id, (#[trigger] maps[i]).slot_name@) == lineage
}

/// Whether a tree is the same in both forests.
pub open spec fn same_tree(before: Trees, after: Trees, lineage: Seq<u8>) -> bool {
    &&& before.contains_key(lineage) == after.contains_key(lineage)
    &&& before[lineage] == after[lineage]
}

/// New storage maps leave all other trees as they are.
pub proof fn lemma_new_maps_keep_others(
    trees: Trees,
    account_id: AccountId,
    block_num: BlockNumber,
    slots: Seq<StorageSlot>,
    lineage: Seq<u8>,
)
    requires
        !names_slot(account_id, slots, lineage),
    ensures
        with_new_maps(trees, account_id, block_num, slots) matches Some(after) ==> same_tree(
            trees,
            after,
            lineage,
        ),
    decreases slots.len(),
{
    if slots.len() > 0 {
        let before = slots.drop_last();
        assert(!names_slot(account_id, before, lineage)) by {
            if names_slot(account_id, before, lineage) {
                let i = choose|i: int|
                    0 <= i < before.len() && map_lineage(account_id, (#[trigger] before[i]).name@)
                        == lineage;
                assert(map_lineage(account_id, slots[i].name@) == lineage);
            }
        }
        assert(map_lineage(account_id, slots[slots.len() - 1].name@) != lineage);
        lemma_new_maps_keep_others(trees, account_id, block_num, before, lineage);
    }
}

/// Changes of storage maps leave all other trees as they are.
pub proof fn lemma_changed_maps_keep_others(
    trees: Trees,
    account_id: AccountId,
    block_num: BlockNumber,
    maps: Seq<MapDelta>,
    lineage: Seq<u8>,
)
    requires
        !names_map(account_id, maps, lineage),
    ensures
        with_changed_maps(trees, account_id, block_num, maps) matches Some(after) ==> same_tree(
            trees,
            after,
            lineage,
        ),
    decreases maps.len(),
{
    if maps.len() > 0 {
        let before = maps.drop_last();
        assert(!names_map(account_id, before, lineage)) by {
            if names_map(account_id, before, lineage) {
                let i = choose|i: int|
                    0 <= i < before.len() && map_lineage(
                        account_id,
                        (#[trigger] before[i]).slot_name@,
                    ) == lineage;
                assert(map_lineage(account_id, maps[i].slot_name@) == lineage);
            }
        }
        assert(map_lineage(account_id, maps[maps.len() - 1].slot_name@) != lineage);
        lemma_changed_maps_keep_others(trees, account_id, block_num, before, lineage);
    }
}

/// An update of an account leaves all trees as they are but the account's vault and the storage maps
/// that the update names.
pub proof fn lemma_update_keeps_other_trees(
    trees: Trees,
    block_num: BlockNumber,
    update: BlockAccountUpdate,
    lineage: Seq<u8>,
)
    requires
        !touches(update, lineage),
    ensures
        with_account(trees, block_num, update) matches Some(after) ==> same_tree(
            trees,
            after,
            lineage,
        ),
{
    let id = update.account_id;
    match update.details {
        AccountUpdateDetails::Private => {},
        AccountUpdateDetails::FullState(account) => {
            match with_new_tree(trees, vault_lineage(id), block_num, asset_pairs(account.assets@)) {
                None => {},
                Some(with_vault) => {
                    lemma_new_maps_keep_others(with_vault, id, block_num, account.slots@, lineage);
                },
            }
        },
        AccountUpdateDetails::Delta(delta) => {
            match with_changed_vault(trees, id, block_num, delta.vault) {
                None => {},
                Some(with_vault) => {
                    lemma_changed_maps_keep_others(
                        with_vault,
                        id,
                        block_num,
                        delta.storage.maps@,
                        lineage,
                    );
                },
            }
        },
    }
}

// HISTORY
// ================================================================================================

/// Whether a forest comes of another one by at most one change of a tree, at the given block.
pub open spec fn is_step(
    before: Trees,
    after: Trees,
    lineage: Seq<u8>,
    added: TreeVersion,
) -> bool {
    ||| after == before
    ||| !before.contains_key(lineage) && after == before.insert(lineage, seq![added])
    ||| before.contains_key(lineage) && before[lineage].last().version < added.version && after
        == before.insert(lineage, with_version(before[lineage], added))
}

/// Whether a tree changed at most at the given block, and is found at earlier blocks as before.
pub open spec fn keeps_history(
    before: Trees,
    after: Trees,
    lineage: Seq<u8>,
    block_num: BlockNumber,
) -> bool {
    ||| same_tree(before, after, lineage)
    ||| {
        &&& after.contains_key(lineage)
        &&& after[lineage].len() > 0
        &&& after[lineage].last().version == block_num.0
        &&& forall|earlier: BlockNumber|
            earlier@ < block_num@ ==> #[trigger] tree_at(after, lineage, earlier) == tree_at(
                before,
                lineage,
                earlier,
            )
    }
}

proof fn lemma_step_keeps_history(
    start: Trees,
    before: Trees,
    after: Trees,
    changed: Seq<u8>,
    added: TreeVersion,
    block_num: BlockNumber,
    lineage: Seq<u8>,
)
    requires
        is_forest(start),
        start.contains_key(lineage) ==> start[lineage].len() <= MAX_TREE_HISTORY,
        keeps_history(start, before, lineage, block_num),
        is_step(before, after, changed, added),
        added.version == block_num.0,
    ensures
        keeps_history(start, after, lineage, block_num),
{
    if changed == lineage && after != before {
        if before.contains_key(lineage) {
            assert(same_tree(start, before, lineage));
            let versions = start[lineage];
            lemma_added_version(versions, added, 0);
            assert forall|earlier: BlockNumber| earlier@ < block_num@ implies #[trigger] tree_at(
                after,
                lineage,
                earlier,
            ) == tree_at(start, lineage, earlier) by {
                lemma_added_version(versions, added, earlier.0 as u64);
            }
            assert(after[lineage].last() == added);
        } else {
            assert(same_tree(start, before, lineage));
            assert(after[lineage] =~= seq![added]);
            assert forall|earlier: BlockNumber| earlier@ < block_num@ implies #[trigger] tree_at(
                after,
                lineage,
                earlier,
            ) == tree_at(start, lineage, earlier) by {
                assert(after[lineage].drop_last() =~= Seq::empty());
                reveal_with_fuel(crate::smt_forest::contents_at, 2);
            }
        }
    } else if changed != lineage {
        assert(same_tree(before, after, lineage));
        assert forall|earlier: BlockNumber| earlier@ < block_num@ implies #[trigger] tree_at(
            after,
            lineage,
            earlier,
        ) == tree_at(before, lineage, earlier) by {}
    }
}

proof fn lemma_new_maps_keep_history(
    start: Trees,
    trees: Trees,
    account_id: AccountId,
    block_num: BlockNumber,
    slots: Seq<StorageSlot>,
    lineage: Seq<u8>,
)
    requires
        is_forest(start),
        start.contains_key(lineage) ==> start[lineage].len() <= MAX_TREE_HISTORY,
        keeps_history(start, trees, lineage, block_num),
    ensures
        with_new_maps(trees, account_id, block_num, slots) matches Some(after) ==> keeps_history(
            start,
            after,
            lineage,
            block_num,
        ),
    decreases slots.len(),
{
    if slots.len() > 0 {
        lemma_new_maps_keep_history(
            start,
            trees,
            account_id,
            block_num,
            slots.drop_last(),
            lineage,
        );
        if let Some(after) = with_new_maps(trees, account_id, block_num, slots) {
            let before = with_new_maps(trees, account_id, block_num, slots.drop_last())->0;
            if let StorageSlotContent::MapEntries(entries) = slots.last().content {
                let added = TreeVersion {
                    version: block_num.0 as u64,
                    contents: map_after(vstd::map::Map::empty(), hashed_entries(entries@)),
                };
                lemma_step_keeps_history(
                    start,
                    before,
                    after,
                    map_lineage(account_id, slots.last().name@),
                    added,
                    block_num,
                    lineage,
                );
            }
        }
    }
}

proof fn lemma_changed_maps_keep_history(
    start: Trees,
    trees: Trees,
    account_id: AccountId,
    block_num: BlockNumber,
    maps: Seq<MapDelta>,
    lineage: Seq<u8>,
)
    requires
        is_forest(start),
        start.contains_key(lineage) ==> start[lineage].len() <= MAX_TREE_HISTORY,
        keeps_history(start, trees, lineage, block_num),
    ensures
        with_changed_maps(trees, account_id, block_num, maps) matches Some(after)
            ==> keeps_history(start, after, lineage, block_num),
    decreases maps.len(),
{
    if maps.len() > 0 {
        lemma_changed_maps_keep_history(
            start,
            trees,
            account_id,
            block_num,
            maps.drop_last(),
            lineage,
        );
        if let Some(after) = with_changed_maps(trees, account_id, block_num, maps) {
            let before = with_changed_maps(trees, account_id, block_num, maps.drop_last())->0;
            let changed = map_lineage(account_id, maps.last().slot_name@);
            let added = TreeVersion {
                version: block_num.0 as u64,
                contents: map_after(
                    latest_contents(before, changed),
                    hashed_entries(maps.last().entries@),
                ),
            };
            lemma_step_keeps_history(start, before, after, changed, added, block_num, lineage);
        }
    }
}

/// An update of an account at a block leaves all trees as they were at earlier blocks, as long as the
/// history of the trees has room.
pub proof fn lemma_update_keeps_history(
    trees: Trees,
    block_num: BlockNumber,
    update: BlockAccountUpdate,
    lineage: Seq<u8>,
    earlier: BlockNumber,
)
    requires
        is_forest(trees),
        earlier@ < block_num@,
        trees.contains_key(lineage) ==> trees[lineage].len() <= MAX_TREE_HISTORY,
    ensures
        with_account(trees, block_num, update) matches Some(after) ==> tree_at(
            after,
            lineage,
            earlier,
        ) == tree_at(trees, lineage, earlier),
{
    let id = update.account_id;
    let vault = vault_lineage(id);
    if let Some(after) = with_account(trees, block_num, update) {
        match update.details {
            AccountUpdateDetails::Private => {},
            AccountUpdateDetails::FullState(account) => {
                let entries = asset_pairs(account.assets@);
                let with_vault = with_new_tree(trees, vault, block_num, entries)->0;
                let added = TreeVersion {
                    version: block_num.0 as u64,
                    contents: map_after(vstd::map::Map::empty(), entries),
                };
                lemma_step_keeps_history(
                    trees,
                    trees,
                    with_vault,
                    vault,
                    added,
                    block_num,
                    lineage,
                );
                lemma_new_maps_keep_history(
                    trees,
                    with_vault,
                    id,
                    block_num,
                    account.slots@,
                    lineage,
                );
            },
            AccountUpdateDetails::Delta(delta) => {
                let with_vault = with_changed_vault(trees, id, block_num, delta.vault)->0;
                let added = TreeVersion {
                    version: block_num.0 as u64,
                    contents: contents_after_delta(latest_contents(trees, vault), delta.vault)->0,
                };
                lemma_step_keeps_history(
                    trees,
                    trees,
                    with_vault,
                    vault,
                    added,
                    block_num,
                    lineage,
                );
                lemma_changed_maps_keep_history(
                    trees,
                    with_vault,
                    id,
                    block_num,
                    delta.storage.maps@,
                    lineage,
                );
            },
        }
        assert(keeps_history(trees, after, lineage, block_num));
    }
}

// VAULTS
// ================================================================================================

/// Entries with distinct keys and values that are not empty make up a tree of themselves.
pub proof fn lemma_new_contents(entries: Seq<(Word, Word)>)
    requires
        forall|i: int| 0 <= i < entries.len() ==> (#[trigger] entries[i]).1 != Word::empty(),
    ensures
        map_after(vstd::map::Map::empty(), entries) == pairs_by_key(entries),
    decreases entries.len(),
{
    if entries.len() > 0 {
        let before = entries.drop_last();
        assert forall|i: int| 0 <= i < before.len() implies (#[trigger] before[i]).1
            != Word::empty() by {
            assert(before[i] == entries[i]);
        }
        lemma_new_contents(before);
        assert(entries[entries.len() - 1].1 != Word::empty());
    }
}

/// The whole state of an account is found in the forest from its block on: the vault holds the assets,
/// and its root is that of a vault with these assets.
pub proof fn lemma_new_vault_is_found(
    trees: Trees,
    block_num: BlockNumber,
    update: BlockAccountUpdate,
    account: FullAccountState,
    later: BlockNumber,
)
    requires
        update.details == AccountUpdateDetails::FullState(account),
        is_full_state(account),
        !touches_map(update, vault_lineage(update.account_id)),
        later@ >= block_num@,
    ensures
        with_account(trees, block_num, update) matches Some(after) ==> tree_at(
            after,
            vault_lineage(update.account_id),
            later,
        ) == Some(pairs_by_key(asset_pairs(account.assets@))),
{
    let id = update.account_id;
    let vault = vault_lineage(id);
    let entries = asset_pairs(account.assets@);
    if let Some(after) = with_account(trees, block_num, update) {
        let with_vault = with_new_tree(trees, vault, block_num, entries)->0;
        assert forall|i: int| 0 <= i < entries.len() implies (#[trigger] entries[i]).1
            != Word::empty() by {
            assert(is_asset(account.assets@[i]) && account.assets@[i].value != Word::empty());
        }
        lemma_new_contents(entries);
        lemma_new_maps_keep_others(with_vault, id, block_num, account.slots@, vault);
    }
}

/// A change of an account's assets is found in the forest from its block on. If the forest held the
/// stored assets before, the root of the vault is the one that is stored with the account.
pub proof fn lemma_changed_vault_is_found(
    trees: Trees,
    block_num: BlockNumber,
    update: BlockAccountUpdate,
    delta: AccountDelta,
    stored: Seq<Asset>,
    stored_root: Word,
    later: BlockNumber,
)
    requires
        is_forest(trees),
        update.details == AccountUpdateDetails::Delta(delta),
        !is_empty_vault_delta(delta.vault),
        !touches_map(update, vault_lineage(update.account_id)),
        are_distinct_assets(stored),
        latest_contents(trees, vault_lineage(update.account_id)) == pairs_by_key(
            asset_pairs(stored),
        ),
        vault_root_after(stored, delta.vault) == Ok::<Word, DatabaseError>(stored_root),
        later@ >= block_num@,
    ensures
        with_account(trees, block_num, update) matches Some(after) ==> {
            &&& tree_at(after, vault_lineage(update.account_id), later) == contents_after_delta(
                pairs_by_key(asset_pairs(stored)),
                delta.vault,
            )
            &&& tree_at(after, vault_lineage(update.account_id), later) matches Some(contents)
            &&& smt_root_of(contents) == stored_root
        },
{
    let id = update.account_id;
    let vault = vault_lineage(id);
    if let Some(after) = with_account(trees, block_num, update) {
        let with_vault = with_changed_vault(trees, id, block_num, delta.vault)->0;
        lemma_changed_maps_keep_others(with_vault, id, block_num, delta.storage.maps@, vault);
    }
}

// STORAGE MAPS
// ================================================================================================

proof fn lemma_hashed_insert(
    map: vstd::map::Map<Word, Word>,
    key: Word,
    value: Word,
    keys: Set<Word>,
)
    requires
        has_no_collision(keys),
        map.dom().subset_of(keys),
        keys.contains(key),
    ensures
        value != Word::empty() ==> hashed_map(map.insert(key, value)) =~= hashed_map(map).insert(
            map_key_hash_of(key),
            value,
        ),
        hashed_map(map.remove(key)) =~= hashed_map(map).remove(map_key_hash_of(key)),
{
    let hash = map_key_hash_of(key);
    let valued = valued_entries(map);
    let removed = valued_entries(map.remove(key));
    assert forall|h: Word| #[trigger] has_hash(removed, h) == (has_hash(valued, h) && h
        != hash) by {
        if has_hash(removed, h) {
            let k = key_with_hash(removed, h);
            assert(valued.contains_key(k) && map_key_hash_of(k) == h);
            assert(map.dom().contains(k));
        }
        if has_hash(valued, h) && h != hash {
            let k = key_with_hash(valued, h);
            assert(removed.contains_key(k) && map_key_hash_of(k) == h);
        }
    }
    assert forall|h: Word| has_hash(removed, h) implies #[trigger] hashed_map(map.remove(key))[h]
        == hashed_map(map)[h] by {
        let a = key_with_hash(removed, h);
        let b = key_with_hash(valued, h);
        assert(has_hash(valued, h));
        assert(map.dom().contains(a) && map.dom().contains(b));
        assert(map_key_hash_of(a) == map_key_hash_of(b));
    }
    if value != Word::empty() {
        let inserted = valued_entries(map.insert(key, value));
        assert forall|h: Word| #[trigger] has_hash(inserted, h) == (has_hash(valued, h) || h
            == hash) by {
            if has_hash(inserted, h) {
                let k = key_with_hash(inserted, h);
                if k != key {
                    assert(valued.contains_key(k) && map_key_hash_of(k) == h);
                }
            }
            if has_hash(valued, h) {
                let k = key_with_hash(valued, h);
                assert(map.dom().contains(k));
                assert(inserted.contains_key(k) && map_key_hash_of(k) == h);
            }
            if h == hash {
                assert(inserted.contains_key(key) && map_key_hash_of(key) == h);
            }
        }
        assert forall|h: Word|
            has_hash(inserted, h) implies #[trigger] hashed_map(map.insert(key, value))[h] == (if h
            == hash {
            value
        } else {
            hashed_map(map)[h]
        }) by {
            let a = key_with_hash(inserted, h);
            assert(inserted.contains_key(a) && map_key_hash_of(a) == h);
            if h == hash {
                assert(a == key || map.dom().contains(a));
                assert(map_key_hash_of(a) == map_key_hash_of(key));
            } else {
                assert(has_hash(valued, h));
                let b = key_with_hash(valued, h);
                assert(map.dom().contains(a) && map.dom().contains(b));
                assert(map_key_hash_of(a) == map_key_hash_of(b));
            }
        }
    }
}

/// Changing entries of a storage map and then hashing its keys is the same as changing the entries
/// under the hashes of their keys.
pub proof fn lemma_hashed_changes(
    map: vstd::map::Map<Word, Word>,
    entries: Seq<(Word, Word)>,
    keys: Set<Word>,
)
    requires
        has_no_collision(keys),
        map.dom().subset_of(keys),
        forall|i: int| 0 <= i < entries.len() ==> keys.contains((#[trigger] entries[i]).0),
    ensures
        hashed_map(map_after(map, entries)) == map_after(hashed_map(map), hashed_entries(entries)),
        map_after(map, entries).dom().subset_of(keys),
    decreases entries.len(),
{
    if entries.len() > 0 {
        let before = entries.drop_last();
        assert forall|i: int| 0 <= i < before.len() implies keys.contains(
            (#[trigger] before[i]).0,
        ) by {
            assert(before[i] == entries[i]);
        }
        lemma_hashed_changes(map, before, keys);
        let (key, value) = entries.last();
        assert(keys.contains(entries[entries.len() - 1].0));
        lemma_hashed_insert(map_after(map, before), key, value, keys);
        assert(hashed_entries(entries).drop_last() =~= hashed_entries(before));
        assert(hashed_entries(entries).last() == (map_key_hash_of(key), value));
    }
}

/// A change of a storage map is found in the forest from its block on. If the forest held the stored
/// entries before, the root of the map is that of a map with the stored entries after the change.
pub proof fn lemma_changed_map_is_found(
    trees: Trees,
    block_num: BlockNumber,
    update: BlockAccountUpdate,
    delta: AccountDelta,
    position: int,
    stored: vstd::map::Map<Word, Word>,
    keys: Set<Word>,
    later: BlockNumber,
)
    requires
        is_forest(trees),
        update.details == AccountUpdateDetails::Delta(delta),
        0 <= position < delta.storage.maps@.len(),
        delta.storage.maps@[position].entries@.len() > 0,
        ({
            let lineage = map_lineage(
                update.account_id,
                delta.storage.maps@[position].slot_name@,
            );
            &&& lineage != vault_lineage(update.account_id)
            &&& !names_map(
                update.account_id,
                delta.storage.maps@.take(position),
                lineage,
            )
            &&& !names_map(update.account_id, delta.storage.maps@.skip(position + 1), lineage)
            &&& latest_contents(trees, lineage) == hashed_map(stored)
        }),
        has_no_collision(keys),
        stored.dom().subset_of(keys),
        forall|i: int|
            0 <= i < delta.storage.maps@[position].entries@.len() ==> keys.contains(
                (#[trigger] delta.storage.maps@[position].entries@[i]).0,
            ),
        later@ >= block_num@,
    ensures
        with_account(trees, block_num, update) matches Some(after) ==> {
            let map = delta.storage.maps@[position];
            let found = tree_at(after, map_lineage(update.account_id, map.slot_name@), later);
            &&& found matches Some(contents)
            &&& smt_root_of(contents) == storage_map_root_of(map_after(stored, map.entries@))
        },
{
    let id = update.account_id;
    let maps = delta.storage.maps@;
    let map = maps[position];
    let lineage = map_lineage(id, map.slot_name@);
    if let Some(after) = with_account(trees, block_num, update) {
        let with_vault = with_changed_vault(trees, id, block_num, delta.vault)->0;
        assert(same_tree(trees, with_vault, lineage));
        lemma_hashed_changes(stored, map.entries@, keys);
        lemma_one_map_changes(trees, with_vault, id, block_num, maps, position, later);
    }
}

proof fn lemma_one_map_changes(
    start: Trees,
    trees: Trees,
    account_id: AccountId,
    block_num: BlockNumber,
    maps: Seq<MapDelta>,
    position: int,
    later: BlockNumber,
)
    requires
        0 <= position < maps.len(),
        maps[position].entries@.len() > 0,
        !names_map(
            account_id,
            maps.take(position),
            map_lineage(account_id, maps[position].slot_name@),
        ),
        !names_map(
            account_id,
            maps.skip(position + 1),
            map_lineage(account_id, maps[position].slot_name@),
        ),
        is_forest(start),
        same_tree(start, trees, map_lineage(account_id, maps[position].slot_name@)),
        later@ >= block_num@,
    ensures
        with_changed_maps(trees, account_id, block_num, maps) matches Some(after) ==> tree_at(
            after,
            map_lineage(account_id, maps[position].slot_name@),
            later,
        ) == Some(
            map_after(
                latest_contents(start, map_lineage(account_id, maps[position].slot_name@)),
                hashed_entries(maps[position].entries@),
            ),
        ),
    decreases maps.len(),
{
    let lineage = map_lineage(account_id, maps[position].slot_name@);
    let before = maps.drop_last();
    if position == maps.len() - 1 {
        assert(maps.take(position) =~= before);
        lemma_changed_maps_keep_others(trees, account_id, block_num, before, lineage);
        if let Some(after) = with_changed_maps(trees, account_id, block_num, maps) {
            let here = with_changed_maps(trees, account_id, block_num, before)->0;
            let versions = start[lineage];
            let contents = map_after(
                latest_contents(start, lineage),
                hashed_entries(maps[position].entries@),
            );
            assert(same_tree(start, here, lineage));
            if start.contains_key(lineage) && contents != versions.last().contents {
                let added = TreeVersion { version: block_num.0 as u64, contents };
                lemma_added_version(versions, added, later.0 as u64);
            }
        }
    } else {
        assert(before.take(position) =~= maps.take(position));
        assert(!names_map(account_id, before.skip(position + 1), lineage)) by {
            let rest = before.skip(position + 1);
            if names_map(account_id, rest, lineage) {
                let i = choose|i: int|
                    0 <= i < rest.len() && map_lineage(account_id, (#[trigger] rest[i]).slot_name@)
                        == lineage;
                assert(maps.skip(position + 1)[i] == rest[i]);
            }
        }
        lemma_one_map_changes(start, trees, account_id, block_num, before, position, later);
        let last = maps.skip(position + 1)[maps.len() - position - 2];
        assert(last == maps.last());
        assert(map_lineage(account_id, last.slot_name@) != lineage);
        if let Some(after) = with_changed_maps(trees, account_id, block_num, maps) {
            let here = with_changed_maps(trees, account_id, block_num, before)->0;
            assert(same_tree(here, after, lineage));
        }
    }
}

} // verus!
