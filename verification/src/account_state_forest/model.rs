//! What the account state forest holds, and what updates make of it.

use vstd::prelude::*;
use vstd::utf8::encode_utf8;

use crate::account_id::AccountId;
use crate::block_number::BlockNumber;
use crate::db::delta::{contents_after_delta, map_after, MapDelta, VaultDelta};
use crate::db::entries::{has_distinct_keys, pairs_by_key};
use crate::db::history::HISTORICAL_BLOCK_RETENTION;
use crate::db::updates::{AccountUpdateDetails, BlockAccountUpdate, StorageSlot, StorageSlotContent};
use crate::protocol::{account_id_bytes, asset_keys, asset_pairs};
use crate::smt_forest::{
    blake3_of, contents_at, fits_tree, is_proof, map_key_hash_of, trees_with_update, with_version,
    TreeVersion,
};
use crate::state::account::Asset;
use crate::state::replica::newest;
use crate::word::Word;

verus! {

// LINEAGES
// ================================================================================================

/// The lineage of the vault of an account.
pub open spec fn vault_lineage(account_id: AccountId) -> Seq<u8> {
    blake3_of(account_id_bytes(account_id))
}

/// The lineage of a storage map of an account.
pub open spec fn map_lineage(account_id: AccountId, slot_name: Seq<char>) -> Seq<u8> {
    blake3_of(account_id_bytes(account_id) + encode_utf8(slot_name))
}

// MODEL
// ================================================================================================

/// Trees by lineage, each with its versions.
pub type Trees = vstd::map::Map<Seq<u8>, Seq<TreeVersion>>;

/// What the tree of a lineage holds at a block: what it held when it last changed, if that is still
/// kept.
pub open spec fn tree_at(trees: Trees, lineage: Seq<u8>, block_num: BlockNumber) -> Option<
    vstd::map::Map<Word, Word>,
> {
    if trees.contains_key(lineage) {
        contents_at(trees[lineage], block_num.0 as u64)
    } else {
        None
    }
}

/// What the tree of a lineage holds now, or nothing if there is no such tree.
pub open spec fn latest_contents(trees: Trees, lineage: Seq<u8>) -> vstd::map::Map<Word, Word> {
    if trees.contains_key(lineage) {
        trees[lineage].last().contents
    } else {
        vstd::map::Map::empty()
    }
}

/// The trees once a new tree with the given entries was added, or `None` if the lineage is taken.
pub open spec fn with_new_tree(
    trees: Trees,
    lineage: Seq<u8>,
    block_num: BlockNumber,
    entries: Seq<(Word, Word)>,
) -> Option<Trees> {
    if trees.contains_key(lineage) {
        None
    } else {
        Some(
            trees.insert(
                lineage,
                seq![
                    TreeVersion {
                        version: block_num.0 as u64,
                        contents: map_after(vstd::map::Map::empty(), entries),
                    },
                ],
            ),
        )
    }
}

/// The trees once entries of a tree were changed, which creates the tree if need be, or `None` if the
/// tree changed at the block or later already.
pub open spec fn with_changes(
    trees: Trees,
    lineage: Seq<u8>,
    block_num: BlockNumber,
    entries: Seq<(Word, Word)>,
) -> Option<Trees> {
    if !trees.contains_key(lineage) {
        with_new_tree(trees, lineage, block_num, entries)
    } else if trees[lineage].last().version >= block_num.0 {
        None
    } else {
        Some(trees_with_update(trees, lineage, block_num.0 as u64, entries))
    }
}

/// The entries of a storage map as its tree holds them: under hashed keys.
pub open spec fn hashed_entries(entries: Seq<(Word, Word)>) -> Seq<(Word, Word)> {
    entries.map_values(|entry: (Word, Word)| (map_key_hash_of(entry.0), entry.1))
}

/// The trees once the maps among the slots of a new account were added.
pub open spec fn with_new_maps(
    trees: Trees,
    account_id: AccountId,
    block_num: BlockNumber,
    slots: Seq<StorageSlot>,
) -> Option<Trees>
    decreases slots.len(),
{
    if slots.len() == 0 {
        Some(trees)
    } else {
        match with_new_maps(trees, account_id, block_num, slots.drop_last()) {
            None => None,
            Some(before) => match slots.last().content {
                StorageSlotContent::SingleValue(_) => Some(before),
                StorageSlotContent::MapEntries(entries) => with_new_tree(
                    before,
                    map_lineage(account_id, slots.last().name@),
                    block_num,
                    hashed_entries(entries@),
                ),
            },
        }
    }
}

/// The trees once storage maps were changed. A map without changes stays as it is.
pub open spec fn with_changed_maps(
    trees: Trees,
    account_id: AccountId,
    block_num: BlockNumber,
    maps: Seq<MapDelta>,
) -> Option<Trees>
    decreases maps.len(),
{
    if maps.len() == 0 {
        Some(trees)
    } else {
        match with_changed_maps(trees, account_id, block_num, maps.drop_last()) {
            None => None,
            Some(before) => if maps.last().entries@.len() == 0 {
                Some(before)
            } else {
                with_changes(
                    before,
                    map_lineage(account_id, maps.last().slot_name@),
                    block_num,
                    hashed_entries(maps.last().entries@),
                )
            },
        }
    }
}

/// Whether a delta changes no asset.
pub open spec fn is_empty_vault_delta(delta: VaultDelta) -> bool {
    delta.fungible@.len() == 0 && delta.non_fungible@.len() == 0
}

/// The trees once the vault of an account was changed, or `None` if the change cannot be applied. A
/// vault without changes stays as it is.
pub open spec fn with_changed_vault(
    trees: Trees,
    account_id: AccountId,
    block_num: BlockNumber,
    delta: VaultDelta,
) -> Option<Trees> {
    let lineage = vault_lineage(account_id);
    if is_empty_vault_delta(delta) {
        Some(trees)
    } else {
        match contents_after_delta(latest_contents(trees, lineage), delta) {
            None => None,
            Some(contents) => if !trees.contains_key(lineage) {
                Some(
                    trees.insert(
                        lineage,
                        seq![TreeVersion { version: block_num.0 as u64, contents }],
                    ),
                )
            } else if trees[lineage].last().version >= block_num.0 {
                None
            } else if contents == trees[lineage].last().contents {
                Some(trees)
            } else {
                Some(
                    trees.insert(
                        lineage,
                        with_version(
                            trees[lineage],
                            TreeVersion { version: block_num.0 as u64, contents },
                        ),
                    ),
                )
            },
        }
    }
}

/// The trees once an account was updated, or `None` if the update cannot be applied.
pub open spec fn with_account(
    trees: Trees,
    block_num: BlockNumber,
    update: BlockAccountUpdate,
) -> Option<Trees> {
    let id = update.account_id;
    match update.details {
        AccountUpdateDetails::Private => Some(trees),
        AccountUpdateDetails::FullState(account) => match with_new_tree(
            trees,
            vault_lineage(id),
            block_num,
            asset_pairs(account.assets@),
        ) {
            None => None,
            Some(trees) => with_new_maps(trees, id, block_num, account.slots@),
        },
        AccountUpdateDetails::Delta(delta) => match with_changed_vault(
            trees,
            id,
            block_num,
            delta.vault,
        ) {
            None => None,
            Some(trees) => with_changed_maps(trees, id, block_num, delta.storage.maps@),
        },
    }
}

/// The trees once accounts were updated in order, or `None` if an update cannot be applied.
pub open spec fn with_accounts(
    trees: Trees,
    block_num: BlockNumber,
    updates: Seq<BlockAccountUpdate>,
) -> Option<Trees>
    decreases updates.len(),
{
    if updates.len() == 0 {
        Some(trees)
    } else {
        match with_accounts(trees, block_num, updates.drop_last()) {
            None => None,
            Some(before) => with_account(before, block_num, updates.last()),
        }
    }
}

/// The vault keys that a delta changes.
pub open spec fn delta_keys(delta: VaultDelta) -> Seq<Word> {
    delta.fungible@.map_values(|change: (Word, i64)| change.0) + delta.non_fungible@.map_values(
        |change: (Asset, bool)| change.0.key,
    )
}

/// Whether an update of an account is small enough for the trees to be sure to take it.
pub open spec fn fits_account(
    trees: Trees,
    block_num: BlockNumber,
    update: BlockAccountUpdate,
) -> bool {
    let id = update.account_id;
    match update.details {
        AccountUpdateDetails::Private => true,
        AccountUpdateDetails::FullState(account) => {
            &&& fits_tree(vstd::map::Map::empty(), asset_keys(account.assets@))
            &&& forall|i: int|
                0 <= i < account.slots@.len() ==> ((
                #[trigger] account.slots@[i]).content matches StorageSlotContent::MapEntries(entries)
                    ==> fits_tree(
                    vstd::map::Map::empty(),
                    entry_keys(hashed_entries(entries@)),
                ))
        },
        AccountUpdateDetails::Delta(delta) => {
            &&& fits_tree(latest_contents(trees, vault_lineage(id)), delta_keys(delta.vault))
            &&& with_changed_vault(trees, id, block_num, delta.vault) matches Some(trees)
                ==> fits_maps(trees, id, block_num, delta.storage.maps@)
        },
    }
}

/// Whether changes of storage maps are small enough for the trees to be sure to take them.
pub open spec fn fits_maps(
    trees: Trees,
    account_id: AccountId,
    block_num: BlockNumber,
    maps: Seq<MapDelta>,
) -> bool
    decreases maps.len(),
{
    maps.len() > 0 ==> {
        &&& fits_maps(trees, account_id, block_num, maps.drop_last())
        &&& with_changed_maps(trees, account_id, block_num, maps.drop_last()) matches Some(before)
            ==> fits_tree(
            latest_contents(before, map_lineage(account_id, maps.last().slot_name@)),
            entry_keys(hashed_entries(maps.last().entries@)),
        )
    }
}

/// Whether updates are small enough for the trees to be sure to take them.
pub open spec fn fits_accounts(
    trees: Trees,
    block_num: BlockNumber,
    updates: Seq<BlockAccountUpdate>,
) -> bool
    decreases updates.len(),
{
    updates.len() > 0 ==> {
        &&& fits_accounts(trees, block_num, updates.drop_last())
        &&& with_accounts(trees, block_num, updates.drop_last()) matches Some(before)
            ==> fits_account(before, block_num, updates.last())
    }
}

// KEYS
// ================================================================================================

/// Whether all keys are known under their hashes.
pub open spec fn has_hashed_keys(keys: vstd::map::Map<Word, Word>) -> bool {
    forall|hash: Word| #[trigger] keys.contains_key(hash) ==> map_key_hash_of(keys[hash]) == hash
}

/// The number of storage map keys that are known at once.
pub const STORAGE_MAP_KEY_CACHE_CAPACITY: usize = 16_384;

/// The keys that are known, each after its hash. The one that was learnt last comes last.
pub type KnownKeys = Seq<(Word, Word)>;

/// Whether a key has another hash than the given one.
pub open spec fn has_other_hash(hash: Word) -> spec_fn((Word, Word)) -> bool {
    |entry: (Word, Word)| entry.0 != hash
}

/// The known keys without the one that has the given hash.
pub open spec fn without_hash(keys: KnownKeys, hash: Word) -> KnownKeys {
    keys.filter(has_other_hash(hash))
}

/// The known keys once a key was learnt, again or for the first time. If there are too many, the one
/// that was learnt first is forgotten.
pub open spec fn with_key(keys: KnownKeys, key: Word) -> KnownKeys {
    let hash = map_key_hash_of(key);
    newest(
        without_hash(keys, hash).push((hash, key)),
        STORAGE_MAP_KEY_CACHE_CAPACITY as nat,
    )
}

/// The known keys once further ones were learnt.
pub open spec fn with_keys(keys: KnownKeys, added: Seq<Word>) -> KnownKeys
    decreases added.len(),
{
    if added.len() == 0 {
        keys
    } else {
        with_key(with_keys(keys, added.drop_last()), added.last())
    }
}

/// The keys of entries.
pub open spec fn entry_keys(entries: Seq<(Word, Word)>) -> Seq<Word> {
    entries.map_values(|entry: (Word, Word)| entry.0)
}

/// The known keys with those of all maps among slots.
pub open spec fn with_slot_keys(
    keys: KnownKeys,
    slots: Seq<StorageSlot>,
) -> KnownKeys
    decreases slots.len(),
{
    if slots.len() == 0 {
        keys
    } else {
        match slots.last().content {
            StorageSlotContent::SingleValue(_) => with_slot_keys(keys, slots.drop_last()),
            StorageSlotContent::MapEntries(entries) => with_keys(
                with_slot_keys(keys, slots.drop_last()),
                entry_keys(entries@),
            ),
        }
    }
}

/// The known keys with those of all changed maps.
pub open spec fn with_delta_keys(
    keys: KnownKeys,
    maps: Seq<MapDelta>,
) -> KnownKeys
    decreases maps.len(),
{
    if maps.len() == 0 {
        keys
    } else {
        with_keys(with_delta_keys(keys, maps.drop_last()), entry_keys(maps.last().entries@))
    }
}

/// The known keys with those of all maps of an update.
pub open spec fn with_account_keys(
    keys: KnownKeys,
    update: BlockAccountUpdate,
) -> KnownKeys {
    match update.details {
        AccountUpdateDetails::Private => keys,
        AccountUpdateDetails::FullState(account) => with_slot_keys(keys, account.slots@),
        AccountUpdateDetails::Delta(delta) => with_delta_keys(keys, delta.storage.maps@),
    }
}

/// The known keys with those of all maps of updates.
pub open spec fn with_accounts_keys(
    keys: KnownKeys,
    updates: Seq<BlockAccountUpdate>,
) -> KnownKeys
    decreases updates.len(),
{
    if updates.len() == 0 {
        keys
    } else {
        with_account_keys(with_accounts_keys(keys, updates.drop_last()), updates.last())
    }
}

/// The value of a key in a map, if the map holds it.
pub open spec fn value_in(map: vstd::map::Map<Word, Word>, key: Word) -> Option<Word> {
    if map.contains_key(key) {
        Some(map[key])
    } else {
        None
    }
}

// QUERIES
// ================================================================================================

/// The first block whose states are kept.
pub open spec fn retention_start(chain_tip: BlockNumber) -> BlockNumber {
    if chain_tip.0 >= HISTORICAL_BLOCK_RETENTION {
        BlockNumber((chain_tip.0 - HISTORICAL_BLOCK_RETENTION) as u32)
    } else {
        BlockNumber(0)
    }
}

/// Whether the tree of a lineage is at a block what it is now.
pub open spec fn is_latest_at(trees: Trees, lineage: Seq<u8>, block_num: BlockNumber) -> bool {
    trees[lineage].last().version <= block_num.0
}

/// What the tree of a lineage holds now, if it was changed since a block.
pub open spec fn changed_since(trees: Trees, lineage: Seq<u8>, block_num: BlockNumber) -> Option<
    vstd::map::Map<Word, Word>,
> {
    if is_latest_at(trees, lineage, block_num) {
        None
    } else {
        Some(trees[lineage].last().contents)
    }
}

/// Whether all are encoded proofs of keys of a tree, in order.
pub open spec fn are_proofs(
    proofs: Seq<Vec<u8>>,
    contents: vstd::map::Map<Word, Word>,
    keys: Seq<Word>,
    changed: Option<vstd::map::Map<Word, Word>>,
) -> bool {
    &&& proofs.len() == keys.len()
    &&& forall|i: int|
        0 <= i < proofs.len() ==> is_proof((#[trigger] proofs[i])@, contents, keys[i], changed)
}

/// The hashes of storage map keys.
pub open spec fn hashed_keys(raw_keys: Seq<Word>) -> Seq<Word> {
    raw_keys.map_values(|key: Word| map_key_hash_of(key))
}

/// Whether entries are those of a tree, under the known keys whose hashes the tree holds.
pub open spec fn is_listing(
    entries: Seq<(Word, Word)>,
    contents: vstd::map::Map<Word, Word>,
    keys: vstd::map::Map<Word, Word>,
) -> bool {
    &&& has_distinct_keys(hashed_entries(entries))
    &&& pairs_by_key(hashed_entries(entries)) == contents
    &&& forall|i: int|
        0 <= i < entries.len() ==> keys[map_key_hash_of((#[trigger] entries[i]).0)] == entries[i].0
}

} // verus!
