//! The forest: updates, lookups, proofs and pruning.

use vstd::prelude::*;
use vstd::utf8::encode_utf8;

use crate::account_id::AccountId;
use crate::account_state_forest::laws::{
    lemma_changed_maps_keep_others, lemma_new_maps_keep_others, lemma_update_keeps_other_trees,
    names_map, names_slot, same_tree, touches,
};
use crate::account_state_forest::model::{
    are_proofs, changed_since, delta_keys, entry_keys, fits_account, fits_accounts, fits_maps,
    has_hashed_keys, has_other_hash, hashed_entries, hashed_keys, is_latest_at, is_listing,
    latest_contents, map_lineage, retention_start, tree_at, value_in, vault_lineage, with_account,
    with_account_keys, with_accounts, with_accounts_keys, with_changed_maps, with_changed_vault,
    with_changes, with_delta_keys, with_key, with_keys, with_new_maps, with_new_tree,
    with_slot_keys, without_hash, KnownKeys, Trees, STORAGE_MAP_KEY_CACHE_CAPACITY,
};
use crate::block_number::BlockNumber;
use crate::db::delta::{
    contents_after_delta, contents_after_fungible, contents_after_non_fungible, is_canonical_delta,
    is_vault_delta, lemma_fungible_prefix, lemma_non_fungible_prefix, map_after, unsigned_abs,
    MapDelta, StorageDelta, VaultDelta,
};
use crate::db::entries::{find_entry, has_distinct_keys, lemma_pairs_by_key, pairs_by_key};
use crate::db::history::HISTORICAL_BLOCK_RETENTION;
use crate::db::updates::{
    is_account_update, is_full_state, AccountUpdateDetails, BlockAccountUpdate, FullAccountState,
    StorageSlot, StorageSlotContent,
};
use crate::protocol::{
    account_id_bytes, account_id_to_bytes, are_map_entries, asset_keys, asset_pairs, is_asset,
    is_vault_key, MAX_FUNGIBLE_AMOUNT,
};
use crate::server::ntx_builder::{get_storage_map_witness, get_vault_asset_witnesses};
use crate::smt_forest::{
    are_canonical_entries, blake3_hash, contents_at, count_trees, count_with_last_element,
    empty_tree_root, fits_tree, forest_add_lineage, forest_entries, forest_latest_version,
    forest_lineage_count, forest_open, forest_root, forest_tree_count, forest_trees,
    forest_truncate, forest_update_tree, forest_value, has_ascending_versions, is_forest, is_proof,
    lemma_added_version, lemma_fewer_trees, lemma_fits_fewer, lemma_truncation_keeps_recent,
    map_key_hash, map_key_hash_of, new_forest, smt_root_of, truncated_trees, SmtForest, TreeVersion,
    MAX_TREE_HISTORY,
};
use crate::state::account::{
    AccountStorageMapDetails, AccountStorageMapResult, AccountVaultDetails, Asset,
    StorageMapEntries,
};
use crate::state::trees::are_canonical;
use crate::word::Word;
use crate::word_set::WordSet;

verus! {

// FOREST
// ================================================================================================

/// Errors of updating the forest.
#[derive(Clone, Copy, Debug, PartialEq, Eq, Structural)]
pub enum AccountStateForestError {
    /// An account is new, but the forest holds a tree of it already.
    AccountExists(AccountId),
    /// A change of assets cannot be applied to the account's vault.
    InvalidVaultDelta(AccountId),
    /// The account changed at the block or later already, or a tree takes no more entries.
    UpdateRefused(AccountId),
}

/// The error of an update that fails.
pub open spec fn update_error(trees: Trees, update: BlockAccountUpdate) -> AccountStateForestError {
    let id = update.account_id;
    match update.details {
        AccountUpdateDetails::Delta(delta) => if contents_after_delta(
            latest_contents(trees, vault_lineage(id)),
            delta.vault,
        ) is None {
            AccountStateForestError::InvalidVaultDelta(id)
        } else {
            AccountStateForestError::UpdateRefused(id)
        },
        _ => AccountStateForestError::AccountExists(id),
    }
}

/// Whether no last element occurs more often among some keys than among others.
pub open spec fn has_fewer_keys(fewer: Seq<Word>, keys: Seq<Word>) -> bool {
    forall|element: u64| #[trigger]
        count_with_last_element(fewer, element) <= count_with_last_element(keys, element)
}

/// Another entry, or none, leaves the keys of entries fewer than the keys up to the entry's.
proof fn lemma_has_fewer_keys(entries: Seq<(Word, Word)>, keys: Seq<Word>, count: int)
    requires
        0 <= count < keys.len(),
        has_fewer_keys(entry_keys(entries), keys.take(count)),
    ensures
        has_fewer_keys(entry_keys(entries), keys.take(count + 1)),
        forall|value: Word|
            has_fewer_keys(
                entry_keys(#[trigger] entries.push((keys[count], value))),
                keys.take(count + 1),
            ),
{
    assert(keys.take(count + 1).drop_last() =~= keys.take(count));
    assert(keys.take(count + 1).last() == keys[count]);
    assert forall|element: u64| #[trigger]
        count_with_last_element(entry_keys(entries), element) <= count_with_last_element(
            keys.take(count + 1),
            element,
        ) by {
        assert(count_with_last_element(entry_keys(entries), element) <= count_with_last_element(
            keys.take(count),
            element,
        ));
    }
    assert forall|value: Word|
        has_fewer_keys(
            entry_keys(#[trigger] entries.push((keys[count], value))),
            keys.take(count + 1),
        ) by {
        let pushed = entries.push((keys[count], value));
        assert(entry_keys(pushed).drop_last() =~= entry_keys(entries));
        assert(entry_keys(pushed).last() == keys[count]);
        assert forall|element: u64| #[trigger]
            count_with_last_element(entry_keys(pushed), element) <= count_with_last_element(
                keys.take(count + 1),
                element,
            ) by {
            assert(count_with_last_element(entry_keys(entries), element) <= count_with_last_element(
                keys.take(count),
                element,
            ));
        }
    }
}

/// Errors of reading the forest.
#[derive(Clone, Copy, Debug, PartialEq, Eq, Structural)]
pub enum WitnessError {
    /// The forest holds no such tree at the block.
    RootNotFound,
}

/// The forest, with the storage map keys whose hashes are known. Of these only so many are kept: those
/// that were learnt last. To look a key up does not count as learning it.
pub struct AccountStateForest {
    forest: SmtForest,
    key_cache: Vec<(Word, Word)>,
}

/// The vaults and storage maps of public accounts, and the known storage map keys with their hashes.
#[verifier::ext_equal]
pub struct ForestView {
    pub trees: Trees,
    pub keys: KnownKeys,
}

impl View for AccountStateForest {
    type V = ForestView;

    closed spec fn view(&self) -> ForestView {
        ForestView { trees: forest_trees(self.forest), keys: self.key_cache@ }
    }
}

impl AccountStateForest {
    /// Whether the trees are those of a forest, and keys are cached under their hashes.
    pub closed spec fn is_valid(self) -> bool {
        &&& is_forest(forest_trees(self.forest))
        &&& are_map_entries(self.key_cache@)
        &&& has_hashed_keys(pairs_by_key(self.key_cache@))
        &&& self.key_cache@.len() <= STORAGE_MAP_KEY_CACHE_CAPACITY
    }

    /// Creates an empty forest.
    pub fn new() -> (r: Self)
        ensures
            r.is_valid(),
            r@.trees == vstd::map::Map::<Seq<u8>, Seq<TreeVersion>>::empty(),
            r@.keys == Seq::<(Word, Word)>::empty(),
    {
        let r = AccountStateForest { forest: new_forest(), key_cache: Vec::new() };
        assert(r@.trees =~= vstd::map::Map::<Seq<u8>, Seq<TreeVersion>>::empty());
        r
    }

    /// Returns the root of an empty tree.
    pub fn empty_smt_root() -> (r: Word)
        ensures
            r == smt_root_of(vstd::map::Map::empty()),
    {
        empty_tree_root()
    }

    /// Returns the number of trees.
    pub fn lineage_count(&self) -> (r: usize)
        ensures
            r == self@.trees.dom().len(),
    {
        forest_lineage_count(&self.forest)
    }

    /// Returns the number of versions of all trees.
    pub fn tree_count(&self) -> (r: usize)
        requires
            self.is_valid(),
        ensures
            r == count_trees(self@.trees),
    {
        forest_tree_count(&self.forest)
    }

    // LOOKUPS
    // --------------------------------------------------------------------------------------------

    fn version_at(&self, lineage: [u8; 32], block_num: BlockNumber) -> (r: Option<u64>)
        requires
            self.is_valid(),
        ensures
            r is Some <==> self@.trees.contains_key(lineage@),
            r matches Some(version) ==> version <= self@.trees[lineage@].last().version
                && contents_at(self@.trees[lineage@], version) == tree_at(
                self@.trees,
                lineage@,
                block_num,
            ),
            r matches Some(version) ==> is_latest_at(self@.trees, lineage@, block_num) ==> version
                == self@.trees[lineage@].last().version,
    {
        match forest_latest_version(&self.forest, lineage) {
            None => None,
            Some(latest) => if block_num.as_u64() >= latest {
                Some(latest)
            } else {
                Some(block_num.as_u64())
            },
        }
    }

    fn root_at(&self, lineage: [u8; 32], block_num: BlockNumber) -> (r: Option<Word>)
        requires
            self.is_valid(),
        ensures
            r == (match tree_at(self@.trees, lineage@, block_num) {
                None => None,
                Some(contents) => Some(smt_root_of(contents)),
            }),
    {
        match self.version_at(lineage, block_num) {
            None => None,
            Some(version) => forest_root(&self.forest, lineage, version),
        }
    }

    /// Returns the root of an account's vault at a block, if the forest still holds it.
    pub fn get_vault_root(&self, account_id: AccountId, block_num: BlockNumber) -> (r: Option<Word>)
        requires
            self.is_valid(),
        ensures
            r == (match tree_at(self@.trees, vault_lineage(account_id), block_num) {
                None => None,
                Some(contents) => Some(smt_root_of(contents)),
            }),
    {
        self.root_at(vault_lineage_id(account_id), block_num)
    }

    /// Returns the root of a storage map of an account at a block, if the forest still holds it.
    pub fn get_storage_map_root(
        &self,
        account_id: AccountId,
        slot_name: &str,
        block_num: BlockNumber,
    ) -> (r: Option<Word>)
        requires
            self.is_valid(),
        ensures
            r == (match tree_at(self@.trees, map_lineage(account_id, slot_name@), block_num) {
                None => None,
                Some(contents) => Some(smt_root_of(contents)),
            }),
    {
        self.root_at(map_lineage_id(account_id, slot_name), block_num)
    }

    // UPDATES
    // --------------------------------------------------------------------------------------------

    fn current_value(&self, lineage: [u8; 32], updates: &Vec<(Word, Word)>, key: Word) -> (r: Option<
        Word,
    >)
        requires
            self.is_valid(),
            key.is_canonical(),
            are_canonical_entries(updates@),
        ensures
            r == value_in(map_after(latest_contents(self@.trees, lineage@), updates@), key),
            r matches Some(value) ==> value.is_canonical(),
    {
        let ghost contents = latest_contents(self@.trees, lineage@);
        let mut i: usize = updates.len();
        while i > 0
            invariant
                i <= updates@.len(),
                are_canonical_entries(updates@),
                contents == latest_contents(self@.trees, lineage@),
                forall|k: int| i <= k < updates@.len() ==> (#[trigger] updates@[k]).0 != key,
            decreases i,
        {
            let (changed, value) = updates[i - 1];
            if changed == key {
                proof {
                    lemma_untouched_key(contents, updates@, key, i as int);
                    assert(updates@.take(i as int) =~= updates@.take(i - 1).push((changed, value)));
                    lemma_map_after_push(contents, updates@.take(i - 1), (changed, value));
                }
                return if value.is_empty() {
                    None
                } else {
                    Some(value)
                };
            }
            i = i - 1;
        }
        proof {
            lemma_untouched_key(contents, updates@, key, 0);
        }
        match forest_latest_version(&self.forest, lineage) {
            None => None,
            Some(latest) => forest_value(&self.forest, lineage, latest, key),
        }
    }

    fn vault_updates(&self, lineage: [u8; 32], delta: &VaultDelta) -> (r: Option<Vec<(Word, Word)>>)
        requires
            self.is_valid(),
            is_vault_delta(*delta),
        ensures
            ({
                let contents = latest_contents(self@.trees, lineage@);
                match contents_after_delta(contents, *delta) {
                    None => r is None,
                    Some(after) => r matches Some(updates) && map_after(contents, updates@) == after
                        && are_canonical_entries(updates@) && has_fewer_keys(
                        entry_keys(updates@),
                        delta_keys(*delta),
                    ),
                }
            }),
    {
        let ghost contents = latest_contents(self@.trees, lineage@);
        let ghost keys = delta_keys(*delta);
        let mut updates: Vec<(Word, Word)> = Vec::new();
        assert(entry_keys(updates@) =~= keys.take(0));
        let mut i: usize = 0;
        while i < delta.fungible.len()
            invariant
                i <= delta.fungible@.len(),
                self.is_valid(),
                is_vault_delta(*delta),
                contents == latest_contents(self@.trees, lineage@),
                contents_after_fungible(contents, delta.fungible@.take(i as int)) == Some(
                    map_after(contents, updates@),
                ),
                are_canonical_entries(updates@),
                keys == delta_keys(*delta),
                has_fewer_keys(entry_keys(updates@), keys.take(i as int)),
            decreases delta.fungible@.len() - i,
        {
            let (key, change) = delta.fungible[i];
            let ghost before = map_after(contents, updates@);
            proof {
                let next = delta.fungible@.take(i + 1);
                assert(next.drop_last() =~= delta.fungible@.take(i as int));
                assert(next.last() == delta.fungible@[i as int]);
                assert(is_vault_key(delta.fungible@[i as int].0));
                assert(keys[i as int] == key);
                lemma_has_fewer_keys(updates@, keys, i as int);
            }
            if change != 0 {
                let amount = unsigned_abs(change);
                let current = self.current_value(lineage, &updates, key);
                let value: u64 = if change > 0 {
                    let held: u64 = match current {
                        Some(held) => held.0,
                        None => 0,
                    };
                    let sum: u128 = held as u128 + amount as u128;
                    if sum > MAX_FUNGIBLE_AMOUNT as u128 {
                        proof {
                            lemma_fungible_prefix(contents, delta.fungible@, i + 1);
                        }
                        return None;
                    }
                    sum as u64
                } else {
                    match current {
                        Some(held) if amount <= held.0 => held.0 - amount,
                        _ => {
                            proof {
                                lemma_fungible_prefix(contents, delta.fungible@, i + 1);
                            }
                            return None;
                        },
                    }
                };
                proof {
                    lemma_map_after_push(contents, updates@, (key, Word(value, 0, 0, 0)));
                }
                updates.push((key, Word(value, 0, 0, 0)));
            }
            i = i + 1;
        }
        assert(delta.fungible@.take(i as int) =~= delta.fungible@);
        let ghost fungible = map_after(contents, updates@);
        let mut j: usize = 0;
        while j < delta.non_fungible.len()
            invariant
                j <= delta.non_fungible@.len(),
                self.is_valid(),
                is_vault_delta(*delta),
                contents == latest_contents(self@.trees, lineage@),
                contents_after_fungible(contents, delta.fungible@) == Some(fungible),
                contents_after_non_fungible(fungible, delta.non_fungible@.take(j as int)) == Some(
                    map_after(contents, updates@),
                ),
                are_canonical_entries(updates@),
                keys == delta_keys(*delta),
                has_fewer_keys(entry_keys(updates@), keys.take(delta.fungible@.len() + j)),
            decreases delta.non_fungible@.len() - j,
        {
            let (asset, added) = delta.non_fungible[j];
            proof {
                let next = delta.non_fungible@.take(j + 1);
                assert(next.drop_last() =~= delta.non_fungible@.take(j as int));
                assert(next.last() == delta.non_fungible@[j as int]);
                assert(is_asset(delta.non_fungible@[j as int].0));
                assert(keys[delta.fungible@.len() + j] == asset.key);
                lemma_has_fewer_keys(updates@, keys, delta.fungible@.len() + j);
            }
            let held = self.current_value(lineage, &updates, asset.key);
            if held.is_some() == added {
                proof {
                    lemma_non_fungible_prefix(fungible, delta.non_fungible@, j + 1);
                }
                return None;
            }
            let value = if added {
                asset.value
            } else {
                Word::empty()
            };
            proof {
                lemma_map_after_push(contents, updates@, (asset.key, value));
            }
            updates.push((asset.key, value));
            j = j + 1;
        }
        assert(delta.non_fungible@.take(j as int) =~= delta.non_fungible@);
        assert(keys.take(delta.fungible@.len() + j) =~= keys);
        Some(updates)
    }

    fn add_tree(&mut self, lineage: [u8; 32], block_num: BlockNumber, entries: &Vec<(Word, Word)>) -> (r:
        bool)
        requires
            old(self).is_valid(),
            are_canonical_entries(entries@),
        ensures
            final(self).is_valid(),
            final(self)@.keys == old(self)@.keys,
            match with_new_tree(old(self)@.trees, lineage@, block_num, entries@) {
                None => !r,
                Some(trees) => {
                    &&& r ==> final(self)@.trees == trees
                    &&& !r ==> !fits_tree(vstd::map::Map::empty(), entry_keys(entries@))
                },
            },
            !r ==> final(self)@.trees == old(self)@.trees,
    {
        let added = forest_add_lineage(&mut self.forest, lineage, block_num.as_u64(), entries);
        added
    }

    fn change_tree(
        &mut self,
        lineage: [u8; 32],
        block_num: BlockNumber,
        entries: &Vec<(Word, Word)>,
    ) -> (r: bool)
        requires
            old(self).is_valid(),
            are_canonical_entries(entries@),
        ensures
            final(self).is_valid(),
            final(self)@.keys == old(self)@.keys,
            match with_changes(old(self)@.trees, lineage@, block_num, entries@) {
                None => !r,
                Some(trees) => {
                    &&& r ==> final(self)@.trees == trees
                    &&& !r ==> !fits_tree(
                        latest_contents(old(self)@.trees, lineage@),
                        entry_keys(entries@),
                    )
                },
            },
            !r ==> final(self)@.trees == old(self)@.trees,
    {
        match forest_latest_version(&self.forest, lineage) {
            None => self.add_tree(lineage, block_num, entries),
            Some(_) => {
                let ghost before = self@.trees;
                let changed = forest_update_tree(
                    &mut self.forest,
                    lineage,
                    block_num.as_u64(),
                    entries,
                );
                proof {
                    if changed {
                        let versions = before[lineage@];
                        let added = TreeVersion {
                            version: block_num.0 as u64,
                            contents: map_after(versions.last().contents, entries@),
                        };
                        lemma_added_version(versions, added, 0);
                    }
                }
                changed
            },
        }
    }

    fn cache_key(&mut self, raw_key: Word)
        requires
            old(self).is_valid(),
            raw_key.is_canonical(),
        ensures
            final(self).is_valid(),
            final(self)@.trees == old(self)@.trees,
            final(self)@.keys == with_key(old(self)@.keys, raw_key),
    {
        let hash = map_key_hash(raw_key);
        let ghost before = self.key_cache@;
        let ghost kept = without_hash(before, hash);
        match find_entry(&self.key_cache, hash) {
            Some(position) => {
                proof {
                    lemma_without_hash(before, position as int);
                }
                let _ = self.key_cache.remove(position);
            },
            None => {
                proof {
                    lemma_without_unknown_hash(before, hash);
                }
            },
        }
        assert(self.key_cache@ == kept);
        proof {
            lemma_cached_key(before, raw_key);
        }
        self.key_cache.push((hash, raw_key));
        if self.key_cache.len() > STORAGE_MAP_KEY_CACHE_CAPACITY {
            let _ = self.key_cache.remove(0);
        }
        assert(self.key_cache@ =~= with_key(before, raw_key));
    }

    /// Makes storage map keys known, so that maps that hold their hashes can be listed.
    pub fn cache_storage_map_keys(&mut self, raw_keys: &Vec<Word>)
        requires
            old(self).is_valid(),
            are_canonical(raw_keys@),
        ensures
            final(self).is_valid(),
            final(self)@.trees == old(self)@.trees,
            final(self)@.keys == with_keys(old(self)@.keys, raw_keys@),
    {
        let mut i: usize = 0;
        while i < raw_keys.len()
            invariant
                i <= raw_keys@.len(),
                are_canonical(raw_keys@),
                self.is_valid(),
                self@.trees == old(self)@.trees,
                self@.keys == with_keys(old(self)@.keys, raw_keys@.take(i as int)),
            decreases raw_keys@.len() - i,
        {
            proof {
                assert(raw_keys@.take(i + 1).drop_last() =~= raw_keys@.take(i as int));
                assert(raw_keys@.take(i + 1).last() == raw_keys@[i as int]);
            }
            self.cache_key(raw_keys[i]);
            i = i + 1;
        }
        assert(raw_keys@.take(i as int) =~= raw_keys@);
    }

    /// Forgets all storage map keys.
    pub fn clear_storage_map_key_cache(&mut self)
        requires
            old(self).is_valid(),
        ensures
            final(self).is_valid(),
            final(self)@.trees == old(self)@.trees,
            final(self)@.keys == Seq::<(Word, Word)>::empty(),
    {
        self.key_cache = Vec::new();
    }

    fn hash_and_cache(&mut self, entries: &Vec<(Word, Word)>) -> (r: Vec<(Word, Word)>)
        requires
            old(self).is_valid(),
            are_canonical_entries(entries@),
        ensures
            final(self).is_valid(),
            final(self)@.trees == old(self)@.trees,
            final(self)@.keys == with_keys(old(self)@.keys, entry_keys(entries@)),
            r@ == hashed_entries(entries@),
            are_canonical_entries(r@),
    {
        let ghost keys = entry_keys(entries@);
        let mut hashed: Vec<(Word, Word)> = Vec::new();
        let mut i: usize = 0;
        while i < entries.len()
            invariant
                i <= entries@.len(),
                are_canonical_entries(entries@),
                keys == entry_keys(entries@),
                self.is_valid(),
                self@.trees == old(self)@.trees,
                self@.keys == with_keys(old(self)@.keys, keys.take(i as int)),
                hashed@ =~= hashed_entries(entries@).take(i as int),
                are_canonical_entries(hashed@),
            decreases entries@.len() - i,
        {
            let (key, value) = entries[i];
            proof {
                assert(entries@[i as int].0.is_canonical());
                assert(keys.take(i + 1).drop_last() =~= keys.take(i as int));
                assert(keys.take(i + 1).last() == key);
            }
            self.cache_key(key);
            hashed.push((map_key_hash(key), value));
            i = i + 1;
        }
        assert(keys.take(i as int) =~= keys);
        assert(hashed@ =~= hashed_entries(entries@));
        hashed
    }

    fn insert_account(&mut self, block_num: BlockNumber, account_id: AccountId, account: &FullAccountState) -> (r:
        Result<(), AccountStateForestError>)
        requires
            old(self).is_valid(),
            is_full_state(*account),
        ensures
            final(self).is_valid(),
            ({
                let after = match with_new_tree(
                    old(self)@.trees,
                    vault_lineage(account_id),
                    block_num,
                    asset_pairs(account.assets@),
                ) {
                    None => None,
                    Some(trees) => with_new_maps(trees, account_id, block_num, account.slots@),
                };
                &&& r is Ok ==> after == Some(final(self)@.trees)
                &&& r is Ok ==> final(self)@.keys == with_slot_keys(
                    old(self)@.keys,
                    account.slots@,
                )
                &&& r is Err && after is Some ==> !fits_tree(
                    vstd::map::Map::empty(),
                    asset_keys(account.assets@),
                ) || exists|i: int|
                    0 <= i < account.slots@.len() && (#[trigger] account.slots@[i]).content is MapEntries
                        && !fits_tree(
                        vstd::map::Map::empty(),
                        entry_keys(hashed_entries(account.slots@[i].content->MapEntries_0@)),
                    )
            }),
            r matches Err(error) ==> error == AccountStateForestError::AccountExists(account_id),
            r is Err ==> forall|lineage: Seq<u8>|
                lineage != vault_lineage(account_id) && !names_slot(
                    account_id,
                    account.slots@,
                    lineage,
                ) ==> #[trigger] same_tree(old(self)@.trees, final(self)@.trees, lineage),
    {
        let ghost before = self@;
        let mut assets: Vec<(Word, Word)> = Vec::new();
        let mut i: usize = 0;
        while i < account.assets.len()
            invariant
                i <= account.assets@.len(),
                is_full_state(*account),
                assets@ =~= asset_pairs(account.assets@).take(i as int),
                are_canonical_entries(assets@),
            decreases account.assets@.len() - i,
        {
            proof {
                assert(is_asset(account.assets@[i as int]));
            }
            assets.push((account.assets[i].key, account.assets[i].value));
            i = i + 1;
        }
        assert(assets@ =~= asset_pairs(account.assets@));
        assert(entry_keys(assets@) =~= asset_keys(account.assets@));
        if !self.add_tree(vault_lineage_id(account_id), block_num, &assets) {
            return Err(AccountStateForestError::AccountExists(account_id));
        }
        let ghost with_vault = self@.trees;
        let mut j: usize = 0;
        while j < account.slots.len()
            invariant
                j <= account.slots@.len(),
                is_full_state(*account),
                self.is_valid(),
                before == old(self)@,
                Some(with_vault) == with_new_tree(
                    before.trees,
                    vault_lineage(account_id),
                    block_num,
                    asset_pairs(account.assets@),
                ),
                with_new_maps(
                    with_vault,
                    account_id,
                    block_num,
                    account.slots@.take(j as int),
                ) == Some(self@.trees),
                self@.keys == with_slot_keys(before.keys, account.slots@.take(j as int)),
            decreases account.slots@.len() - j,
        {
            proof {
                assert(account.slots@.take(j + 1).drop_last() =~= account.slots@.take(j as int));
                assert(account.slots@.take(j + 1).last() == account.slots@[j as int]);
            }
            if let StorageSlotContent::MapEntries(entries) = &account.slots[j].content {
                assert(are_map_entries(account.slots@[j as int].content->MapEntries_0@));
                let hashed = self.hash_and_cache(entries);
                let lineage = map_lineage_id(account_id, account.slots[j].name.as_str());
                if !self.add_tree(lineage, block_num, &hashed) {
                    proof {
                        let added = account.slots@.take(j as int);
                        assert forall|lineage: Seq<u8>|
                            lineage != vault_lineage(account_id) && !names_slot(
                                account_id,
                                account.slots@,
                                lineage,
                            ) implies #[trigger] same_tree(before.trees, self@.trees, lineage) by {
                            assert(!names_slot(account_id, added, lineage)) by {
                                if names_slot(account_id, added, lineage) {
                                    let i = choose|i: int|
                                        0 <= i < added.len() && map_lineage(
                                            account_id,
                                            (#[trigger] added[i]).name@,
                                        ) == lineage;
                                    assert(account.slots@[i] == added[i]);
                                }
                            }
                            lemma_new_maps_keep_others(
                                with_vault,
                                account_id,
                                block_num,
                                added,
                                lineage,
                            );
                        }
                        if with_new_maps(
                            with_vault,
                            account_id,
                            block_num,
                            account.slots@.take(j + 1),
                        ) is None {
                            lemma_new_maps_prefix(
                                with_vault,
                                account_id,
                                block_num,
                                account.slots@,
                                j + 1,
                            );
                        }
                    }
                    return Err(AccountStateForestError::AccountExists(account_id));
                }
            }
            j = j + 1;
        }
        assert(account.slots@.take(j as int) =~= account.slots@);
        Ok(())
    }

    fn change_vault(&mut self, block_num: BlockNumber, account_id: AccountId, delta: &VaultDelta) -> (r:
        Result<(), AccountStateForestError>)
        requires
            old(self).is_valid(),
            is_vault_delta(*delta),
        ensures
            final(self).is_valid(),
            final(self)@.keys == old(self)@.keys,
            ({
                let after = with_changed_vault(old(self)@.trees, account_id, block_num, *delta);
                &&& r is Ok ==> after == Some(final(self)@.trees)
                &&& r is Err && after is Some ==> !fits_tree(
                    latest_contents(old(self)@.trees, vault_lineage(account_id)),
                    delta_keys(*delta),
                )
            }),
            r is Err ==> final(self)@.trees == old(self)@.trees,
            r matches Err(error) ==> error == (if contents_after_delta(
                latest_contents(old(self)@.trees, vault_lineage(account_id)),
                *delta,
            ) is None {
                AccountStateForestError::InvalidVaultDelta(account_id)
            } else {
                AccountStateForestError::UpdateRefused(account_id)
            }),
            contents_after_delta(
                latest_contents(old(self)@.trees, vault_lineage(account_id)),
                *delta,
            ) is None ==> r is Err,
    {
        if delta.fungible.len() == 0 && delta.non_fungible.len() == 0 {
            return Ok(());
        }
        let lineage = vault_lineage_id(account_id);
        let updates = match self.vault_updates(lineage, delta) {
            Some(updates) => updates,
            None => return Err(AccountStateForestError::InvalidVaultDelta(account_id)),
        };
        let ghost contents = latest_contents(self@.trees, lineage@);
        if !self.change_tree(lineage, block_num, &updates) {
            proof {
                if fits_tree(contents, delta_keys(*delta)) {
                    lemma_fits_fewer(contents, entry_keys(updates@), delta_keys(*delta));
                }
            }
            return Err(AccountStateForestError::UpdateRefused(account_id));
        }
        Ok(())
    }

    fn change_maps(&mut self, block_num: BlockNumber, account_id: AccountId, delta: &StorageDelta) -> (r:
        Result<(), AccountStateForestError>)
        requires
            old(self).is_valid(),
            is_canonical_delta(*delta),
        ensures
            final(self).is_valid(),
            ({
                let after = with_changed_maps(old(self)@.trees, account_id, block_num, delta.maps@);
                &&& r is Ok ==> after == Some(final(self)@.trees)
                &&& r is Ok ==> final(self)@.keys == with_delta_keys(old(self)@.keys, delta.maps@)
                &&& r is Err && after is Some ==> !fits_maps(
                    old(self)@.trees,
                    account_id,
                    block_num,
                    delta.maps@,
                )
            }),
            r matches Err(error) ==> error == AccountStateForestError::UpdateRefused(account_id),
            r is Err ==> forall|lineage: Seq<u8>|
                !names_map(account_id, delta.maps@, lineage) ==> #[trigger] same_tree(
                    old(self)@.trees,
                    final(self)@.trees,
                    lineage,
                ),
    {
        let ghost before = self@;
        let mut i: usize = 0;
        while i < delta.maps.len()
            invariant
                i <= delta.maps@.len(),
                is_canonical_delta(*delta),
                self.is_valid(),
                before == old(self)@,
                with_changed_maps(before.trees, account_id, block_num, delta.maps@.take(i as int))
                    == Some(self@.trees),
                self@.keys == with_delta_keys(before.keys, delta.maps@.take(i as int)),
            decreases delta.maps@.len() - i,
        {
            let map = &delta.maps[i];
            let ghost here = self@;
            proof {
                assert(delta.maps@.take(i + 1).drop_last() =~= delta.maps@.take(i as int));
                assert(delta.maps@.take(i + 1).last() == delta.maps@[i as int]);
                assert forall|k: int| 0 <= k < map.entries@.len() implies (
                #[trigger] map.entries@[k]).0.is_canonical() && map.entries@[k].1.is_canonical() by {
                    assert(delta.maps@[i as int].entries@[k].0.is_canonical());
                }
            }
            if map.entries.len() > 0 {
                let hashed = self.hash_and_cache(&map.entries);
                let lineage = map_lineage_id(account_id, map.slot_name.as_str());
                if !self.change_tree(lineage, block_num, &hashed) {
                    proof {
                        let changed = delta.maps@.take(i as int);
                        assert forall|lineage: Seq<u8>|
                            !names_map(account_id, delta.maps@, lineage) implies #[trigger] same_tree(
                            before.trees,
                            self@.trees,
                            lineage,
                        ) by {
                            assert(!names_map(account_id, changed, lineage)) by {
                                if names_map(account_id, changed, lineage) {
                                    let k = choose|k: int|
                                        0 <= k < changed.len() && map_lineage(
                                            account_id,
                                            (#[trigger] changed[k]).slot_name@,
                                        ) == lineage;
                                    assert(delta.maps@[k] == changed[k]);
                                }
                            }
                            lemma_changed_maps_keep_others(
                                before.trees,
                                account_id,
                                block_num,
                                changed,
                                lineage,
                            );
                        }
                        lemma_changed_maps_prefix(
                            before.trees,
                            account_id,
                            block_num,
                            delta.maps@,
                            i + 1,
                        );
                    }
                    return Err(AccountStateForestError::UpdateRefused(account_id));
                }
            } else {
                assert(entry_keys(map.entries@) =~= Seq::empty());
            }
            i = i + 1;
        }
        assert(delta.maps@.take(i as int) =~= delta.maps@);
        Ok(())
    }

    /// Updates the trees of an account with its whole state or with a change of its state. A whole
    /// state records all trees, even empty ones, a change only the trees that it changes. If the
    /// update fails, some trees of the account may have been updated, but no other trees.
    pub fn update_account(&mut self, block_num: BlockNumber, update: &BlockAccountUpdate) -> (r: Result<
        (),
        AccountStateForestError,
    >)
        requires
            old(self).is_valid(),
            is_account_update(*update),
        ensures
            final(self).is_valid(),
            r is Ok ==> with_account(old(self)@.trees, block_num, *update) == Some(
                final(self)@.trees,
            ),
            r is Ok ==> final(self)@.keys == with_account_keys(old(self)@.keys, *update),
            r is Err && with_account(old(self)@.trees, block_num, *update) is Some
                ==> !fits_account(old(self)@.trees, block_num, *update),
            r matches Err(error) ==> error == update_error(old(self)@.trees, *update),
            r is Err ==> forall|lineage: Seq<u8>|
                !touches(*update, lineage) ==> #[trigger] same_tree(
                    old(self)@.trees,
                    final(self)@.trees,
                    lineage,
                ),
    {
        match &update.details {
            AccountUpdateDetails::Private => Ok(()),
            AccountUpdateDetails::FullState(account) => self.insert_account(
                block_num,
                update.account_id,
                account,
            ),
            AccountUpdateDetails::Delta(delta) => {
                let ghost before = self@.trees;
                match self.change_vault(block_num, update.account_id, &delta.vault) {
                    Ok(()) => {},
                    Err(error) => return Err(error),
                }
                let ghost with_vault = self@.trees;
                let result = self.change_maps(block_num, update.account_id, &delta.storage);
                proof {
                    assert forall|lineage: Seq<u8>|
                        result is Err && !touches(*update, lineage) implies #[trigger] same_tree(
                        before,
                        self@.trees,
                        lineage,
                    ) by {
                        assert(same_tree(before, with_vault, lineage));
                        assert(same_tree(with_vault, self@.trees, lineage));
                    }
                }
                result
            },
        }
    }

    /// Updates the trees of all accounts that a block changes.
    pub fn apply_block_updates(
        &mut self,
        block_num: BlockNumber,
        updates: &Vec<BlockAccountUpdate>,
    ) -> (r: Result<(), AccountStateForestError>)
        requires
            old(self).is_valid(),
            forall|i: int| 0 <= i < updates@.len() ==> is_account_update(#[trigger] updates@[i]),
        ensures
            final(self).is_valid(),
            r is Ok ==> with_accounts(old(self)@.trees, block_num, updates@) == Some(
                final(self)@.trees,
            ),
            r is Ok ==> final(self)@.keys == with_accounts_keys(old(self)@.keys, updates@),
            r is Err && with_accounts(old(self)@.trees, block_num, updates@) is Some
                ==> !fits_accounts(old(self)@.trees, block_num, updates@),
            r matches Err(error) ==> exists|i: int|
                {
                    &&& 0 <= i < updates@.len()
                    &&& #[trigger] with_accounts(
                        old(self)@.trees,
                        block_num,
                        updates@.take(i),
                    ) matches Some(before)
                    &&& error == update_error(before, updates@[i])
                },
            r is Err ==> forall|lineage: Seq<u8>|
                (forall|i: int| 0 <= i < updates@.len() ==> !touches(#[trigger] updates@[i], lineage))
                    ==> #[trigger] same_tree(old(self)@.trees, final(self)@.trees, lineage),
    {
        let ghost before = self@;
        let mut i: usize = 0;
        while i < updates.len()
            invariant
                i <= updates@.len(),
                before == old(self)@,
                self.is_valid(),
                forall|k: int|
                    0 <= k < updates@.len() ==> is_account_update(#[trigger] updates@[k]),
                with_accounts(before.trees, block_num, updates@.take(i as int)) == Some(
                    self@.trees,
                ),
                self@.keys == with_accounts_keys(before.keys, updates@.take(i as int)),
                forall|lineage: Seq<u8>|
                    (forall|k: int|
                        0 <= k < updates@.len() ==> !touches(#[trigger] updates@[k], lineage))
                        ==> #[trigger] same_tree(before.trees, self@.trees, lineage),
            decreases updates@.len() - i,
        {
            let ghost here = self@.trees;
            proof {
                assert(updates@.take(i + 1).drop_last() =~= updates@.take(i as int));
                assert(updates@.take(i + 1).last() == updates@[i as int]);
            }
            match self.update_account(block_num, &updates[i]) {
                Ok(()) => {
                    proof {
                        assert forall|lineage: Seq<u8>|
                            (forall|k: int|
                                0 <= k < updates@.len() ==> !touches(
                                    #[trigger] updates@[k],
                                    lineage,
                                )) implies #[trigger] same_tree(
                            before.trees,
                            self@.trees,
                            lineage,
                        ) by {
                            assert(!touches(updates@[i as int], lineage));
                            assert(same_tree(before.trees, here, lineage));
                            lemma_update_keeps_other_trees(
                                here,
                                block_num,
                                updates@[i as int],
                                lineage,
                            );
                        }
                    }
                },
                Err(error) => {
                    proof {
                        assert forall|lineage: Seq<u8>|
                            (forall|k: int|
                                0 <= k < updates@.len() ==> !touches(
                                    #[trigger] updates@[k],
                                    lineage,
                                )) implies #[trigger] same_tree(
                            before.trees,
                            self@.trees,
                            lineage,
                        ) by {
                            assert(!touches(updates@[i as int], lineage));
                            assert(same_tree(before.trees, here, lineage));
                            assert(same_tree(here, self@.trees, lineage));
                        }
                        assert(with_accounts(
                            before.trees,
                            block_num,
                            updates@.take(i as int),
                        ) is Some);
                        lemma_accounts_prefix(before.trees, block_num, updates@, i + 1);
                    }
                    return Err(error);
                },
            }
            i = i + 1;
        }
        assert(updates@.take(i as int) =~= updates@);
        Ok(())
    }

    // WITNESSES
    // --------------------------------------------------------------------------------------------

    /// Returns the encoded proofs of vault keys of an account at a block, in ascending order of the
    /// keys.
    pub fn get_vault_asset_witnesses(
        &self,
        account_id: AccountId,
        block_num: BlockNumber,
        vault_keys: &WordSet,
    ) -> (r: Result<Vec<Vec<u8>>, WitnessError>)
        requires
            self.is_valid(),
            vault_keys.is_valid(),
            are_canonical(vault_keys.words@),
        ensures
            match tree_at(self@.trees, vault_lineage(account_id), block_num) {
                None => r == Err::<Vec<Vec<u8>>, WitnessError>(WitnessError::RootNotFound),
                Some(contents) => r matches Ok(proofs) && are_proofs(
                    proofs@,
                    contents,
                    vault_keys.words@,
                    changed_since(self@.trees, vault_lineage(account_id), block_num),
                ),
            },
    {
        self.open_keys(vault_lineage_id(account_id), block_num, &vault_keys.words)
    }

    fn open_keys(&self, lineage: [u8; 32], block_num: BlockNumber, keys: &Vec<Word>) -> (r: Result<
        Vec<Vec<u8>>,
        WitnessError,
    >)
        requires
            self.is_valid(),
            are_canonical(keys@),
        ensures
            match tree_at(self@.trees, lineage@, block_num) {
                None => r == Err::<Vec<Vec<u8>>, WitnessError>(WitnessError::RootNotFound),
                Some(contents) => r matches Ok(proofs) && are_proofs(
                    proofs@,
                    contents,
                    keys@,
                    changed_since(self@.trees, lineage@, block_num),
                ),
            },
    {
        let version = match self.version_at(lineage, block_num) {
            Some(version) => version,
            None => return Err(WitnessError::RootNotFound),
        };
        if forest_root(&self.forest, lineage, version).is_none() {
            return Err(WitnessError::RootNotFound);
        }
        let ghost contents = tree_at(self@.trees, lineage@, block_num)->0;
        let ghost changed = changed_since(self@.trees, lineage@, block_num);
        let mut proofs: Vec<Vec<u8>> = Vec::new();
        let mut i: usize = 0;
        while i < keys.len()
            invariant
                i <= keys@.len(),
                self.is_valid(),
                are_canonical(keys@),
                self@.trees.contains_key(lineage@),
                version <= self@.trees[lineage@].last().version,
                contents_at(self@.trees[lineage@], version) == Some(contents),
                tree_at(self@.trees, lineage@, block_num) == Some(contents),
                changed == changed_since(self@.trees, lineage@, block_num),
                changed is None ==> version == self@.trees[lineage@].last().version,
                are_proofs(proofs@, contents, keys@.take(i as int), changed),
            decreases keys@.len() - i,
        {
            match forest_open(&self.forest, lineage, version, keys[i]) {
                Some(opened) => proofs.push(opened),
                None => return Err(WitnessError::RootNotFound),
            }
            i = i + 1;
        }
        assert(keys@.take(i as int) =~= keys@);
        Ok(proofs)
    }

    /// Returns the encoded proof of an entry of a storage map of an account at a block. The proof is
    /// one of the hashed key.
    pub fn get_storage_map_witness(
        &self,
        account_id: AccountId,
        slot_name: &str,
        block_num: BlockNumber,
        raw_key: Word,
    ) -> (r: Result<Vec<u8>, WitnessError>)
        requires
            self.is_valid(),
        ensures
            match tree_at(self@.trees, map_lineage(account_id, slot_name@), block_num) {
                None => r == Err::<Vec<u8>, WitnessError>(WitnessError::RootNotFound),
                Some(contents) => r matches Ok(opened) && is_proof(
                    opened@,
                    contents,
                    map_key_hash_of(raw_key),
                    changed_since(
                        self@.trees,
                        map_lineage(account_id, slot_name@),
                        block_num,
                    ),
                ),
            },
    {
        let lineage = map_lineage_id(account_id, slot_name);
        let version = match self.version_at(lineage, block_num) {
            Some(version) => version,
            None => return Err(WitnessError::RootNotFound),
        };
        match forest_open(&self.forest, lineage, version, map_key_hash(raw_key)) {
            Some(opened) => Ok(opened),
            None => Err(WitnessError::RootNotFound),
        }
    }

    /// Returns the proofs of keys of a storage map of an account at a block, or `None` if the forest
    /// does not hold the map at the block.
    pub fn get_storage_map_details_for_keys(
        &self,
        account_id: AccountId,
        slot_name: String,
        block_num: BlockNumber,
        raw_keys: &Vec<Word>,
    ) -> (r: Option<Result<AccountStorageMapDetails, WitnessError>>)
        requires
            self.is_valid(),
        ensures
            match tree_at(self@.trees, map_lineage(account_id, slot_name@), block_num) {
                None => r is None,
                Some(contents) => r matches Some(Ok(details)) && details.slot_name == slot_name
                    && details.entries is EntriesWithProofs && are_proofs(
                    details.entries->EntriesWithProofs_0@,
                    contents,
                    hashed_keys(raw_keys@),
                    changed_since(
                        self@.trees,
                        map_lineage(account_id, slot_name@),
                        block_num,
                    ),
                ),
            },
    {
        let lineage = map_lineage_id(account_id, slot_name.as_str());
        let mut hashed: Vec<Word> = Vec::new();
        let mut i: usize = 0;
        while i < raw_keys.len()
            invariant
                i <= raw_keys@.len(),
                hashed@ =~= hashed_keys(raw_keys@).take(i as int),
                are_canonical(hashed@),
            decreases raw_keys@.len() - i,
        {
            hashed.push(map_key_hash(raw_keys[i]));
            i = i + 1;
        }
        assert(hashed@ =~= hashed_keys(raw_keys@));
        match self.open_keys(lineage, block_num, &hashed) {
            Err(_) => None,
            Ok(proofs) => Some(
                Ok(
                    AccountStorageMapDetails {
                        slot_name,
                        entries: StorageMapEntries::EntriesWithProofs(proofs),
                    },
                ),
            ),
        }
    }

    // CONTENTS
    // --------------------------------------------------------------------------------------------

    fn entries_at(&self, lineage: [u8; 32], block_num: BlockNumber) -> (r: Option<Vec<(Word, Word)>>)
        requires
            self.is_valid(),
        ensures
            match tree_at(self@.trees, lineage@, block_num) {
                None => r is None,
                Some(contents) => r matches Some(entries) && has_distinct_keys(entries@)
                    && pairs_by_key(entries@) == contents,
            },
    {
        match self.version_at(lineage, block_num) {
            None => None,
            Some(version) => forest_entries(&self.forest, lineage, version),
        }
    }

    /// Returns the assets of an account at a block, in no particular order, unless there are more than
    /// a response may hold.
    pub fn get_vault_details(
        &self,
        account_id: AccountId,
        block_num: BlockNumber,
        max_return_entries: usize,
    ) -> (r: Result<AccountVaultDetails, WitnessError>)
        requires
            self.is_valid(),
        ensures
            match tree_at(self@.trees, vault_lineage(account_id), block_num) {
                None => r == Err::<AccountVaultDetails, WitnessError>(WitnessError::RootNotFound),
                Some(contents) => if contents.len() > max_return_entries {
                    r == Ok::<AccountVaultDetails, WitnessError>(AccountVaultDetails::LimitExceeded)
                } else {
                    r matches Ok(AccountVaultDetails::Assets(assets)) && has_distinct_keys(
                        asset_pairs(assets@),
                    ) && pairs_by_key(asset_pairs(assets@)) == contents
                },
            },
    {
        let entries = match self.entries_at(vault_lineage_id(account_id), block_num) {
            Some(entries) => entries,
            None => return Err(WitnessError::RootNotFound),
        };
        proof {
            lemma_pairs_by_key(entries@);
        }
        if entries.len() > max_return_entries {
            return Ok(AccountVaultDetails::LimitExceeded);
        }
        let mut assets: Vec<Asset> = Vec::new();
        let mut i: usize = 0;
        while i < entries.len()
            invariant
                i <= entries@.len(),
                asset_pairs(assets@) =~= entries@.take(i as int),
            decreases entries@.len() - i,
        {
            let (key, value) = entries[i];
            let ghost before = assets@;
            assets.push(Asset { key, value });
            assert(asset_pairs(assets@) =~= asset_pairs(before).push((key, value)));
            i = i + 1;
        }
        assert(asset_pairs(assets@) =~= entries@);
        Ok(AccountVaultDetails::Assets(assets))
    }

    /// Returns all entries of a storage map of an account at a block under their keys, in no
    /// particular order. The map cannot be listed if it holds the hash of a key that is not known.
    pub fn get_storage_map_details_for_all_entries(
        &self,
        account_id: AccountId,
        slot_name: String,
        block_num: BlockNumber,
        max_return_entries: usize,
    ) -> (r: AccountStorageMapResult)
        requires
            self.is_valid(),
        ensures
            match tree_at(self@.trees, map_lineage(account_id, slot_name@), block_num) {
                None => r is NotFound,
                Some(contents) => if contents.len() > max_return_entries {
                    r matches AccountStorageMapResult::Details(details) && details.slot_name
                        == slot_name && details.entries is LimitExceeded
                } else if !contents.dom().subset_of(pairs_by_key(self@.keys).dom()) {
                    r is CannotReconstructKeysFromCache
                } else {
                    r matches AccountStorageMapResult::Details(details) && details.slot_name
                        == slot_name && details.entries is AllEntries && is_listing(
                        details.entries->AllEntries_0@,
                        contents,
                        pairs_by_key(self@.keys),
                    )
                },
            },
    {
        let ghost known = pairs_by_key(self@.keys);
        let lineage = map_lineage_id(account_id, slot_name.as_str());
        let entries = match self.entries_at(lineage, block_num) {
            Some(entries) => entries,
            None => return AccountStorageMapResult::NotFound,
        };
        let ghost contents = pairs_by_key(entries@);
        proof {
            lemma_pairs_by_key(entries@);
        }
        if entries.len() > max_return_entries {
            return AccountStorageMapResult::Details(
                AccountStorageMapDetails { slot_name, entries: StorageMapEntries::LimitExceeded },
            );
        }
        let mut listed: Vec<(Word, Word)> = Vec::new();
        let mut i: usize = 0;
        while i < entries.len()
            invariant
                i <= entries@.len(),
                self.is_valid(),
                known == pairs_by_key(self@.keys),
                has_distinct_keys(entries@),
                contents == pairs_by_key(entries@),
                tree_at(self@.trees, map_lineage(account_id, slot_name@), block_num) == Some(
                    contents,
                ),
                contents.len() == entries@.len(),
                entries@.len() <= max_return_entries,
                listed@.len() == i,
                forall|k: int|
                    0 <= k < i ==> known.contains_key((#[trigger] entries@[k]).0)
                        && listed@[k] == (known[entries@[k].0], entries@[k].1),
            decreases entries@.len() - i,
        {
            let (hash, value) = entries[i];
            match find_entry(&self.key_cache, hash) {
                Some(position) => {
                    proof {
                        lemma_pairs_by_key(self.key_cache@);
                        assert(self.key_cache@[position as int].0 == hash);
                    }
                    listed.push((self.key_cache[position].1, value));
                },
                None => {
                    proof {
                        lemma_pairs_by_key(self.key_cache@);
                        lemma_pairs_by_key(entries@);
                        assert(contents.contains_key(entries@[i as int].0));
                        assert(!known.contains_key(hash));
                        assert(contents.dom().contains(hash));
                        assert(!known.dom().contains(hash));
                    }
                    return AccountStorageMapResult::CannotReconstructKeysFromCache;
                },
            }
            i = i + 1;
        }
        proof {
            lemma_pairs_by_key(entries@);
            assert forall|hash: Word| contents.dom().contains(hash) implies known.dom().contains(
                hash,
            ) by {
                assert(contents.contains_key(hash));
                let k = choose|k: int| 0 <= k < entries@.len() && (#[trigger] entries@[k]).0 == hash;
                assert(known.contains_key(entries@[k].0));
            }
            lemma_listing(listed@, entries@, known);
        }
        AccountStorageMapResult::Details(
            AccountStorageMapDetails { slot_name, entries: StorageMapEntries::AllEntries(listed) },
        )
    }

    // PRUNING
    // --------------------------------------------------------------------------------------------

    /// Forgets what no query of the latest blocks needs. Returns the number of versions of trees that
    /// were removed.
    pub fn prune(&mut self, chain_tip: BlockNumber) -> (r: usize)
        requires
            old(self).is_valid(),
        ensures
            final(self).is_valid(),
            final(self)@.keys == old(self)@.keys,
            final(self)@.trees == truncated_trees(
                old(self)@.trees,
                retention_start(chain_tip).0 as u64,
            ),
            r == count_trees(old(self)@.trees) - count_trees(final(self)@.trees),
    {
        let cutoff = chain_tip.saturating_sub(HISTORICAL_BLOCK_RETENTION);
        let before: usize = forest_tree_count(&self.forest);
        let ghost trees = self@.trees;
        forest_truncate(&mut self.forest, cutoff.as_u64());
        proof {
            let after = self@.trees;
            assert(after.dom() =~= trees.dom());
            assert forall|lineage: Seq<u8>| #[trigger] trees.contains_key(lineage) implies {
                &&& after[lineage].len() <= trees[lineage].len()
                &&& 0 < after[lineage].len()
                &&& has_ascending_versions(after[lineage])
            } by {
                lemma_truncation_keeps_recent(trees[lineage], cutoff.0 as u64, cutoff.0 as u64);
            }
            assert forall|lineage: Seq<u8>| #[trigger] after.contains_key(lineage) implies 0
                < after[lineage].len() <= MAX_TREE_HISTORY + 1 && has_ascending_versions(after[lineage]) by {
                assert(trees.contains_key(lineage));
            }
            lemma_fewer_trees(trees, after);
        }
        let after: usize = forest_tree_count(&self.forest);
        before - after
    }
}

// HELPERS
// ================================================================================================

fn vault_lineage_id(account_id: AccountId) -> (r: [u8; 32])
    ensures
        r@ == vault_lineage(account_id),
{
    blake3_hash(&account_id_to_bytes(account_id))
}

fn map_lineage_id(account_id: AccountId, slot_name: &str) -> (r: [u8; 32])
    ensures
        r@ == map_lineage(account_id, slot_name@),
{
    let mut bytes = account_id_to_bytes(account_id);
    let name = slot_name.as_bytes();
    let mut i: usize = 0;
    while i < name.len()
        invariant
            i <= name@.len(),
            name@ == encode_utf8(slot_name@),
            bytes@ =~= account_id_bytes(account_id) + name@.take(i as int),
        decreases name@.len() - i,
    {
        bytes.push(name[i]);
        i = i + 1;
    }
    assert(name@.take(i as int) =~= name@);
    blake3_hash(&bytes)
}

proof fn lemma_map_after_push(
    map: vstd::map::Map<Word, Word>,
    entries: Seq<(Word, Word)>,
    entry: (Word, Word),
)
    ensures
        map_after(map, entries.push(entry)) == (if entry.1 == Word::empty() {
            map_after(map, entries).remove(entry.0)
        } else {
            map_after(map, entries).insert(entry.0, entry.1)
        }),
{
    assert(entries.push(entry).drop_last() =~= entries);
}

proof fn lemma_untouched_key(
    map: vstd::map::Map<Word, Word>,
    entries: Seq<(Word, Word)>,
    key: Word,
    start: int,
)
    requires
        0 <= start <= entries.len(),
        forall|k: int| start <= k < entries.len() ==> (#[trigger] entries[k]).0 != key,
    ensures
        value_in(map_after(map, entries), key) == value_in(
            map_after(map, entries.take(start)),
            key,
        ),
    decreases entries.len() - start,
{
    if start < entries.len() {
        let before = entries.drop_last();
        assert(before.take(start) =~= entries.take(start));
        assert forall|k: int| start <= k < before.len() implies (#[trigger] before[k]).0 != key by {
            assert(before[k] == entries[k]);
        }
        assert(entries[entries.len() - 1].0 != key);
        lemma_untouched_key(map, before, key, start);
    } else {
        assert(entries.take(start) =~= entries);
    }
}

proof fn lemma_without_unknown_hash(keys: KnownKeys, hash: Word)
    requires
        forall|i: int| 0 <= i < keys.len() ==> (#[trigger] keys[i]).0 != hash,
    ensures
        without_hash(keys, hash) == keys,
    decreases keys.len(),
{
    reveal(Seq::filter);
    if keys.len() > 0 {
        assert(keys[keys.len() - 1].0 != hash);
        lemma_without_unknown_hash(keys.drop_last(), hash);
        assert(keys =~= keys.drop_last().push(keys.last()));
    }
}

proof fn lemma_without_hash(keys: KnownKeys, position: int)
    requires
        has_distinct_keys(keys),
        0 <= position < keys.len(),
    ensures
        without_hash(keys, keys[position].0) == keys.remove(position),
{
    let hash = keys[position].0;
    let (head, tail) = (keys.take(position), keys.skip(position + 1));
    let pred = has_other_hash(hash);
    assert(keys =~= head.push(keys[position]) + tail);
    Seq::filter_distributes_over_add(head.push(keys[position]), tail, pred);
    assert(head.push(keys[position]).filter(pred) == head.filter(pred)) by {
        reveal(Seq::filter);
        assert(head.push(keys[position]).drop_last() =~= head);
    }
    assert forall|i: int| 0 <= i < head.len() implies (#[trigger] head[i]).0 != hash by {
        assert(head[i] == keys[i]);
    }
    assert forall|i: int| 0 <= i < tail.len() implies (#[trigger] tail[i]).0 != hash by {
        assert(tail[i] == keys[position + 1 + i]);
    }
    lemma_without_unknown_hash(head, hash);
    lemma_without_unknown_hash(tail, hash);
    assert(keys.remove(position) =~= head + tail);
}

/// A key that is learnt is known under its hash, and all others stay as they are, but for the one that
/// is forgotten.
proof fn lemma_cached_key(keys: KnownKeys, key: Word)
    requires
        are_map_entries(keys),
        has_hashed_keys(pairs_by_key(keys)),
        key.is_canonical(),
        map_key_hash_of(key).is_canonical(),
    ensures
        are_map_entries(with_key(keys, key)),
        has_hashed_keys(pairs_by_key(with_key(keys, key))),
{
    let hash = map_key_hash_of(key);
    let kept = without_hash(keys, hash);
    let after = with_key(keys, key);
    lemma_pairs_by_key(keys);
    if exists|i: int| 0 <= i < keys.len() && (#[trigger] keys[i]).0 == hash {
        let i = choose|i: int| 0 <= i < keys.len() && (#[trigger] keys[i]).0 == hash;
        lemma_without_hash(keys, i);
        assert(kept == keys.remove(i));
        assert forall|j: int| 0 <= j < kept.len() implies (#[trigger] kept[j]).0 != hash
            && keys.contains(kept[j]) by {
            assert(kept[j] == keys[if j < i { j } else { j + 1 }]);
        }
        assert forall|j: int, k: int| 0 <= j < k < kept.len() implies (#[trigger] kept[j]).0 != (
        #[trigger] kept[k]).0 by {
            assert(kept[j] == keys[if j < i { j } else { j + 1 }]);
            assert(kept[k] == keys[if k < i { k } else { k + 1 }]);
        }
    } else {
        lemma_without_unknown_hash(keys, hash);
        assert forall|j: int| 0 <= j < kept.len() implies (#[trigger] kept[j]).0 != hash
            && keys.contains(kept[j]) by {
            assert(kept[j] == keys[j]);
        }
    }
    let pushed = kept.push((hash, key));
    let start = pushed.len() - after.len();
    assert forall|j: int| 0 <= j < after.len() implies (#[trigger] after[j]) == pushed[start + j] by {
    }
    assert forall|j: int| 0 <= j < pushed.len() implies (#[trigger] pushed[j]).0.is_canonical()
        && pushed[j].1.is_canonical() && map_key_hash_of(pushed[j].1) == pushed[j].0 by {
        if j < kept.len() {
            let k = choose|k: int| 0 <= k < keys.len() && keys[k] == kept[j];
            assert(pushed[j] == keys[k]);
            assert(pairs_by_key(keys).contains_key(keys[k].0));
        }
    }
    assert(has_distinct_keys(after)) by {
        assert forall|j: int, k: int| 0 <= j < k < after.len() implies (#[trigger] after[j]).0 != (
        #[trigger] after[k]).0 by {
            assert(after[j] == pushed[start + j] && after[k] == pushed[start + k]);
            assert(pushed[start + j] == kept[start + j]);
            if start + k < kept.len() {
                assert(pushed[start + k] == kept[start + k]);
            }
        }
    }
    lemma_pairs_by_key(after);
    assert forall|known: Word| #[trigger]
        pairs_by_key(after).contains_key(known) implies map_key_hash_of(pairs_by_key(after)[known])
        == known by {
        let j = choose|j: int| 0 <= j < after.len() && (#[trigger] after[j]).0 == known;
        assert(after[j] == pushed[start + j]);
    }
}

proof fn lemma_listing(
    listed: Seq<(Word, Word)>,
    entries: Seq<(Word, Word)>,
    keys: vstd::map::Map<Word, Word>,
)
    requires
        has_hashed_keys(keys),
        has_distinct_keys(entries),
        listed.len() == entries.len(),
        forall|k: int|
            0 <= k < entries.len() ==> keys.contains_key((#[trigger] entries[k]).0) && listed[k] == (
                keys[entries[k].0],
                entries[k].1,
            ),
    ensures
        is_listing(listed, pairs_by_key(entries), keys),
{
    let hashed = hashed_entries(listed);
    assert forall|k: int| 0 <= k < hashed.len() implies #[trigger] hashed[k] == entries[k] by {
        assert(keys.contains_key(entries[k].0));
    }
    assert(hashed =~= entries);
    assert forall|i: int| 0 <= i < listed.len() implies keys[map_key_hash_of(
        (#[trigger] listed[i]).0,
    )] == listed[i].0 by {
        assert(keys.contains_key(entries[i].0));
    }
}

proof fn lemma_new_maps_prefix(
    trees: Trees,
    account_id: AccountId,
    block_num: BlockNumber,
    slots: Seq<StorageSlot>,
    count: int,
)
    requires
        0 <= count <= slots.len(),
        with_new_maps(trees, account_id, block_num, slots.take(count)) is None,
    ensures
        with_new_maps(trees, account_id, block_num, slots) is None,
    decreases slots.len() - count,
{
    if count < slots.len() {
        assert(slots.take(count + 1).drop_last() =~= slots.take(count));
        lemma_new_maps_prefix(trees, account_id, block_num, slots, count + 1);
    } else {
        assert(slots.take(count) =~= slots);
    }
}

proof fn lemma_accounts_prefix(
    trees: Trees,
    block_num: BlockNumber,
    updates: Seq<BlockAccountUpdate>,
    count: int,
)
    requires
        0 <= count <= updates.len(),
    ensures
        with_accounts(trees, block_num, updates.take(count)) is None ==> with_accounts(
            trees,
            block_num,
            updates,
        ) is None,
        !fits_accounts(trees, block_num, updates.take(count)) ==> !fits_accounts(
            trees,
            block_num,
            updates,
        ),
    decreases updates.len() - count,
{
    if count < updates.len() {
        assert(updates.take(count + 1).drop_last() =~= updates.take(count));
        lemma_accounts_prefix(trees, block_num, updates, count + 1);
    } else {
        assert(updates.take(count) =~= updates);
    }
}

proof fn lemma_changed_maps_prefix(
    trees: Trees,
    account_id: AccountId,
    block_num: BlockNumber,
    maps: Seq<MapDelta>,
    count: int,
)
    requires
        0 <= count <= maps.len(),
    ensures
        with_changed_maps(trees, account_id, block_num, maps.take(count)) is None
            ==> with_changed_maps(trees, account_id, block_num, maps) is None,
        !fits_maps(trees, account_id, block_num, maps.take(count)) ==> !fits_maps(
            trees,
            account_id,
            block_num,
            maps,
        ),
    decreases maps.len() - count,
{
    if count < maps.len() {
        assert(maps.take(count + 1).drop_last() =~= maps.take(count));
        lemma_changed_maps_prefix(trees, account_id, block_num, maps, count + 1);
    } else {
        assert(maps.take(count) =~= maps);
    }
}

} // verus!
