//! Answering the queries of an account request from the account state forest.
//!
//! The vault and the proofs of single keys are read first. Then the maps of which all entries are
//! requested are answered one after the other: from the forest if it knows the keys of the entries,
//! and from the database otherwise.

use vstd::prelude::*;

use crate::account_id::AccountId;
use crate::account_state_forest::forest::{AccountStateForest, ForestView};
use crate::account_state_forest::model::{
    are_proofs, changed_since, has_other_hash, hashed_entries, hashed_keys, is_listing, map_lineage,
    tree_at, vault_lineage, with_key, with_keys, without_hash, KnownKeys,
    STORAGE_MAP_KEY_CACHE_CAPACITY,
};
use crate::block_number::BlockNumber;
use crate::db::entries::{has_distinct_keys, lemma_pairs_by_key, pairs_by_key};
use crate::errors::{DataCorruption, DatabaseError, GetAccountError};
use crate::protocol::asset_pairs;
use crate::smt_forest::map_key_hash_of;
use crate::state::account::{
    AccountStorageMapDetails, AccountStorageMapResult, AccountVaultDetails, StorageMapEntries,
    StorageMapRequest,
};
use crate::state::account_details::{
    all_entries_queries_of, first_missing, lemma_first_missing, lemma_queries_partition_requests,
    lemma_query_positions, map_keys_queries_of, plans_requests, AccountDetailsPlan, MapKeysQuery,
};
use crate::state::trees::are_canonical;
use crate::word::Word;

verus! {

// STORAGE MAPS
// ================================================================================================

/// What a storage map of an account holds at a block under the hashes of its keys, if the forest
/// knows the map.
pub open spec fn map_at(
    forest: ForestView,
    account_id: AccountId,
    slot_name: Seq<char>,
    block_num: BlockNumber,
) -> Option<vstd::map::Map<Word, Word>> {
    tree_at(forest.trees, map_lineage(account_id, slot_name), block_num)
}

/// The error of a storage map that the forest does not know.
pub open spec fn unknown_map(
    account_id: AccountId,
    slot_name: String,
    block_num: BlockNumber,
) -> DatabaseError {
    DatabaseError::StorageRootNotFound { account_id, slot_name, block_num }
}

/// Whether the entries of a map have to be read from the database: they are not too many, and the
/// forest does not know the keys of all of them.
pub open spec fn needs_rebuild(
    contents: vstd::map::Map<Word, Word>,
    keys: vstd::map::Map<Word, Word>,
    max_return_entries: usize,
) -> bool {
    contents.len() <= max_return_entries && !contents.dom().subset_of(keys.dom())
}

/// Whether details hold all entries of a map, or say that there are too many.
pub open spec fn has_all_entries(
    details: AccountStorageMapDetails,
    slot_name: String,
    contents: vstd::map::Map<Word, Word>,
    keys: vstd::map::Map<Word, Word>,
    max_return_entries: usize,
) -> bool {
    &&& details.slot_name == slot_name
    &&& if contents.len() > max_return_entries {
        details.entries is LimitExceeded
    } else {
        details.entries is AllEntries && is_listing(
            details.entries->AllEntries_0@,
            contents,
            keys,
        )
    }
}

/// Reads all entries of a storage map from the forest. `Ok(None)` says that the entries have to be
/// rebuilt from the database, since the forest lacks raw keys.
pub fn get_storage_map_details_from_forest(
    forest: &AccountStateForest,
    account_id: AccountId,
    slot_name: &String,
    block_num: BlockNumber,
    max_return_entries: usize,
) -> (r: Result<Option<AccountStorageMapDetails>, DatabaseError>)
    requires
        forest.is_valid(),
    ensures
        match map_at(forest@, account_id, slot_name@, block_num) {
            None => r == Err::<Option<AccountStorageMapDetails>, DatabaseError>(
                unknown_map(account_id, *slot_name, block_num),
            ),
            Some(contents) => if needs_rebuild(
                contents,
                pairs_by_key(forest@.keys),
                max_return_entries,
            ) {
                r == Ok::<Option<AccountStorageMapDetails>, DatabaseError>(None)
            } else {
                r matches Ok(Some(details)) && has_all_entries(
                    details,
                    *slot_name,
                    contents,
                    pairs_by_key(forest@.keys),
                    max_return_entries,
                )
            },
        },
{
    match forest.get_storage_map_details_for_all_entries(
        account_id,
        slot_name.clone(),
        block_num,
        max_return_entries,
    ) {
        AccountStorageMapResult::NotFound => Err(
            DatabaseError::StorageRootNotFound {
                account_id,
                slot_name: slot_name.clone(),
                block_num,
            },
        ),
        AccountStorageMapResult::Details(details) => Ok(Some(details)),
        AccountStorageMapResult::CannotReconstructKeysFromCache => Ok(None),
    }
}

/// The raw keys that the forest learns from a map that was rebuilt from the database: those of the
/// entries, or none if the map was too large.
pub open spec fn rebuilt_keys(details: AccountStorageMapDetails) -> Seq<Word> {
    match details.entries {
        StorageMapEntries::AllEntries(entries) => entries@.map_values(
            |entry: (Word, Word)| entry.0,
        ),
        _ => Seq::empty(),
    }
}

/// Returns the raw keys that the forest learns from a map that was rebuilt from the database.
pub fn raw_keys_to_cache(details: &AccountStorageMapDetails) -> (keys: Vec<Word>)
    ensures
        keys@ == rebuilt_keys(*details),
{
    let mut keys: Vec<Word> = Vec::new();
    if let StorageMapEntries::AllEntries(entries) = &details.entries {
        let mut i: usize = 0;
        while i < entries.len()
            invariant
                i <= entries@.len(),
                keys@ =~= entries@.take(i as int).map_values(|entry: (Word, Word)| entry.0),
            decreases entries@.len() - i,
        {
            keys.push(entries[i].0);
            i = i + 1;
        }
        assert(entries@.take(i as int) =~= entries@);
    }
    assert(keys@ =~= rebuilt_keys(*details));
    keys
}

// READER
// ================================================================================================

/// The answers to the queries of a plan that were read so far.
#[derive(Clone, Debug, PartialEq, Eq)]
pub struct DetailsReader {
    pub vault: AccountVaultDetails,
    /// The answers to the storage queries by their positions.
    pub maps: Vec<Option<AccountStorageMapDetails>>,
    /// How many of the queries for all entries are answered.
    pub answered: usize,
}

/// Whether a plan holds the queries of some requests.
pub open spec fn is_plan(plan: AccountDetailsPlan) -> bool {
    exists|requests: Seq<StorageMapRequest>| #[trigger] plans_requests(plan, requests)
}

/// Whether details hold the proofs that a query asks for.
pub open spec fn has_proofs(
    answer: Option<AccountStorageMapDetails>,
    query: MapKeysQuery,
    forest: ForestView,
    account_id: AccountId,
    block_num: BlockNumber,
) -> bool {
    &&& answer matches Some(details)
    &&& map_at(forest, account_id, query.slot_name@, block_num) matches Some(contents)
    &&& details.slot_name == query.slot_name
    &&& details.entries is EntriesWithProofs
    &&& are_proofs(
        details.entries->EntriesWithProofs_0@,
        contents,
        hashed_keys(query.keys@),
        changed_since(forest.trees, map_lineage(account_id, query.slot_name@), block_num),
    )
}

/// Whether a vault is what the forest knows of it, or says that it holds too many assets.
pub open spec fn has_assets(
    vault: AccountVaultDetails,
    contents: vstd::map::Map<Word, Word>,
    max_return_entries: usize,
) -> bool {
    if contents.len() > max_return_entries {
        vault is LimitExceeded
    } else {
        &&& vault matches AccountVaultDetails::Assets(assets)
        &&& has_distinct_keys(asset_pairs(assets@))
        &&& pairs_by_key(asset_pairs(assets@)) == contents
    }
}

/// Whether a query is the first one for a map that the forest does not know.
pub open spec fn is_first_unknown(
    forest: ForestView,
    account_id: AccountId,
    block_num: BlockNumber,
    queries: Seq<MapKeysQuery>,
    k: int,
) -> bool {
    &&& 0 <= k < queries.len()
    &&& map_at(forest, account_id, queries[k].slot_name@, block_num) is None
    &&& forall|j: int|
        0 <= j < k ==> map_at(
            forest,
            account_id,
            (#[trigger] queries[j]).slot_name@,
            block_num,
        ) is Some
}

impl DetailsReader {
    /// Whether there is a place for each answer, and the queries for single keys and the first
    /// queries for all entries are answered.
    pub open spec fn is_valid(self, plan: AccountDetailsPlan) -> bool {
        &&& self.maps@.len() == plan.slot_names@.len()
        &&& self.answered <= plan.all_entries_queries@.len()
        &&& forall|k: int|
            0 <= k < plan.map_keys_queries@.len()
                ==> self.maps@[(#[trigger] plan.map_keys_queries@[k]).index as int] is Some
        &&& forall|k: int|
            0 <= k < self.answered
                ==> self.maps@[(#[trigger] plan.all_entries_queries@[k]).index as int] is Some
    }

    /// Reads the vault and the proofs of single keys. Fails if the forest does not know the vault,
    /// or else with the first map that it does not know.
    pub fn new(
        forest: &AccountStateForest,
        account_id: AccountId,
        block_num: BlockNumber,
        plan: &AccountDetailsPlan,
        max_return_entries: usize,
    ) -> (r: Result<Self, GetAccountError>)
        requires
            forest.is_valid(),
            is_plan(*plan),
        ensures
            ({
                let vault = tree_at(forest@.trees, vault_lineage(account_id), block_num);
                let queries = plan.map_keys_queries@;
                match r {
                    Err(error) => if plan.vault_query && vault is None {
                        error == GetAccountError::DatabaseError(
                            DatabaseError::DataCorrupted(
                                DataCorruption::VaultNotReconstructed(account_id, block_num),
                            ),
                        )
                    } else {
                        exists|k: int|
                            {
                                &&& #[trigger] is_first_unknown(
                                    forest@,
                                    account_id,
                                    block_num,
                                    queries,
                                    k,
                                )
                                &&& error == GetAccountError::DatabaseError(
                                    unknown_map(account_id, queries[k].slot_name, block_num),
                                )
                            }
                    },
                    Ok(reader) => {
                        &&& reader.is_valid(*plan)
                        &&& reader.answered == 0
                        &&& if plan.vault_query {
                            vault matches Some(contents) && has_assets(
                                reader.vault,
                                contents,
                                max_return_entries,
                            )
                        } else {
                            reader.vault matches AccountVaultDetails::Assets(assets)
                                && assets@.len() == 0
                        }
                        &&& forall|k: int|
                            0 <= k < queries.len() ==> has_proofs(
                                reader.maps@[(#[trigger] queries[k]).index as int],
                                queries[k],
                                forest@,
                                account_id,
                                block_num,
                            )
                        &&& forall|i: int|
                            0 <= i < reader.maps@.len() && (forall|k: int|
                                0 <= k < queries.len() ==> (#[trigger] queries[k]).index != i)
                                ==> (#[trigger] reader.maps@[i]) is None
                    },
                }
            }),
    {
        let vault: AccountVaultDetails = if plan.vault_query {
            match forest.get_vault_details(account_id, block_num, max_return_entries) {
                Ok(vault) => vault,
                Err(_) => return Err(
                    GetAccountError::DatabaseError(
                        DatabaseError::DataCorrupted(
                            DataCorruption::VaultNotReconstructed(account_id, block_num),
                        ),
                    ),
                ),
            }
        } else {
            AccountVaultDetails::empty()
        };
        let mut maps: Vec<Option<AccountStorageMapDetails>> = Vec::new();
        let mut i: usize = 0;
        while i < plan.slot_names.len()
            invariant
                i <= plan.slot_names@.len(),
                maps@.len() == i,
                forall|k: int| 0 <= k < i ==> (#[trigger] maps@[k]) is None,
            decreases plan.slot_names@.len() - i,
        {
            maps.push(None);
            i = i + 1;
        }
        proof {
            let requests = choose|requests: Seq<StorageMapRequest>| #[trigger]
                plans_requests(*plan, requests);
            assert(requests.len() == plan.slot_names@.len() == i);
            lemma_query_positions(requests);
        }
        let ghost queries = plan.map_keys_queries@;
        let mut k: usize = 0;
        while k < plan.map_keys_queries.len()
            invariant
                k <= queries.len(),
                queries == plan.map_keys_queries@,
                forest.is_valid(),
                plan.vault_query ==> tree_at(
                    forest@.trees,
                    vault_lineage(account_id),
                    block_num,
                ) is Some,
                maps@.len() == plan.slot_names@.len(),
                forall|j: int|
                    0 <= j < queries.len() ==> (#[trigger] queries[j]).index < maps@.len(),
                forall|i: int, j: int|
                    0 <= i < j < queries.len() ==> (#[trigger] queries[i]).index < (
                    #[trigger] queries[j]).index,
                forall|j: int|
                    0 <= j < k ==> has_proofs(
                        maps@[(#[trigger] queries[j]).index as int],
                        queries[j],
                        forest@,
                        account_id,
                        block_num,
                    ),
                forall|i: int|
                    0 <= i < maps@.len() && (forall|j: int|
                        0 <= j < k ==> (#[trigger] queries[j]).index != i) ==> (
                    #[trigger] maps@[i]) is None,
            decreases queries.len() - k,
        {
            let ghost before = maps@;
            let query = &plan.map_keys_queries[k];
            match forest.get_storage_map_details_for_keys(
                account_id,
                query.slot_name.clone(),
                block_num,
                &query.keys,
            ) {
                Some(Ok(details)) => maps.set(query.index, Some(details)),
                _ => {
                    assert(is_first_unknown(forest@, account_id, block_num, queries, k as int));
                    return Err(
                        GetAccountError::DatabaseError(
                            DatabaseError::StorageRootNotFound {
                                account_id,
                                slot_name: query.slot_name.clone(),
                                block_num,
                            },
                        ),
                    );
                },
            }
            proof {
                assert forall|j: int| 0 <= j < k + 1 implies has_proofs(
                    maps@[(#[trigger] queries[j]).index as int],
                    queries[j],
                    forest@,
                    account_id,
                    block_num,
                ) by {
                    if j < k {
                        assert(queries[j].index < queries[k as int].index);
                        assert(maps@[queries[j].index as int] == before[queries[j].index as int]);
                    }
                }
                assert forall|i: int|
                    0 <= i < maps@.len() && (forall|j: int|
                        0 <= j < k + 1 ==> (#[trigger] queries[j]).index != i) implies (
                #[trigger] maps@[i]) is None by {
                    assert(queries[k as int].index != i);
                    assert(maps@[i] == before[i]);
                }
            }
            k = k + 1;
        }
        Ok(DetailsReader { vault, maps, answered: 0 })
    }

    /// Answers the next query for all entries from the forest. Returns `false` if the map has to be
    /// rebuilt from the database.
    pub fn answer_all_entries(
        &mut self,
        forest: &AccountStateForest,
        account_id: AccountId,
        block_num: BlockNumber,
        plan: &AccountDetailsPlan,
        max_return_entries: usize,
    ) -> (r: Result<bool, GetAccountError>)
        requires
            forest.is_valid(),
            is_plan(*plan),
            old(self).is_valid(*plan),
            old(self).answered < plan.all_entries_queries@.len(),
        ensures
            final(self).is_valid(*plan),
            final(self).vault == old(self).vault,
            ({
                let query = plan.all_entries_queries@[old(self).answered as int];
                match map_at(forest@, account_id, query.slot_name@, block_num) {
                    None => {
                        &&& r == Err::<bool, GetAccountError>(
                            GetAccountError::DatabaseError(
                                unknown_map(account_id, query.slot_name, block_num),
                            ),
                        )
                        &&& *final(self) == *old(self)
                    },
                    Some(contents) => if needs_rebuild(
                        contents,
                        pairs_by_key(forest@.keys),
                        max_return_entries,
                    ) {
                        r == Ok::<bool, GetAccountError>(false) && *final(self) == *old(self)
                    } else {
                        &&& r == Ok::<bool, GetAccountError>(true)
                        &&& final(self).answered == old(self).answered + 1
                        &&& exists|details: AccountStorageMapDetails|
                            {
                                &&& #[trigger] has_all_entries(
                                    details,
                                    query.slot_name,
                                    contents,
                                    pairs_by_key(forest@.keys),
                                    max_return_entries,
                                )
                                &&& final(self).maps@ == old(self).maps@.update(
                                    query.index as int,
                                    Some(details),
                                )
                            }
                    },
                }
            }),
    {
        let slot_count: usize = plan.slot_names.len();
        let query_count: usize = plan.all_entries_queries.len();
        proof {
            let requests = choose|requests: Seq<StorageMapRequest>| #[trigger]
                plans_requests(*plan, requests);
            assert(requests.len() == plan.slot_names@.len() == slot_count);
            lemma_query_positions(requests);
        }
        let query = &plan.all_entries_queries[self.answered];
        match get_storage_map_details_from_forest(
            forest,
            account_id,
            &query.slot_name,
            block_num,
            max_return_entries,
        ) {
            Err(error) => Err(GetAccountError::DatabaseError(error)),
            Ok(None) => Ok(false),
            Ok(Some(details)) => {
                self.maps.set(query.index, Some(details));
                assert(self.answered < query_count);
                self.answered = self.answered + 1;
                Ok(true)
            },
        }
    }

    /// Answers the next query for all entries with a map that was rebuilt from the database. The
    /// forest learns the keys of the entries, and can answer such a query itself from then on.
    pub fn add_rebuilt(
        &mut self,
        forest: &mut AccountStateForest,
        plan: &AccountDetailsPlan,
        details: AccountStorageMapDetails,
    )
        requires
            old(forest).is_valid(),
            is_plan(*plan),
            old(self).is_valid(*plan),
            old(self).answered < plan.all_entries_queries@.len(),
            are_canonical(rebuilt_keys(details)),
        ensures
            final(forest).is_valid(),
            final(forest)@.trees == old(forest)@.trees,
            final(forest)@.keys == with_keys(old(forest)@.keys, rebuilt_keys(details)),
            final(self).is_valid(*plan),
            final(self).vault == old(self).vault,
            final(self).answered == old(self).answered + 1,
            final(self).maps@ == old(self).maps@.update(
                plan.all_entries_queries@[old(self).answered as int].index as int,
                Some(details),
            ),
    {
        let slot_count: usize = plan.slot_names.len();
        let query_count: usize = plan.all_entries_queries.len();
        proof {
            let requests = choose|requests: Seq<StorageMapRequest>| #[trigger]
                plans_requests(*plan, requests);
            assert(requests.len() == plan.slot_names@.len() == slot_count);
            lemma_query_positions(requests);
        }
        forest.cache_storage_map_keys(&raw_keys_to_cache(&details));
        let index: usize = plan.all_entries_queries[self.answered].index;
        self.maps.set(index, Some(details));
        assert(self.answered < query_count);
        self.answered = self.answered + 1;
    }
}

// LAWS
// ================================================================================================

/// Once all queries are answered, no map is missing from the response.
pub proof fn lemma_reader_is_complete(
    reader: DetailsReader,
    plan: AccountDetailsPlan,
    requests: Seq<StorageMapRequest>,
)
    requires
        plans_requests(plan, requests),
        requests.len() <= usize::MAX,
        reader.is_valid(plan),
        reader.answered == plan.all_entries_queries@.len(),
    ensures
        first_missing(reader.maps@) == reader.maps@.len(),
{
    let maps = reader.maps@;
    assert(requests.len() == plan.slot_names@.len());
    assert forall|i: int| 0 <= i < maps.len() implies (#[trigger] maps[i]) is Some by {
        lemma_queries_partition_requests(requests, i);
        if requests[i].slot_data is MapKeys {
            let k = choose|k: int|
                0 <= k < map_keys_queries_of(requests).len() && #[trigger] map_keys_queries_of(
                    requests,
                )[k].index == i;
            assert(plan.map_keys_queries@[k].index == i);
        } else {
            let k = choose|k: int|
                0 <= k < all_entries_queries_of(requests).len()
                    && #[trigger] all_entries_queries_of(requests)[k].index == i;
            assert(plan.all_entries_queries@[k].index == i);
        }
    }
    lemma_first_missing(maps, maps.len());
}

/// A map that was rebuilt from the database once is answered by the forest from then on, as long as
/// the map stays as it is and no more keys are learnt: the forest knows the keys of all its entries.
pub proof fn lemma_rebuilt_map_is_known(
    contents: vstd::map::Map<Word, Word>,
    details: AccountStorageMapDetails,
    keys: KnownKeys,
    max_return_entries: usize,
)
    requires
        details.entries matches StorageMapEntries::AllEntries(entries) && has_distinct_keys(
            hashed_entries(entries@),
        ) && pairs_by_key(hashed_entries(entries@)) == contents && entries@.len()
            <= STORAGE_MAP_KEY_CACHE_CAPACITY,
    ensures
        !needs_rebuild(
            contents,
            pairs_by_key(with_keys(keys, rebuilt_keys(details))),
            max_return_entries,
        ),
{
    let entries = details.entries->AllEntries_0@;
    let hashed = hashed_entries(entries);
    let raw_keys = rebuilt_keys(details);
    let known = with_keys(keys, raw_keys);
    assert forall|i: int, j: int| 0 <= i < j < raw_keys.len() implies map_key_hash_of(
        #[trigger] raw_keys[i],
    ) != map_key_hash_of(#[trigger] raw_keys[j]) by {
        assert(hashed[i].0 == map_key_hash_of(raw_keys[i]));
        assert(hashed[j].0 == map_key_hash_of(raw_keys[j]));
    }
    lemma_keys_are_known(keys, raw_keys);
    lemma_pairs_by_key(hashed);
    assert forall|hash: Word| contents.dom().contains(hash) implies pairs_by_key(
        known,
    ).dom().contains(hash) by {
        assert(contents.contains_key(hash));
        let i = choose|i: int| 0 <= i < hashed.len() && (#[trigger] hashed[i]).0 == hash;
        assert(raw_keys[i] == entries[i].0);
        let k = known.len() - raw_keys.len() + i;
        assert(known[k].0 == hash);
        lemma_listed_key_is_known(known, k);
    }
}

proof fn lemma_listed_key_is_known(keys: KnownKeys, i: int)
    requires
        0 <= i < keys.len(),
    ensures
        pairs_by_key(keys).contains_key(keys[i].0),
    decreases keys.len(),
{
    if i < keys.len() - 1 {
        lemma_listed_key_is_known(keys.drop_last(), i);
    }
}

proof fn lemma_keys_are_known(keys: KnownKeys, added: Seq<Word>)
    requires
        added.len() <= STORAGE_MAP_KEY_CACHE_CAPACITY,
        forall|i: int, j: int|
            0 <= i < j < added.len() ==> map_key_hash_of(#[trigger] added[i]) != map_key_hash_of(
                #[trigger] added[j],
            ),
    ensures
        with_keys(keys, added).len() >= added.len(),
        forall|i: int|
            0 <= i < added.len() ==> #[trigger] with_keys(keys, added)[with_keys(keys, added).len()
                - added.len() + i] == (map_key_hash_of(added[i]), added[i]),
    decreases added.len(),
{
    if added.len() > 0 {
        let rest = added.drop_last();
        assert forall|i: int, j: int| 0 <= i < j < rest.len() implies map_key_hash_of(
            #[trigger] rest[i],
        ) != map_key_hash_of(#[trigger] rest[j]) by {
            assert(map_key_hash_of(added[i]) != map_key_hash_of(added[j]));
        }
        lemma_keys_are_known(keys, rest);
        let before = with_keys(keys, rest);
        let start = before.len() - rest.len();
        let (head, tail) = (before.take(start), before.skip(start));
        let hash = map_key_hash_of(added.last());
        let pred = has_other_hash(hash);
        assert forall|i: int| 0 <= i < tail.len() implies #[trigger] tail[i] == (
            map_key_hash_of(added[i]),
            added[i],
        ) by {
            assert(rest[i] == added[i]);
            assert(before[start + i] == (map_key_hash_of(rest[i]), rest[i]));
        }
        assert(tail.filter(pred) == tail) by {
            assert forall|i: int| 0 <= i < tail.len() implies pred(#[trigger] tail[i]) by {
                assert(map_key_hash_of(added[i]) != map_key_hash_of(added[added.len() - 1]));
            }
            lemma_filter_of_all(tail, pred);
        }
        assert(before =~= head + tail);
        Seq::filter_distributes_over_add(head, tail, pred);
        let kept = without_hash(before, hash);
        assert(kept == head.filter(pred) + tail);
        let pushed = kept.push((hash, added.last()));
        let after = with_keys(keys, added);
        assert(after == with_key(before, added.last()));
        assert forall|i: int| 0 <= i < added.len() implies #[trigger] after[after.len()
            - added.len() + i] == (map_key_hash_of(added[i]), added[i]) by {
            assert(after[after.len() - added.len() + i] == pushed[pushed.len() - added.len() + i]);
            if i < rest.len() {
                assert(pushed[pushed.len() - added.len() + i] == tail[i]);
            }
        }
    }
}

proof fn lemma_filter_of_all<T>(entries: Seq<T>, pred: spec_fn(T) -> bool)
    requires
        forall|i: int| 0 <= i < entries.len() ==> pred(#[trigger] entries[i]),
    ensures
        entries.filter(pred) == entries,
    decreases entries.len(),
{
    reveal(Seq::filter);
    if entries.len() > 0 {
        assert(pred(entries[entries.len() - 1]));
        lemma_filter_of_all(entries.drop_last(), pred);
        assert(entries =~= entries.drop_last().push(entries.last()));
    }
}

/// A map is read from the database exactly if it is not too large and the forest lacks the key of one of
/// its entries.
pub proof fn lemma_maps_that_are_rebuilt(
    contents: vstd::map::Map<Word, Word>,
    keys: vstd::map::Map<Word, Word>,
    max_return_entries: usize,
)
    ensures
        needs_rebuild(contents, keys, max_return_entries) <==> contents.len() <= max_return_entries
            && exists|hash: Word| #[trigger]
            contents.contains_key(hash) && !keys.contains_key(hash),
{
    if contents.dom().subset_of(keys.dom()) {
        assert forall|hash: Word| #[trigger] contents.contains_key(hash) implies keys.contains_key(
            hash,
        ) by {
            assert(contents.dom().contains(hash));
            assert(keys.dom().contains(hash));
        }
    } else {
        let hash = choose|hash: Word| #[trigger]
            contents.dom().contains(hash) && !keys.dom().contains(hash);
        assert(contents.contains_key(hash) && !keys.contains_key(hash));
    }
}

/// Details with all entries of a map hold every entry of its tree once, under the key whose hash the
/// tree holds. Details of a map with too many entries hold none.
pub proof fn lemma_details_hold_all_entries(
    details: AccountStorageMapDetails,
    slot_name: String,
    contents: vstd::map::Map<Word, Word>,
    keys: vstd::map::Map<Word, Word>,
    max_return_entries: usize,
)
    requires
        has_all_entries(details, slot_name, contents, keys, max_return_entries),
    ensures
        details.slot_name == slot_name,
        details.entries is LimitExceeded <==> contents.len() > max_return_entries,
        !(details.entries is EntriesWithProofs),
        details.entries matches StorageMapEntries::AllEntries(entries) ==> {
            &&& entries@.len() == contents.len()
            &&& forall|i: int|
                0 <= i < entries@.len() ==> contents.contains_key(
                    map_key_hash_of((#[trigger] entries@[i]).0),
                ) && contents[map_key_hash_of(entries@[i].0)] == entries@[i].1
                    && keys[map_key_hash_of(entries@[i].0)] == entries@[i].0
            &&& forall|hash: Word| #[trigger]
                contents.contains_key(hash) ==> exists|i: int|
                    0 <= i < entries@.len() && map_key_hash_of((#[trigger] entries@[i]).0) == hash
        },
{
    if details.entries is AllEntries {
        let entries = details.entries->AllEntries_0@;
        let hashed = hashed_entries(entries);
        crate::db::entries::lemma_pairs_by_key(hashed);
        assert forall|i: int| 0 <= i < entries.len() implies contents.contains_key(
            map_key_hash_of((#[trigger] entries[i]).0),
        ) && contents[map_key_hash_of(entries[i].0)] == entries[i].1 by {
            assert(hashed[i] == (map_key_hash_of(entries[i].0), entries[i].1));
        }
        assert forall|hash: Word| #[trigger] contents.contains_key(hash) implies exists|i: int|
            0 <= i < entries.len() && map_key_hash_of((#[trigger] entries[i]).0) == hash by {
            let i = choose|i: int| 0 <= i < hashed.len() && (#[trigger] hashed[i]).0 == hash;
            assert(map_key_hash_of(entries[i].0) == hash);
        }
    }
}

/// A vault in a response holds every asset of the account once, or says that there are too many.
pub proof fn lemma_vaults_hold_all_assets(
    vault: AccountVaultDetails,
    contents: vstd::map::Map<Word, Word>,
    max_return_entries: usize,
)
    requires
        has_assets(vault, contents, max_return_entries),
    ensures
        vault is LimitExceeded <==> contents.len() > max_return_entries,
        vault matches AccountVaultDetails::Assets(assets) ==> {
            &&& assets@.len() == contents.len()
            &&& forall|i: int|
                0 <= i < assets@.len() ==> contents.contains_key((#[trigger] assets@[i]).key)
                    && contents[assets@[i].key] == assets@[i].value
            &&& forall|key: Word| #[trigger]
                contents.contains_key(key) ==> exists|i: int|
                    0 <= i < assets@.len() && (#[trigger] assets@[i]).key == key
        },
{
    if let AccountVaultDetails::Assets(assets) = vault {
        let pairs = asset_pairs(assets@);
        crate::db::entries::lemma_pairs_by_key(pairs);
        assert forall|i: int| 0 <= i < assets@.len() implies contents.contains_key(
            (#[trigger] assets@[i]).key,
        ) && contents[assets@[i].key] == assets@[i].value by {
            assert(pairs[i] == (assets@[i].key, assets@[i].value));
        }
        assert forall|key: Word| #[trigger] contents.contains_key(key) implies exists|i: int|
            0 <= i < assets@.len() && (#[trigger] assets@[i]).key == key by {
            let i = choose|i: int| 0 <= i < pairs.len() && (#[trigger] pairs[i]).0 == key;
            assert(assets@[i].key == key);
        }
    }
}

/// The proofs that answer a query are those of its keys, in order, in the map of its slot at the block.
pub proof fn lemma_queries_are_answered_with_proofs(
    answer: Option<AccountStorageMapDetails>,
    query: MapKeysQuery,
    forest: ForestView,
    account_id: AccountId,
    block_num: BlockNumber,
)
    requires
        has_proofs(answer, query, forest, account_id, block_num),
    ensures
        ({
            let lineage = map_lineage(account_id, query.slot_name@);
            &&& answer is Some && answer->0.slot_name == query.slot_name
            &&& answer->0.entries is EntriesWithProofs
            &&& answer->0.entries->EntriesWithProofs_0@.len() == query.keys@.len()
            &&& tree_at(forest.trees, lineage, block_num) is Some
            &&& forall|i: int|
                0 <= i < query.keys@.len() ==> crate::smt_forest::is_proof(
                    (#[trigger] answer->0.entries->EntriesWithProofs_0@[i])@,
                    tree_at(forest.trees, lineage, block_num)->0,
                    map_key_hash_of(query.keys@[i]),
                    changed_since(forest.trees, lineage, block_num),
                )
        }),
{
}

/// The forest learns the keys of all entries of a map that was rebuilt.
pub proof fn lemma_keys_of_rebuilt_maps(details: AccountStorageMapDetails)
    ensures
        details.entries matches StorageMapEntries::AllEntries(entries) ==> rebuilt_keys(
            details,
        ).len() == entries@.len() && forall|i: int|
            0 <= i < entries@.len() ==> #[trigger] rebuilt_keys(details)[i] == entries@[i].0,
        !(details.entries is AllEntries) ==> rebuilt_keys(details).len() == 0,
{
}

/// The map that a failure names is the first one that is asked for and that the forest does not hold at
/// the block. The forest holds all maps that are asked for before it.
pub proof fn lemma_first_unknown_map(
    forest: ForestView,
    account_id: AccountId,
    block_num: BlockNumber,
    queries: Seq<MapKeysQuery>,
    k: int,
)
    requires
        is_first_unknown(forest, account_id, block_num, queries, k),
    ensures
        0 <= k < queries.len(),
        tree_at(forest.trees, map_lineage(account_id, queries[k].slot_name@), block_num) is None,
        forall|j: int|
            0 <= j < k ==> tree_at(
                forest.trees,
                map_lineage(account_id, (#[trigger] queries[j]).slot_name@),
                block_num,
            ) is Some,
        unknown_map(account_id, queries[k].slot_name, block_num) matches
            DatabaseError::StorageRootNotFound { account_id: id, slot_name, block_num: block }
            && id == account_id && slot_name == queries[k].slot_name && block == block_num,
{
}

} // verus!
