use miden_node_store::account_id::AccountId;
use miden_node_store::account_state_forest::forest::{
    AccountStateForest, AccountStateForestError, WitnessError,
};
use miden_node_store::account_state_forest::model::STORAGE_MAP_KEY_CACHE_CAPACITY;
use miden_node_store::block_number::BlockNumber;
use miden_node_store::db::delta::{MapDelta, StorageDelta, VaultDelta};
use miden_node_store::db::history::HISTORICAL_BLOCK_RETENTION;
use miden_node_store::db::updates::{
    AccountDelta, AccountUpdateDetails, BlockAccountUpdate, FullAccountState, StorageSlot,
    StorageSlotContent,
};
use miden_node_store::state::account::{
    AccountStorageMapDetails, AccountStorageMapResult, AccountVaultDetails, Asset,
    StorageMapEntries,
};
use miden_node_store::word::Word;
use miden_node_store::word_set::WordSet;
use miden_protocol::account::{
    AccountStorageMode, AccountType, StorageMap, StorageMapKey, StorageSlotName,
};
use miden_protocol::asset::{
    AssetVault, FungibleAsset, NonFungibleAsset, NonFungibleAssetDetails,
};
use miden_protocol::crypto::merkle::smt::{Smt, SmtProof};
use miden_protocol::testing::account_id::{
    AccountIdBuilder, ACCOUNT_ID_PUBLIC_FUNGIBLE_FAUCET,
    ACCOUNT_ID_REGULAR_PUBLIC_ACCOUNT_IMMUTABLE_CODE,
    ACCOUNT_ID_REGULAR_PUBLIC_ACCOUNT_IMMUTABLE_CODE_2,
};
use miden_protocol::utils::serde::Deserializable;
use miden_protocol::Felt;

const MAX_RETURN_ENTRIES: usize = 1000;

fn word(word: miden_protocol::Word) -> Word {
    let [a, b, c, d] = word.into_elements().map(|element| element.as_canonical_u64());
    Word(a, b, c, d)
}

fn protocol_word(word: Word) -> miden_protocol::Word {
    miden_protocol::Word::new([word.0, word.1, word.2, word.3].map(Felt::new))
}

fn account_id(raw: u128) -> AccountId {
    let id = miden_protocol::account::AccountId::try_from(raw).unwrap();
    AccountId { prefix: id.prefix().as_u64(), suffix: id.suffix().as_canonical_u64() }
}

fn dummy_account() -> AccountId {
    account_id(ACCOUNT_ID_REGULAR_PUBLIC_ACCOUNT_IMMUTABLE_CODE)
}

fn fungible_asset(raw_faucet: u128, amount: u64) -> Asset {
    let faucet = miden_protocol::account::AccountId::try_from(raw_faucet).unwrap();
    let asset: miden_protocol::asset::Asset = FungibleAsset::new(faucet, amount).unwrap().into();
    Asset { key: word(asset.to_key_word()), value: word(asset.to_value_word()) }
}

fn dummy_fungible_asset(amount: u64) -> Asset {
    fungible_asset(ACCOUNT_ID_PUBLIC_FUNGIBLE_FAUCET, amount)
}

fn no_vault_delta() -> VaultDelta {
    VaultDelta { fungible: vec![], non_fungible: vec![] }
}

fn no_storage_delta() -> StorageDelta {
    StorageDelta { values: vec![], maps: vec![] }
}

fn add_tokens(amount: i64) -> VaultDelta {
    VaultDelta { fungible: vec![(dummy_fungible_asset(1).key, amount)], non_fungible: vec![] }
}

fn map_delta(maps: &[(&str, Vec<(Word, Word)>)]) -> StorageDelta {
    let maps = maps
        .iter()
        .map(|(slot_name, entries)| MapDelta {
            slot_name: slot_name.to_string(),
            entries: entries.clone(),
        })
        .collect();
    StorageDelta { values: vec![], maps }
}

fn partial(account_id: AccountId, vault: VaultDelta, storage: StorageDelta) -> BlockAccountUpdate {
    BlockAccountUpdate {
        account_id,
        final_state_commitment: Word(1, 2, 3, 4),
        details: AccountUpdateDetails::Delta(AccountDelta { storage, vault, nonce_delta: 1 }),
    }
}

fn full(account_id: AccountId, assets: &[Asset], slots: Vec<StorageSlot>) -> BlockAccountUpdate {
    BlockAccountUpdate {
        account_id,
        final_state_commitment: Word(1, 2, 3, 4),
        details: AccountUpdateDetails::FullState(FullAccountState {
            nonce: 1,
            code_commitment: Word(5, 6, 7, 8),
            code: vec![1, 2, 3],
            slots,
            assets: assets.to_vec(),
        }),
    }
}

fn slot(index: usize) -> String {
    StorageSlotName::mock(index).as_str().to_string()
}

fn map_key(index: u32) -> Word {
    word(StorageMapKey::from_index(index).into())
}

fn hashed(key: Word) -> Word {
    word(StorageMapKey::new(protocol_word(key)).hash().as_word())
}

fn keys(keys: &[Word]) -> WordSet {
    let mut set = WordSet::new();
    for key in keys {
        set.insert(*key);
    }
    set
}

fn smt_proof(bytes: &[u8]) -> SmtProof {
    SmtProof::read_from_bytes(bytes).unwrap()
}

fn block(number: u32) -> BlockNumber {
    BlockNumber::from(number)
}

// INITIALIZATION & BASIC OPERATIONS
// ================================================================================================

#[test]
fn empty_smt_root_is_recognized() {
    let empty_root = AccountStateForest::empty_smt_root();

    assert_eq!(word(Smt::default().root()), empty_root);
}

#[test]
fn account_state_forest_basic_initialization() {
    let forest = AccountStateForest::new();
    assert_eq!(forest.lineage_count(), 0);
    assert_eq!(forest.tree_count(), 0);
}

#[test]
fn update_account_with_empty_deltas() {
    let mut forest = AccountStateForest::new();
    let account_id = dummy_account();
    let block_num = BlockNumber::genesis().child();

    forest
        .update_account(block_num, &partial(account_id, no_vault_delta(), no_storage_delta()))
        .unwrap();

    assert!(forest.get_vault_root(account_id, block_num).is_none());
    assert_eq!(forest.lineage_count(), 0);
}

#[test]
fn private_accounts_are_not_part_of_the_forest() {
    let mut forest = AccountStateForest::new();
    let update = BlockAccountUpdate {
        account_id: dummy_account(),
        final_state_commitment: Word(1, 2, 3, 4),
        details: AccountUpdateDetails::Private,
    };
    forest.update_account(block(1), &update).unwrap();
    assert_eq!(forest.lineage_count(), 0);
}

// VAULT TESTS
// ================================================================================================

#[test]
fn vault_partial_vs_full_state_produces_same_root() {
    let account_id = dummy_account();
    let block_num = BlockNumber::genesis().child();
    let asset = dummy_fungible_asset(100);

    let mut forest_partial = AccountStateForest::new();
    forest_partial
        .update_account(block_num, &partial(account_id, add_tokens(100), no_storage_delta()))
        .unwrap();

    let mut forest_full = AccountStateForest::new();
    forest_full.update_account(block_num, &full(account_id, &[asset], vec![])).unwrap();

    let root_partial = forest_partial.get_vault_root(account_id, block_num).unwrap();
    let root_full = forest_full.get_vault_root(account_id, block_num).unwrap();

    assert_eq!(root_partial, root_full);
    assert_ne!(root_partial, Word::empty());

    let faucet =
        miden_protocol::account::AccountId::try_from(ACCOUNT_ID_PUBLIC_FUNGIBLE_FAUCET).unwrap();
    let vault = AssetVault::new(&[FungibleAsset::new(faucet, 100).unwrap().into()]).unwrap();
    assert_eq!(root_full, word(vault.root()));
}

#[test]
fn vault_incremental_updates_with_add_and_remove() {
    let mut forest = AccountStateForest::new();
    let account_id = dummy_account();

    let block_1 = BlockNumber::genesis().child();
    forest
        .update_account(block_1, &partial(account_id, add_tokens(100), no_storage_delta()))
        .unwrap();
    let root_after_100 = forest.get_vault_root(account_id, block_1).unwrap();

    let block_2 = block_1.child();
    forest
        .update_account(block_2, &partial(account_id, add_tokens(50), no_storage_delta()))
        .unwrap();
    let root_after_150 = forest.get_vault_root(account_id, block_2).unwrap();

    assert_ne!(root_after_100, root_after_150);

    let block_3 = block_2.child();
    forest
        .update_account(block_3, &partial(account_id, add_tokens(-30), no_storage_delta()))
        .unwrap();
    let root_after_120 = forest.get_vault_root(account_id, block_3).unwrap();

    assert_ne!(root_after_150, root_after_120);

    let mut fresh_forest = AccountStateForest::new();
    fresh_forest
        .update_account(block_3, &full(account_id, &[dummy_fungible_asset(120)], vec![]))
        .unwrap();
    let root_full_state_120 = fresh_forest.get_vault_root(account_id, block_3).unwrap();

    assert_eq!(root_after_120, root_full_state_120);
}

#[test]
fn vault_details_returns_latest_and_historical_assets() {
    let mut forest = AccountStateForest::new();
    let account_id = dummy_account();

    let block_1 = BlockNumber::genesis().child();
    let asset_100 = dummy_fungible_asset(100);
    forest.update_account(block_1, &full(account_id, &[asset_100], vec![])).unwrap();

    let block_2 = block_1.child();
    forest
        .update_account(block_2, &partial(account_id, add_tokens(50), no_storage_delta()))
        .unwrap();

    let historical = forest.get_vault_details(account_id, block_1, MAX_RETURN_ENTRIES).unwrap();
    assert_eq!(historical, AccountVaultDetails::Assets(vec![asset_100]));

    let latest = forest.get_vault_details(account_id, block_2, MAX_RETURN_ENTRIES).unwrap();
    assert_eq!(latest, AccountVaultDetails::Assets(vec![dummy_fungible_asset(150)]));
}

#[test]
fn vault_details_limit_exceeded_for_large_vault() {
    let mut forest = AccountStateForest::new();
    let account_id = dummy_account();
    let block_num = BlockNumber::genesis().child();

    let faucet_id = AccountIdBuilder::new()
        .account_type(AccountType::NonFungibleFaucet)
        .storage_mode(AccountStorageMode::Public)
        .build_with_seed([7; 32]);
    let assets = (0..=MAX_RETURN_ENTRIES)
        .map(|i| {
            let details =
                NonFungibleAssetDetails::new(faucet_id, vec![i as u8, (i >> 8) as u8]).unwrap();
            let asset = miden_protocol::asset::Asset::NonFungible(
                NonFungibleAsset::new(&details).unwrap(),
            );
            Asset { key: word(asset.to_key_word()), value: word(asset.to_value_word()) }
        })
        .collect::<Vec<_>>();

    forest.update_account(block_num, &full(account_id, &assets, vec![])).unwrap();

    assert_eq!(
        forest.get_vault_details(account_id, block_num, MAX_RETURN_ENTRIES).unwrap(),
        AccountVaultDetails::LimitExceeded
    );
}

#[test]
fn forest_versions_are_continuous_for_sequential_updates() {
    let mut forest = AccountStateForest::new();
    let account_id = dummy_account();
    let slot_name = slot(9);
    let raw_key = map_key(1);
    let asset_key = dummy_fungible_asset(0).key;

    for i in 1..=3u32 {
        let block_num = block(i);
        let delta = partial(
            account_id,
            add_tokens(i64::from(i) * 10),
            map_delta(&[(&slot_name, vec![(raw_key, Word(u64::from(i), 0, 0, 0))])]),
        );
        forest.update_account(block_num, &delta).unwrap();

        assert!(forest
            .get_vault_asset_witnesses(account_id, block_num, &keys(&[asset_key]))
            .is_ok());
        assert!(forest
            .get_storage_map_witness(account_id, &slot_name, block_num, raw_key)
            .is_ok());
    }
}

#[test]
fn vault_state_is_not_available_for_block_gaps() {
    let mut forest = AccountStateForest::new();
    let account_id = dummy_account();

    let block_1 = BlockNumber::genesis().child();
    forest
        .update_account(block_1, &partial(account_id, add_tokens(100), no_storage_delta()))
        .unwrap();

    let block_6 = block(6);
    forest
        .update_account(block_6, &partial(account_id, add_tokens(150), no_storage_delta()))
        .unwrap();

    assert!(forest.get_vault_root(account_id, block(3)).is_some());
    assert!(forest.get_vault_root(account_id, block(5)).is_some());
    assert!(forest.get_vault_root(account_id, block_6).is_some());

    assert_eq!(forest.get_vault_root(account_id, block(0)), None);
    assert_eq!(
        forest.get_vault_root(account_id, block(5)),
        forest.get_vault_root(account_id, block_1)
    );
    assert_eq!(
        forest.get_vault_root(account_id, block(700)),
        forest.get_vault_root(account_id, block_6)
    );
}

#[test]
fn witness_queries_work_with_sparse_lineage_updates() {
    let mut forest = AccountStateForest::new();
    let account_id = dummy_account();
    let slot_name = slot(6);
    let raw_key = map_key(1);
    let value = Word(9, 0, 0, 0);

    let block_1 = BlockNumber::genesis().child();
    let delta_1 = partial(
        account_id,
        add_tokens(100),
        map_delta(&[(&slot_name, vec![(raw_key, value)])]),
    );
    forest.update_account(block_1, &delta_1).unwrap();

    let block_3 = block_1.child().child();
    forest
        .update_account(block_3, &partial(account_id, add_tokens(50), no_storage_delta()))
        .unwrap();

    let block_2 = block_1.child();
    let asset_key = dummy_fungible_asset(0).key;
    let witnesses =
        forest.get_vault_asset_witnesses(account_id, block_2, &keys(&[asset_key])).unwrap();
    let proof = smt_proof(&witnesses[0]);
    let root_at_2 = forest.get_vault_root(account_id, block_2).unwrap();
    assert_eq!(word(proof.compute_root()), root_at_2);
    assert_eq!(
        proof.get(&protocol_word(asset_key)).map(word),
        Some(dummy_fungible_asset(100).value)
    );

    let storage_witness =
        forest.get_storage_map_witness(account_id, &slot_name, block_2, raw_key).unwrap();
    let storage_root_at_2 = forest.get_storage_map_root(account_id, &slot_name, block_2).unwrap();
    assert_eq!(word(smt_proof(&storage_witness).compute_root()), storage_root_at_2);

    let storage_witness_at_3 =
        forest.get_storage_map_witness(account_id, &slot_name, block_3, raw_key).unwrap();
    let storage_root_at_3 = forest.get_storage_map_root(account_id, &slot_name, block_3).unwrap();
    assert_eq!(word(smt_proof(&storage_witness_at_3).compute_root()), storage_root_at_3);

    let vault_root_at_3 = forest.get_vault_root(account_id, block_3).unwrap();
    assert!(forest.get_vault_asset_witnesses(account_id, block_3, &keys(&[asset_key])).is_ok());
    assert_ne!(vault_root_at_3, AccountStateForest::empty_smt_root());
}

#[test]
fn vault_full_state_with_empty_vault_records_root() {
    let mut forest = AccountStateForest::new();
    let account_id = dummy_account();
    let block_num = BlockNumber::genesis().child();

    forest.update_account(block_num, &full(account_id, &[], vec![])).unwrap();

    let recorded_root = forest.get_vault_root(account_id, block_num);
    assert_eq!(recorded_root, Some(AccountStateForest::empty_smt_root()));

    let witnesses = forest
        .get_vault_asset_witnesses(account_id, block_num, &keys(&[]))
        .expect("get_vault_asset_witnesses should succeed for accounts with empty vaults");
    assert!(witnesses.is_empty());
}

#[test]
fn vault_shared_root_retained_when_one_entry_pruned() {
    let mut forest = AccountStateForest::new();
    let account1 = account_id(ACCOUNT_ID_REGULAR_PUBLIC_ACCOUNT_IMMUTABLE_CODE);
    let account2 = account_id(ACCOUNT_ID_REGULAR_PUBLIC_ACCOUNT_IMMUTABLE_CODE_2);
    let block_1 = BlockNumber::genesis().child();
    let asset_amount = i64::from(HISTORICAL_BLOCK_RETENTION);
    let amount_increment = asset_amount / i64::from(HISTORICAL_BLOCK_RETENTION);
    let asset_key = dummy_fungible_asset(1).key;

    for account in [account1, account2] {
        forest
            .update_account(block_1, &partial(account, add_tokens(asset_amount), no_storage_delta()))
            .unwrap();
    }

    let root1 = forest.get_vault_root(account1, block_1).unwrap();
    let root2 = forest.get_vault_root(account2, block_1).unwrap();
    assert_eq!(root1, root2);

    let block_at_51 = block(HISTORICAL_BLOCK_RETENTION + 1);
    let update = partial(account2, add_tokens(amount_increment), no_storage_delta());
    forest.update_account(block_at_51, &update).unwrap();

    let block_at_52 = block(HISTORICAL_BLOCK_RETENTION + 2);
    let total_roots_removed = forest.prune(block_at_52);

    assert_eq!(total_roots_removed, 0);
    assert!(forest.get_vault_root(account1, block_1).is_some());
    assert!(forest.get_vault_root(account2, block_1).is_some());

    let vault_root_at_52 = forest.get_vault_root(account1, block_at_52);
    assert_eq!(vault_root_at_52, Some(root1));

    let witnesses =
        forest.get_vault_asset_witnesses(account1, block_at_52, &keys(&[asset_key])).unwrap();
    assert_eq!(witnesses.len(), 1);
    assert_eq!(word(smt_proof(&witnesses[0]).compute_root()), root1);
}

#[test]
fn unknown_vaults_and_maps_have_no_witnesses() {
    let forest = AccountStateForest::new();
    let asset_key = dummy_fungible_asset(1).key;
    assert_eq!(
        forest.get_vault_asset_witnesses(dummy_account(), block(1), &keys(&[asset_key])),
        Err(WitnessError::RootNotFound)
    );
    assert_eq!(
        forest.get_storage_map_witness(dummy_account(), &slot(1), block(1), map_key(1)),
        Err(WitnessError::RootNotFound)
    );
    assert_eq!(
        forest.get_vault_details(dummy_account(), block(1), MAX_RETURN_ENTRIES),
        Err(WitnessError::RootNotFound)
    );
}

#[test]
fn updates_that_do_not_fit_the_vault_are_refused() {
    let mut forest = AccountStateForest::new();
    let id = dummy_account();
    forest.update_account(block(1), &full(id, &[dummy_fungible_asset(10)], vec![])).unwrap();

    assert_eq!(
        forest.update_account(block(2), &partial(id, add_tokens(-11), no_storage_delta())),
        Err(AccountStateForestError::InvalidVaultDelta(id))
    );
    assert_eq!(
        forest.update_account(block(1), &partial(id, add_tokens(1), no_storage_delta())),
        Err(AccountStateForestError::UpdateRefused(id))
    );
    assert_eq!(
        forest.update_account(block(2), &full(id, &[], vec![])),
        Err(AccountStateForestError::AccountExists(id))
    );
    assert_eq!(
        forest.get_vault_details(id, block(2), MAX_RETURN_ENTRIES),
        Ok(AccountVaultDetails::Assets(vec![dummy_fungible_asset(10)]))
    );
}

#[test]
fn non_fungible_assets_come_and_go() {
    let mut forest = AccountStateForest::new();
    let id = dummy_account();
    let faucet_id = AccountIdBuilder::new()
        .account_type(AccountType::NonFungibleFaucet)
        .storage_mode(AccountStorageMode::Public)
        .build_with_seed([7; 32]);
    let details = NonFungibleAssetDetails::new(faucet_id, vec![1, 2, 3]).unwrap();
    let asset =
        miden_protocol::asset::Asset::NonFungible(NonFungibleAsset::new(&details).unwrap());
    let asset = Asset { key: word(asset.to_key_word()), value: word(asset.to_value_word()) };
    let change = |added: bool| {
        let vault = VaultDelta { fungible: vec![], non_fungible: vec![(asset, added)] };
        partial(id, vault, no_storage_delta())
    };

    forest.update_account(block(1), &change(true)).unwrap();
    assert_eq!(
        forest.get_vault_details(id, block(1), MAX_RETURN_ENTRIES),
        Ok(AccountVaultDetails::Assets(vec![asset]))
    );
    assert_eq!(
        forest.update_account(block(2), &change(true)),
        Err(AccountStateForestError::InvalidVaultDelta(id))
    );
    forest.update_account(block(2), &change(false)).unwrap();
    assert_eq!(
        forest.get_vault_root(id, block(2)),
        Some(AccountStateForest::empty_smt_root())
    );
    assert_eq!(
        forest.update_account(block(3), &change(false)),
        Err(AccountStateForestError::InvalidVaultDelta(id))
    );
}

// STORAGE MAP TESTS
// ================================================================================================

#[test]
fn storage_map_incremental_updates() {
    let mut forest = AccountStateForest::new();
    let account_id = dummy_account();

    let slot_name = slot(3);
    let (key1, key2) = (map_key(1), map_key(2));
    let values = [Word(10, 0, 0, 0), Word(20, 0, 0, 0), Word(30, 0, 0, 0)];

    let mut roots = vec![];
    for (i, (key, value)) in
        [(key1, values[0]), (key2, values[1]), (key1, values[2])].into_iter().enumerate()
    {
        let block_num = block(i as u32 + 1);
        let delta =
            partial(account_id, no_vault_delta(), map_delta(&[(&slot_name, vec![(key, value)])]));
        forest.update_account(block_num, &delta).unwrap();
        roots.push(forest.get_storage_map_root(account_id, &slot_name, block_num).unwrap());
    }

    assert_ne!(roots[0], roots[1]);
    assert_ne!(roots[1], roots[2]);
    assert_ne!(roots[0], roots[2]);

    let map = StorageMap::with_entries([
        (StorageMapKey::new(protocol_word(key1)), protocol_word(values[2])),
        (StorageMapKey::new(protocol_word(key2)), protocol_word(values[1])),
    ])
    .unwrap();
    assert_eq!(roots[2], word(map.root()));
}

#[test]
fn test_storage_map_removals() {
    let mut forest = AccountStateForest::new();
    let account_id = dummy_account();
    let slot_name = slot(3);
    let (key_1, key_2) = (map_key(1), map_key(2));
    let (value_1, value_2) = (Word(10, 0, 0, 0), Word(20, 0, 0, 0));

    let block_1 = BlockNumber::genesis().child();
    let delta_1 = partial(
        account_id,
        no_vault_delta(),
        map_delta(&[(&slot_name, vec![(key_1, value_1), (key_2, value_2)])]),
    );
    forest.update_account(block_1, &delta_1).unwrap();

    let block_2 = block_1.child();
    let delta_2 = partial(
        account_id,
        no_vault_delta(),
        map_delta(&[(&slot_name, vec![(key_1, Word::empty())])]),
    );
    forest.update_account(block_2, &delta_2).unwrap();

    let open = |key: Word| {
        smt_proof(&forest.get_storage_map_witness(account_id, &slot_name, block_2, key).unwrap())
    };
    let key_2_hash = protocol_word(hashed(key_2));
    assert_eq!(open(key_2).get(&key_2_hash).map(word), Some(value_2));

    let key_1_hash = protocol_word(hashed(key_1));
    assert_eq!(open(key_1).get(&key_1_hash).map(word), Some(Word::empty()));
}

#[test]
fn storage_map_state_is_not_available_for_block_gaps() {
    let mut forest = AccountStateForest::new();
    let account_id = dummy_account();
    let slot_name = slot(4);
    let raw_key = map_key(7);

    for (number, value) in [(1, 10), (4, 20)] {
        let delta = partial(
            account_id,
            no_vault_delta(),
            map_delta(&[(&slot_name, vec![(raw_key, Word(value, 0, 0, 0))])]),
        );
        forest.update_account(block(number), &delta).unwrap();
    }

    assert!(forest.get_storage_map_root(account_id, &slot_name, block(2)).is_some());
    assert!(forest.get_storage_map_root(account_id, &slot_name, block(3)).is_some());
    assert!(forest.get_storage_map_root(account_id, &slot_name, block(4)).is_some());
}

#[test]
fn storage_map_empty_entries_query() {
    let mut forest = AccountStateForest::new();
    let block_num = BlockNumber::genesis().child();
    let slot_name = slot(0);
    let account_id = dummy_account();

    let slots = vec![StorageSlot {
        name: slot_name.clone(),
        content: StorageSlotContent::MapEntries(vec![]),
    }];
    forest.update_account(block_num, &full(account_id, &[], slots)).unwrap();

    let root = forest.get_storage_map_root(account_id, &slot_name, block_num);
    assert_eq!(root, Some(AccountStateForest::empty_smt_root()));
}

#[test]
fn value_slots_have_no_tree() {
    let mut forest = AccountStateForest::new();
    let slots = vec![StorageSlot {
        name: slot(0),
        content: StorageSlotContent::SingleValue(Word(1, 2, 3, 4)),
    }];
    forest.update_account(block(1), &full(dummy_account(), &[], slots)).unwrap();
    assert_eq!(forest.lineage_count(), 1);
    assert_eq!(forest.get_storage_map_root(dummy_account(), &slot(0), block(1)), None);
}

#[test]
fn storage_map_open_returns_proofs() {
    let mut forest = AccountStateForest::new();
    let account_id = dummy_account();
    let slot_name = slot(3);
    let block_num = BlockNumber::genesis().child();

    let entries: Vec<(Word, Word)> =
        (0..20u32).map(|i| (map_key(i), Word(0, 0, 0, u64::from(i)))).collect();
    let delta = partial(account_id, no_vault_delta(), map_delta(&[(&slot_name, entries)]));
    forest.update_account(block_num, &delta).unwrap();

    let keys: Vec<Word> = (0..20u32).map(map_key).collect();
    let result =
        forest.get_storage_map_details_for_keys(account_id, slot_name.clone(), block_num, &keys);

    let details = result.expect("Should return Some").expect("Should not error");
    let StorageMapEntries::EntriesWithProofs(entries) = details.entries else {
        panic!("expected proofs");
    };
    assert_eq!(entries.len(), keys.len());
    let hash = protocol_word(hashed(map_key(7)));
    assert_eq!(smt_proof(&entries[7]).get(&hash).map(word), Some(Word(0, 0, 0, 7)));

    assert_eq!(
        forest.get_storage_map_details_for_keys(account_id, slot(4), block_num, &keys),
        None
    );
}

#[test]
fn storage_map_all_entries_returns_raw_keys_after_update() {
    let mut forest = AccountStateForest::new();
    let account_id = dummy_account();
    let slot_name = slot(6);
    let block_num = BlockNumber::genesis().child();
    let raw_key = map_key(42);
    let value = Word(42, 0, 0, 0);

    let delta = partial(
        account_id,
        no_vault_delta(),
        map_delta(&[(&slot_name, vec![(raw_key, value)])]),
    );
    forest.update_account(block_num, &delta).unwrap();

    let result = forest.get_storage_map_details_for_all_entries(
        account_id,
        slot_name.clone(),
        block_num,
        MAX_RETURN_ENTRIES,
    );

    assert_eq!(
        result,
        AccountStorageMapResult::Details(AccountStorageMapDetails {
            slot_name,
            entries: StorageMapEntries::AllEntries(vec![(raw_key, value)]),
        })
    );
}

#[test]
fn storage_map_all_entries_returns_cache_miss_when_raw_key_is_not_cached() {
    let mut forest = AccountStateForest::new();
    let account_id = dummy_account();
    let slot_name = slot(7);
    let block_num = BlockNumber::genesis().child();
    let raw_key = map_key(43);
    let value = Word(43, 0, 0, 0);

    let delta = partial(
        account_id,
        no_vault_delta(),
        map_delta(&[(&slot_name, vec![(raw_key, value)])]),
    );
    forest.update_account(block_num, &delta).unwrap();

    forest.clear_storage_map_key_cache();

    let result = forest.get_storage_map_details_for_all_entries(
        account_id,
        slot_name.clone(),
        block_num,
        MAX_RETURN_ENTRIES,
    );
    assert_eq!(result, AccountStorageMapResult::CannotReconstructKeysFromCache);

    forest.cache_storage_map_keys(&vec![raw_key]);

    let result = forest.get_storage_map_details_for_all_entries(
        account_id,
        slot_name.clone(),
        block_num,
        MAX_RETURN_ENTRIES,
    );
    assert_eq!(
        result,
        AccountStorageMapResult::Details(AccountStorageMapDetails {
            slot_name,
            entries: StorageMapEntries::AllEntries(vec![(raw_key, value)]),
        })
    );
}

#[test]
fn the_keys_that_were_learnt_first_are_forgotten() {
    let mut forest = AccountStateForest::new();
    let (account_id, slot_name, raw_key) = (dummy_account(), slot(7), map_key(43));
    let block_num = BlockNumber::genesis().child();
    let map = map_delta(&[(&slot_name, vec![(raw_key, Word(43, 0, 0, 0))])]);
    forest.update_account(block_num, &partial(account_id, no_vault_delta(), map)).unwrap();

    let is_known = |forest: &AccountStateForest| {
        let result = forest.get_storage_map_details_for_all_entries(
            account_id,
            slot_name.clone(),
            block_num,
            MAX_RETURN_ENTRIES,
        );
        result != AccountStorageMapResult::CannotReconstructKeysFromCache
    };
    let others: Vec<_> =
        (1..=STORAGE_MAP_KEY_CACHE_CAPACITY as u64).map(|num| Word(0, num, 0, 1)).collect();
    forest.cache_storage_map_keys(&others[1..].to_vec());
    assert!(is_known(&forest), "as many keys are known as there may be");
    forest.cache_storage_map_keys(&others[1..5].to_vec());
    assert!(is_known(&forest), "a key that is learnt again is not a further one");
    forest.cache_storage_map_keys(&others[..1].to_vec());
    assert!(!is_known(&forest));
    forest.cache_storage_map_keys(&vec![raw_key]);
    assert!(is_known(&forest));
}

#[test]
fn storage_map_all_entries_respects_limit() {
    let mut forest = AccountStateForest::new();
    let entries: Vec<(Word, Word)> = (1..4u32).map(|i| (map_key(i), Word(1, 0, 0, 0))).collect();
    let delta = partial(dummy_account(), no_vault_delta(), map_delta(&[(&slot(1), entries)]));
    forest.update_account(block(1), &delta).unwrap();

    let all = |limit: usize| {
        forest.get_storage_map_details_for_all_entries(dummy_account(), slot(1), block(1), limit)
    };
    assert_eq!(
        all(2),
        AccountStorageMapResult::Details(AccountStorageMapDetails {
            slot_name: slot(1),
            entries: StorageMapEntries::LimitExceeded,
        })
    );
    assert!(matches!(
        all(3),
        AccountStorageMapResult::Details(AccountStorageMapDetails {
            entries: StorageMapEntries::AllEntries(_),
            ..
        })
    ));
    assert_eq!(
        forest.get_storage_map_details_for_all_entries(dummy_account(), slot(2), block(1), 3),
        AccountStorageMapResult::NotFound
    );
}

#[test]
fn storage_map_key_hashing_and_raw_entries_are_consistent() {
    let mut forest = AccountStateForest::new();
    let account_id = dummy_account();
    let slot_name = slot(4);
    let block_num = BlockNumber::genesis().child();
    let raw_key = map_key(11);
    let value = Word(22, 0, 0, 0);

    let delta = partial(
        account_id,
        no_vault_delta(),
        map_delta(&[(&slot_name, vec![(raw_key, value)])]),
    );
    forest.update_account(block_num, &delta).unwrap();

    let root = forest.get_storage_map_root(account_id, &slot_name, block_num).unwrap();

    let witness =
        forest.get_storage_map_witness(account_id, &slot_name, block_num, raw_key).unwrap();
    let proof = smt_proof(&witness);
    let hashed_key = protocol_word(hashed(raw_key));
    assert_eq!(word(proof.compute_root()), root);
    assert_eq!(proof.get(&hashed_key).map(word), Some(value));
    assert_eq!(proof.get(&protocol_word(raw_key)), None);
}

// PRUNING TESTS
// ================================================================================================

const TEST_CHAIN_LENGTH: u32 = 100;
const TEST_AMOUNT_MULTIPLIER: u32 = 100;
const TEST_PRUNE_CHAIN_TIP: u32 = HISTORICAL_BLOCK_RETENTION + 5;

#[test]
fn prune_handles_empty_forest() {
    let mut forest = AccountStateForest::new();

    let total_roots_removed = forest.prune(BlockNumber::genesis());

    assert_eq!(total_roots_removed, 0);
}

#[test]
fn prune_removes_smt_roots_from_forest() {
    let mut forest = AccountStateForest::new();
    let account_id = dummy_account();
    let slot_name = slot(7);
    let map_key = Word(1, 0, 0, 0);

    for i in 1..=TEST_PRUNE_CHAIN_TIP {
        let storage_delta = if i % 3 == 0 {
            let i = u64::from(i);
            map_delta(&[(&slot_name, vec![(map_key, Word(99, i, i * i, i * i * i))])])
        } else {
            no_storage_delta()
        };
        let delta =
            partial(account_id, add_tokens((i * TEST_AMOUNT_MULTIPLIER).into()), storage_delta);
        forest.update_account(block(i), &delta).unwrap();
    }

    let retained_block = block(TEST_PRUNE_CHAIN_TIP);
    let pruned_block = block(3);

    let total_roots_removed = forest.prune(retained_block);
    assert_eq!(total_roots_removed, 0);
    assert!(forest.get_vault_root(account_id, retained_block).is_some());
    assert!(forest.get_vault_root(account_id, pruned_block).is_none());
    assert!(forest.get_storage_map_root(account_id, &slot_name, pruned_block).is_none());
    assert!(forest.get_storage_map_root(account_id, &slot_name, retained_block).is_some());

    let asset_keys = keys(&[dummy_fungible_asset(0).key]);
    assert!(forest.get_vault_asset_witnesses(account_id, retained_block, &asset_keys).is_ok());
    assert!(forest.get_vault_asset_witnesses(account_id, pruned_block, &asset_keys).is_err());
    assert!(forest
        .get_storage_map_witness(account_id, &slot_name, pruned_block, map_key)
        .is_err());
}

#[test]
fn prune_respects_retention_boundary() {
    let mut forest = AccountStateForest::new();
    let account_id = dummy_account();

    for i in 1..=HISTORICAL_BLOCK_RETENTION {
        let vault = add_tokens((i * TEST_AMOUNT_MULTIPLIER).into());
        forest
            .update_account(block(i), &partial(account_id, vault, no_storage_delta()))
            .unwrap();
    }

    let total_roots_removed = forest.prune(block(HISTORICAL_BLOCK_RETENTION));

    assert_eq!(total_roots_removed, 0);
    assert_eq!(forest.tree_count(), 11);
}

#[test]
fn prune_roots_removes_old_entries() {
    let mut forest = AccountStateForest::new();
    let account_id = dummy_account();
    let slot_name = slot(3);

    for i in 1..=TEST_CHAIN_LENGTH {
        let n = u64::from(i);
        let storage =
            map_delta(&[(&slot_name, vec![(Word(n, n * n, 5, 4), Word(0, 0, n * n * n, 77))])]);
        let vault = add_tokens((i * TEST_AMOUNT_MULTIPLIER).into());
        forest.update_account(block(i), &partial(account_id, vault, storage)).unwrap();
    }

    assert_eq!(forest.tree_count(), 22);

    let total_roots_removed = forest.prune(block(TEST_CHAIN_LENGTH));

    assert_eq!(total_roots_removed, 0);

    assert_eq!(forest.tree_count(), 22);
}

#[test]
fn prune_handles_multiple_accounts() {
    let mut forest = AccountStateForest::new();
    let account1 = dummy_account();
    let account2 = account_id(ACCOUNT_ID_PUBLIC_FUNGIBLE_FAUCET);

    for i in 1..=TEST_CHAIN_LENGTH {
        let amount = i64::from(i * TEST_AMOUNT_MULTIPLIER);
        let updates = vec![
            partial(account1, add_tokens(amount), no_storage_delta()),
            partial(account2, add_tokens(amount * 2), no_storage_delta()),
        ];
        forest.apply_block_updates(block(i), &updates).unwrap();
    }

    assert_eq!(forest.tree_count(), 22);

    let total_roots_removed = forest.prune(block(TEST_CHAIN_LENGTH));

    let expected_removed_per_account = (TEST_CHAIN_LENGTH - HISTORICAL_BLOCK_RETENTION) as usize;
    assert_eq!(total_roots_removed, 0);
    assert!(total_roots_removed <= expected_removed_per_account * 2);

    assert_eq!(forest.tree_count(), 22);
}

#[test]
fn prune_handles_multiple_slots() {
    let mut forest = AccountStateForest::new();
    let account_id = dummy_account();
    let slot_a = slot(1);
    let slot_b = slot(2);

    for i in 1..=TEST_CHAIN_LENGTH {
        let n = u64::from(i);
        let storage = map_delta(&[
            (&slot_a, vec![(Word(n, 0, 0, 0), Word(n, 0, 0, 1))]),
            (&slot_b, vec![(Word(n, 0, 0, 2), Word(n, 0, 0, 3))]),
        ]);
        forest.update_account(block(i), &partial(account_id, no_vault_delta(), storage)).unwrap();
    }

    assert_eq!(forest.tree_count(), 22);

    let total_roots_removed = forest.prune(block(TEST_CHAIN_LENGTH));

    assert_eq!(total_roots_removed, 0);

    assert_eq!(forest.tree_count(), 22);
}

#[test]
fn prune_preserves_most_recent_state_per_entity() {
    let mut forest = AccountStateForest::new();
    let account_id = dummy_account();
    let slot_map_a = slot(1);
    let slot_map_b = slot(2);

    let block_1 = block(1);
    let storage = map_delta(&[
        (&slot_map_a, vec![(Word(1, 0, 0, 0), Word(100, 0, 0, 0))]),
        (&slot_map_b, vec![(Word(2, 0, 0, 0), Word(200, 0, 0, 0))]),
    ]);
    forest.update_account(block_1, &partial(account_id, add_tokens(1000), storage)).unwrap();

    let block_at_51 = block(51);
    let storage = map_delta(&[(&slot_map_a, vec![(Word(1, 0, 0, 0), Word(999, 0, 0, 0))])]);
    forest.update_account(block_at_51, &partial(account_id, no_vault_delta(), storage)).unwrap();

    let total_roots_removed = forest.prune(block(100));

    assert_eq!(total_roots_removed, 0);

    assert!(forest.get_storage_map_root(account_id, &slot_map_a, block_at_51).is_some());
    assert!(forest.get_storage_map_root(account_id, &slot_map_a, block_1).is_some());
    assert!(forest.get_storage_map_root(account_id, &slot_map_b, block_1).is_some());
}

#[test]
fn prune_preserves_entries_within_retention_window() {
    let mut forest = AccountStateForest::new();
    let account_id = dummy_account();
    let slot_map = slot(1);

    for number in [1u32, 25, 50, 75, 100] {
        let storage = map_delta(&[(
            &slot_map,
            vec![(map_key(number), Word(u64::from(number) * 10, 0, 0, 0))],
        )]);
        let vault = add_tokens(i64::from(number) * 100);
        forest.update_account(block(number), &partial(account_id, vault, storage)).unwrap();
    }

    let total_roots_removed = forest.prune(block(100));

    assert_eq!(total_roots_removed, 4);

    assert!(forest.get_vault_root(account_id, block(1)).is_none());
    assert!(forest.get_vault_root(account_id, block(25)).is_none());
    assert!(forest.get_vault_root(account_id, block(50)).is_some());
    assert!(forest.get_vault_root(account_id, block(75)).is_some());
    assert!(forest.get_vault_root(account_id, block(100)).is_some());
}

#[test]
fn shared_vault_root_retained_when_one_account_changes() {
    let mut forest = AccountStateForest::new();
    let account1 = account_id(ACCOUNT_ID_REGULAR_PUBLIC_ACCOUNT_IMMUTABLE_CODE);
    let account2 = account_id(ACCOUNT_ID_REGULAR_PUBLIC_ACCOUNT_IMMUTABLE_CODE_2);

    let block_1 = BlockNumber::genesis().child();
    let asset_key = dummy_fungible_asset(1000).key;
    for account in [account1, account2] {
        forest
            .update_account(block_1, &partial(account, add_tokens(1000), no_storage_delta()))
            .unwrap();
    }

    let root1_at_block1 = forest.get_vault_root(account1, block_1).unwrap();
    let root2_at_block1 = forest.get_vault_root(account2, block_1).unwrap();
    assert_eq!(root1_at_block1, root2_at_block1, "identical vaults should have identical roots");

    let block_2 = block_1.child();
    forest
        .update_account(block_2, &partial(account2, add_tokens(500), no_storage_delta()))
        .unwrap();

    let root2_at_block2 = forest.get_vault_root(account2, block_2).unwrap();
    assert_ne!(root2_at_block1, root2_at_block2, "account2 vault should have changed");

    assert_eq!(forest.get_vault_root(account1, block_2), Some(root1_at_block1));

    let witnesses = forest
        .get_vault_asset_witnesses(account1, block_2, &keys(&[asset_key]))
        .expect("witness generation should succeed for prior version");
    assert_eq!(witnesses.len(), 1);
}
