use std::collections::BTreeMap;

use miden_node_store::account_id::AccountId;
use miden_node_store::account_state_forest::forest::AccountStateForest;
use miden_node_store::block_number::{BlockNumber, BlockRange};
use miden_node_store::db::accounts::{select_account_storage_map_values_paged, StorageMapValueRow};
use miden_node_store::db::delta::{MapDelta, StorageDelta, VaultDelta};
use miden_node_store::db::history::{insert_account_storage_map_value, HISTORICAL_BLOCK_RETENTION};
use miden_node_store::db::updates::{AccountDelta, AccountUpdateDetails, BlockAccountUpdate};
use miden_node_store::db::upsert::AccountStorageMapRowInsert;
use miden_node_store::state::account::Asset;
use miden_node_store::word::Word;
use miden_node_store::word_set::WordSet;
use miden_protocol::account::{StorageMapKey, StorageSlotName};
use miden_protocol::asset::FungibleAsset;
use miden_protocol::crypto::merkle::smt::{Smt, SmtProof, SMT_DEPTH};
use miden_protocol::crypto::merkle::EmptySubtreeRoots;
use miden_protocol::testing::account_id::{
    ACCOUNT_ID_PUBLIC_FUNGIBLE_FAUCET, ACCOUNT_ID_REGULAR_PRIVATE_ACCOUNT_UPDATABLE_CODE,
    ACCOUNT_ID_REGULAR_PUBLIC_ACCOUNT_IMMUTABLE_CODE,
    ACCOUNT_ID_REGULAR_PUBLIC_ACCOUNT_IMMUTABLE_CODE_2,
};
use miden_protocol::utils::serde::Deserializable;
use miden_protocol::Felt;

const EMPTY_WORD: Word = Word(0, 0, 0, 0);

fn word(word: miden_protocol::Word) -> Word {
    let [a, b, c, d] = word.into_elements().map(|element| element.as_canonical_u64());
    Word(a, b, c, d)
}

fn protocol_word(word: Word) -> miden_protocol::Word {
    miden_protocol::Word::new([word.0, word.1, word.2, word.3].map(Felt::new))
}

fn account_id(raw: u128) -> AccountId {
    let id = miden_protocol::account::AccountId::try_from(raw).unwrap();
    AccountId { prefix: id.prefix().as_u64(), suffix: id.suffix().as_canonical_u64() }
}

fn num_to_word(n: u64) -> Word {
    Word(0, 0, 0, n)
}

fn slot(index: usize) -> String {
    StorageSlotName::mock(index).as_str().to_string()
}

fn block(number: u32) -> BlockNumber {
    BlockNumber::from(number)
}

fn fungible(amount: u64) -> Asset {
    let faucet =
        miden_protocol::account::AccountId::try_from(ACCOUNT_ID_PUBLIC_FUNGIBLE_FAUCET).unwrap();
    let asset: miden_protocol::asset::Asset = FungibleAsset::new(faucet, amount).unwrap().into();
    Asset { key: word(asset.to_key_word()), value: word(asset.to_value_word()) }
}

fn tokens(amount: i64) -> VaultDelta {
    VaultDelta { fungible: vec![(fungible(1).key, amount)], non_fungible: vec![] }
}

fn no_tokens() -> VaultDelta {
    VaultDelta { fungible: vec![], non_fungible: vec![] }
}

fn map(slot_name: &str, entries: &[(Word, Word)]) -> MapDelta {
    MapDelta { slot_name: slot_name.to_string(), entries: entries.to_vec() }
}

fn update(
    account_id: AccountId,
    values: &[(String, Word)],
    maps: Vec<MapDelta>,
    vault: VaultDelta,
) -> BlockAccountUpdate {
    BlockAccountUpdate {
        account_id,
        final_state_commitment: Word(1, 2, 3, 4),
        details: AccountUpdateDetails::Delta(AccountDelta {
            storage: StorageDelta { values: values.to_vec(), maps },
            vault,
            nonce_delta: 1,
        }),
    }
}

fn root_of_proof(bytes: &[u8]) -> Word {
    word(SmtProof::read_from_bytes(bytes).unwrap().compute_root())
}

/// Rebuilds the root of a storage map from the rows of its entries up to a block.
fn root_from_rows(
    rows: &[AccountStorageMapRowInsert],
    account_id: AccountId,
    slot_name: &str,
    block_num: u32,
) -> Option<Word> {
    let rows = rows
        .iter()
        .filter(|row| row.block_num <= i64::from(block_num))
        .map(|row| StorageMapValueRow {
            block_num: row.block_num,
            slot_name: row.slot_name.clone(),
            key: row.key.clone(),
            value: row.value.clone(),
        })
        .collect();
    let range = BlockRange::new(block(0), block(block_num));
    let page = select_account_storage_map_values_paged(account_id, range, rows, 1024).unwrap();

    let mut latest = BTreeMap::new();
    for value in page.values {
        if value.slot_name == slot_name {
            let Word(a, b, c, d) = value.key;
            latest.insert([a, b, c, d], value.value);
        }
    }
    if latest.is_empty() {
        return None;
    }
    latest.retain(|_, value| *value != EMPTY_WORD);
    if latest.is_empty() {
        return Some(word(*EmptySubtreeRoots::entry(SMT_DEPTH, 0)));
    }
    let mut smt = Smt::default();
    for ([a, b, c, d], value) in latest {
        let key = StorageMapKey::new(protocol_word(Word(a, b, c, d)));
        smt.insert(key.hash().into(), protocol_word(value)).unwrap();
    }
    Some(word(smt.root()))
}

#[test]
fn account_state_forest_matches_db_storage_map_roots_across_updates() {
    let mut forest = AccountStateForest::new();
    let mut rows = vec![];
    let id = account_id(ACCOUNT_ID_REGULAR_PUBLIC_ACCOUNT_IMMUTABLE_CODE);
    let slot_map = slot(1);
    let slot_value = slot(2);
    let key1 = word(StorageMapKey::from_index(100).into());
    let key2 = word(StorageMapKey::from_index(200).into());
    let value1 = num_to_word(1000);
    let value2 = num_to_word(2000);
    let value3 = num_to_word(3000);

    let mut roots = vec![];
    let changes = [
        (1, vec![(key1, value1), (key2, value2)], value1),
        (2, vec![(key1, EMPTY_WORD)], EMPTY_WORD),
        (3, vec![(key2, value3)], value1),
    ];
    for (number, entries, value) in changes {
        for (key, value) in &entries {
            rows = insert_account_storage_map_value(
                rows,
                id,
                block(number),
                slot_map.clone(),
                *key,
                *value,
            )
            .0;
        }
        let values = [(slot_value.clone(), value)];
        let change = update(id, &values, vec![map(&slot_map, &entries)], no_tokens());
        forest.update_account(block(number), &change).unwrap();

        let forest_root = forest.get_storage_map_root(id, &slot_map, block(number)).unwrap();
        let db_root = root_from_rows(&rows, id, &slot_map, number)
            .expect("DB should have storage map root");
        assert_eq!(forest_root, db_root, "Storage map roots should match");
        roots.push(forest_root);
    }

    assert_eq!(
        forest.get_storage_map_root(id, &slot_map, block(1)),
        root_from_rows(&rows, id, &slot_map, 1),
        "Historical query for block 1 should match"
    );
    assert_ne!(roots[0], roots[1], "Roots should differ after deletion");
    assert_ne!(roots[1], roots[2], "Roots should differ after modification");
}

#[test]
fn account_state_forest_shared_roots_not_deleted_prematurely() {
    let mut forest = AccountStateForest::new();
    let account1 = account_id(ACCOUNT_ID_REGULAR_PUBLIC_ACCOUNT_IMMUTABLE_CODE);
    let account2 = account_id(ACCOUNT_ID_REGULAR_PUBLIC_ACCOUNT_IMMUTABLE_CODE_2);
    let account3 = account_id(ACCOUNT_ID_REGULAR_PRIVATE_ACCOUNT_UPDATABLE_CODE);
    let block50 = block(HISTORICAL_BLOCK_RETENTION);
    let block51 = block(HISTORICAL_BLOCK_RETENTION + 1);
    let block52 = block(HISTORICAL_BLOCK_RETENTION + 2);
    let block53 = block(HISTORICAL_BLOCK_RETENTION + 3);
    let name = slot(1);
    let key1 = num_to_word(100);
    let key2 = num_to_word(200);
    let entries = [(key1, num_to_word(1000)), (key2, num_to_word(2000))];

    let create = |id| update(id, &[], vec![map(&name, &entries)], no_tokens());
    forest.update_account(block(1), &create(account1)).unwrap();
    forest.update_account(block(2), &create(account2)).unwrap();
    forest.update_account(block(2), &create(account3)).unwrap();

    let root1 = forest.get_storage_map_root(account1, &name, block(1)).unwrap();
    let root2 = forest.get_storage_map_root(account2, &name, block(2)).unwrap();
    let root3 = forest.get_storage_map_root(account3, &name, block(2)).unwrap();
    assert_eq!(root1, root2);
    assert_eq!(root2, root3);

    let witness1 = forest.get_storage_map_witness(account1, &name, block(1), key1).unwrap();
    let witness2 = forest.get_storage_map_witness(account2, &name, block(2), key1).unwrap();
    let witness3 = forest.get_storage_map_witness(account3, &name, block(2), key1).unwrap();
    assert_eq!(root_of_proof(&witness1), root1, "Witness1 must verify against root1");
    assert_eq!(root_of_proof(&witness2), root2, "Witness2 must verify against root2");
    assert_eq!(root_of_proof(&witness3), root3, "Witness3 must verify against root3");

    assert_eq!(forest.prune(block50), 0);

    let change =
        |id| update(id, &[], vec![map(&name, &[(key1, num_to_word(1001))])], no_tokens());
    forest.update_account(block51, &change(account2)).unwrap();
    forest.update_account(block52, &change(account3)).unwrap();
    assert_eq!(forest.prune(block52), 0);
    assert!(forest.get_storage_map_root(account1, &name, block(1)).is_some());

    forest.update_account(block53, &change(account1)).unwrap();
    assert_eq!(forest.prune(block53), 0);

    for (id, number) in [(account1, block53), (account2, block51), (account3, block52)] {
        let root = forest.get_storage_map_root(id, &name, number).unwrap();
        let witness = forest.get_storage_map_witness(id, &name, number, key1).unwrap();
        assert_eq!(root_of_proof(&witness), root);
    }
}

#[test]
fn account_state_forest_retains_latest_after_100_blocks_and_pruning() {
    let mut forest = AccountStateForest::new();
    let id = account_id(ACCOUNT_ID_REGULAR_PUBLIC_ACCOUNT_IMMUTABLE_CODE);
    let slot_map = slot(1);
    let key1 = num_to_word(100);
    let key2 = num_to_word(200);
    let entries = [(key1, num_to_word(1000)), (key2, num_to_word(2000))];

    let first = update(id, &[], vec![map(&slot_map, &entries)], tokens(100));
    forest.update_account(block(1), &first).unwrap();
    let initial_vault_root = forest.get_vault_root(id, block(1)).unwrap();
    let initial_map_root = forest.get_storage_map_root(id, &slot_map, block(1)).unwrap();

    assert!(forest.get_vault_root(id, block(100)).is_some());
    assert_eq!(
        forest.get_storage_map_root(id, &slot_map, block(100)),
        Some(initial_map_root)
    );

    let removed = forest.prune(block(100));
    assert_eq!(100 - HISTORICAL_BLOCK_RETENTION, 50, "Cutoff should be block 50");
    assert_eq!(removed, 0);
    assert!(forest.get_vault_root(id, block(100)).is_some());
    assert_eq!(
        forest.get_storage_map_root(id, &slot_map, block(100)),
        Some(initial_map_root)
    );
    assert!(forest.get_storage_map_witness(id, &slot_map, block(100), key1).is_ok());

    let second =
        update(id, &[], vec![map(&slot_map, &[(key1, num_to_word(3000))])], tokens(200));
    forest.update_account(block(51), &second).unwrap();
    assert_eq!(forest.prune(block(100)), 0);

    let vault_root_at_51 =
        forest.get_vault_root(id, block(51)).expect("Should have vault root at block 51");
    let storage_root_at_51 = forest
        .get_storage_map_root(id, &slot_map, block(51))
        .expect("Should have storage root at block 51");
    assert_ne!(vault_root_at_51, initial_vault_root);
    let witness = forest
        .get_storage_map_witness(id, &slot_map, block(51), key1)
        .expect("Should be able to get witness for key1");
    assert_eq!(
        root_of_proof(&witness),
        storage_root_at_51,
        "Witness must verify against storage root"
    );
    assert!(forest.get_vault_root(id, block(1)).is_some());
}

#[test]
fn proofs_of_earlier_blocks_lead_to_earlier_roots() {
    let mut forest = AccountStateForest::new();
    let id = account_id(ACCOUNT_ID_REGULAR_PUBLIC_ACCOUNT_IMMUTABLE_CODE);
    let name = slot(1);
    let keys = [num_to_word(100), num_to_word(200), num_to_word(300)];
    let first = [(keys[0], num_to_word(1)), (keys[1], num_to_word(2))];
    let second = [(keys[0], num_to_word(3)), (keys[2], num_to_word(4))];
    forest.update_account(block(1), &update(id, &[], vec![map(&name, &first)], no_tokens())).unwrap();
    let root = forest.get_storage_map_root(id, &name, block(1)).unwrap();
    forest.update_account(block(2), &update(id, &[], vec![map(&name, &second)], no_tokens())).unwrap();
    assert_ne!(forest.get_storage_map_root(id, &name, block(2)), Some(root));
    for key in keys {
        let witness = forest.get_storage_map_witness(id, &name, block(1), key).unwrap();
        assert_eq!(root_of_proof(&witness), root);
    }
}

#[test]
fn account_state_forest_preserves_most_recent_vault_only() {
    let mut forest = AccountStateForest::new();
    let id = account_id(ACCOUNT_ID_REGULAR_PUBLIC_ACCOUNT_IMMUTABLE_CODE);
    forest.update_account(block(1), &update(id, &[], vec![], tokens(500))).unwrap();
    let initial_vault_root = forest.get_vault_root(id, block(1)).unwrap();

    assert_eq!(
        forest.prune(block(100)),
        0,
        "Should NOT prune vault root (it's the most recent for this account)"
    );

    let vault_root_at_1 =
        forest.get_vault_root(id, block(1)).expect("Should still have vault root at block 1");
    assert_eq!(vault_root_at_1, initial_vault_root, "Vault root should be preserved");

    let mut keys = WordSet::new();
    keys.insert(fungible(500).key);
    let witnesses = forest
        .get_vault_asset_witnesses(id, block(1), &keys)
        .expect("Should be able to get vault witness after pruning");
    assert_eq!(witnesses.len(), 1, "Should have one witness");
    assert_eq!(
        root_of_proof(&witnesses[0]),
        vault_root_at_1,
        "Vault witness must verify against vault root"
    );
}

#[test]
fn account_state_forest_preserves_most_recent_storage_map_only() {
    let mut forest = AccountStateForest::new();
    let id = account_id(ACCOUNT_ID_REGULAR_PUBLIC_ACCOUNT_IMMUTABLE_CODE);
    let slot_map = slot(1);
    let key1 = num_to_word(100);
    let create =
        update(id, &[], vec![map(&slot_map, &[(key1, num_to_word(1000))])], no_tokens());
    forest.update_account(block(1), &create).unwrap();
    let initial_storage_root = forest.get_storage_map_root(id, &slot_map, block(1)).unwrap();

    assert_eq!(forest.prune(block(100)), 0, "No vault roots to prune");

    let storage_root_at_1 = forest
        .get_storage_map_root(id, &slot_map, block(1))
        .expect("Should still have storage root at block 1");
    assert_eq!(storage_root_at_1, initial_storage_root, "Storage root should be preserved");
    let witness = forest
        .get_storage_map_witness(id, &slot_map, block(1), key1)
        .expect("Should be able to get storage witness after pruning");
    assert_eq!(
        root_of_proof(&witness),
        storage_root_at_1,
        "Storage witness must verify against storage root"
    );
}

#[test]
fn account_state_forest_preserves_most_recent_storage_value_slot() {
    let mut forest = AccountStateForest::new();
    let id = account_id(ACCOUNT_ID_REGULAR_PUBLIC_ACCOUNT_IMMUTABLE_CODE);
    let slot_value = slot(1);
    let values = [(slot_value.clone(), num_to_word(5000))];
    forest.update_account(block(1), &update(id, &values, vec![], no_tokens())).unwrap();

    assert_eq!(forest.prune(block(100)), 0, "No vault roots in this test");
    assert!(
        forest.get_storage_map_root(id, &slot_value, block(1)).is_none(),
        "Value slots don't have storage map roots in AccountStateForest"
    );
}

#[test]
fn account_state_forest_preserves_mixed_slots_independently() {
    let mut forest = AccountStateForest::new();
    let id = account_id(ACCOUNT_ID_REGULAR_PUBLIC_ACCOUNT_IMMUTABLE_CODE);
    let (slot_map_a, slot_map_b, slot_value) = (slot(1), slot(2), slot(3));
    let key1 = num_to_word(100);
    let value1 = num_to_word(1000);

    let create = update(
        id,
        &[(slot_value, num_to_word(5000))],
        vec![map(&slot_map_a, &[(key1, value1)]), map(&slot_map_b, &[(key1, value1)])],
        tokens(100),
    );
    forest.update_account(block(1), &create).unwrap();
    let initial_vault_root = forest.get_vault_root(id, block(1)).unwrap();
    let initial_map_a_root = forest.get_storage_map_root(id, &slot_map_a, block(1)).unwrap();
    let initial_map_b_root = forest.get_storage_map_root(id, &slot_map_b, block(1)).unwrap();

    let change =
        update(id, &[], vec![map(&slot_map_a, &[(key1, num_to_word(2000))])], no_tokens());
    forest.update_account(block(51), &change).unwrap();

    assert_eq!(
        forest.prune(block(100)),
        0,
        "Vault root from block 1 should NOT be pruned (most recent)"
    );

    assert_eq!(
        forest.get_vault_root(id, block(1)),
        Some(initial_vault_root),
        "Vault should be from block 1"
    );
    let map_a_root_at_51 = forest
        .get_storage_map_root(id, &slot_map_a, block(51))
        .expect("Map A should be accessible");
    assert_ne!(
        map_a_root_at_51, initial_map_a_root,
        "Map A should be from block 51, not block 1"
    );
    assert_eq!(
        forest.get_storage_map_root(id, &slot_map_b, block(1)),
        Some(initial_map_b_root),
        "Map B should still be from block 1 (most recent)"
    );
    assert!(forest.get_storage_map_root(id, &slot_map_a, block(1)).is_some());
}
