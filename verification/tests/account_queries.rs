use miden_node_store::account_id::AccountId;
use miden_node_store::block_number::{BlockNumber, BlockRange};
use miden_node_store::db::accounts::{
    check_range_query, select_account_commitments_paged, select_account_storage_map_values_paged,
    select_account_vault_assets, select_all_network_account_ids, select_public_account_ids_paged,
    select_public_account_state_roots_paged, AccountSummary, AccountSummaryRaw,
    AccountVaultUpdateRaw, AccountVaultValue, NetworkAccountRow, StateRootsRow, StorageMapValue,
    StorageMapValueRow,
};
use miden_node_store::db::full_account::{
    select_account, select_latest_account_storage, select_network_account_by_id, AccountInfo,
};
use miden_node_store::db::history::{
    history_cutoff, insert_account_storage_map_value, insert_account_vault_asset, prune_history,
    CodeReferenceRow, HistoryTables, HISTORICAL_BLOCK_RETENTION,
};
use miden_node_store::db::network_accounts::{
    network_accounts_query, read_network_account_ids, NetworkAccountsQuery,
};
use miden_node_store::db::selected::read_full_account;
use miden_node_store::db::tables::{
    select_account_code_by_commitment, select_account_columns, upsert_accounts, AccountTables,
};
use miden_node_store::db::updates::{
    AccountUpdateDetails, BlockAccountUpdate, FullAccountState, StorageSlot, StorageSlotContent,
};
use miden_node_store::db::upsert::{
    AccountAssetRowInsert, AccountRowInsert, AccountStorageMapRowInsert,
};
use miden_node_store::errors::{DataCorruption, DatabaseError};
use miden_node_store::state::account::Asset;
use miden_node_store::word::Word;
use miden_protocol::account::auth::{AuthScheme, PublicKeyCommitment};
use miden_protocol::account::component::AccountComponentMetadata;
use miden_protocol::account::{
    Account, AccountBuilder, AccountComponent, AccountIdVersion, AccountStorageMode, AccountType,
    StorageMap, StorageMapKey, StorageSlotName,
};
use miden_protocol::asset::FungibleAsset;
use miden_protocol::testing::account_id::{
    ACCOUNT_ID_PRIVATE_SENDER, ACCOUNT_ID_PUBLIC_FUNGIBLE_FAUCET,
    ACCOUNT_ID_PUBLIC_FUNGIBLE_FAUCET_1, ACCOUNT_ID_PUBLIC_FUNGIBLE_FAUCET_2,
    ACCOUNT_ID_PUBLIC_FUNGIBLE_FAUCET_3, ACCOUNT_ID_REGULAR_PUBLIC_ACCOUNT_IMMUTABLE_CODE,
    ACCOUNT_ID_REGULAR_PUBLIC_ACCOUNT_IMMUTABLE_CODE_2,
};
use miden_protocol::utils::serde::Serializable;
use miden_protocol::{Felt, EMPTY_WORD};
use miden_standards::account::auth::AuthSingleSig;
use miden_standards::code_builder::CodeBuilder;

// CONVERSIONS
// ================================================================================================

const MAX_ROWS: usize = 1024;

fn word(word: miden_protocol::Word) -> Word {
    let [a, b, c, d] = word.into_elements().map(|element| element.as_canonical_u64());
    Word(a, b, c, d)
}

fn account_id(id: miden_protocol::account::AccountId) -> AccountId {
    AccountId { prefix: id.prefix().as_u64(), suffix: id.suffix().as_canonical_u64() }
}

fn raw_account_id(raw: u128) -> AccountId {
    account_id(miden_protocol::account::AccountId::try_from(raw).unwrap())
}

fn dummy_account_id(byte: u8, storage_mode: AccountStorageMode) -> AccountId {
    account_id(miden_protocol::account::AccountId::dummy(
        [byte; 15],
        AccountIdVersion::Version0,
        AccountType::RegularAccountImmutableCode,
        storage_mode,
    ))
}

fn id_bytes(id: AccountId) -> Vec<u8> {
    miden_protocol::account::AccountId::try_from_elements(
        Felt::new(id.suffix),
        Felt::new(id.prefix),
    )
    .unwrap()
    .to_bytes()
}

fn asset(asset: miden_protocol::asset::Asset) -> Asset {
    Asset { key: word(asset.to_key_word()), value: word(asset.to_value_word()) }
}

fn fungible(faucet: u128, amount: u64) -> Asset {
    let faucet = miden_protocol::account::AccountId::try_from(faucet).unwrap();
    asset(FungibleAsset::new(faucet, amount).unwrap().into())
}

fn num_to_word(n: u64) -> Word {
    Word(0, 0, 0, n)
}

fn num_to_protocol_word(n: u64) -> miden_protocol::Word {
    miden_protocol::Word::new([0, 0, 0, n].map(Felt::new))
}

fn map_key(index: u32) -> Word {
    word(StorageMapKey::from_index(index).into())
}

fn slot(index: usize) -> String {
    StorageSlotName::mock(index).as_str().to_string()
}

fn block(number: u32) -> BlockNumber {
    BlockNumber::from(number)
}

fn range(start: u32, end: u32) -> BlockRange {
    BlockRange::new(block(start), block(end))
}

fn mock_account_code_and_storage(
    account_type: AccountType,
    storage_mode: AccountStorageMode,
    assets: Vec<miden_protocol::asset::Asset>,
    init_seed: Option<[u8; 32]>,
) -> Account {
    let component_code = "\
    pub proc account_procedure_1
        push.1.2
        add
    end
    ";
    let component_storage = (0..6)
        .map(|i| {
            let value = if i % 2 == 0 { EMPTY_WORD } else { num_to_protocol_word(i as u64) };
            miden_protocol::account::StorageSlot::with_value(StorageSlotName::mock(i), value)
        })
        .collect();
    let code = CodeBuilder::default()
        .compile_component_code("counter_contract::interface", component_code)
        .unwrap();
    let component = AccountComponent::new(
        code,
        component_storage,
        AccountComponentMetadata::new("counter_contract", AccountType::all()),
    )
    .unwrap();
    AccountBuilder::new(init_seed.unwrap_or([0; 32]))
        .account_type(account_type)
        .storage_mode(storage_mode)
        .with_assets(assets)
        .with_component(component)
        .with_auth_component(AuthSingleSig::new(
            PublicKeyCommitment::from(EMPTY_WORD),
            AuthScheme::Falcon512Poseidon2,
        ))
        .build_existing()
        .unwrap()
}

fn build_account(
    code: &str,
    account_type: AccountType,
    seed: [u8; 32],
    slots: Vec<miden_protocol::account::StorageSlot>,
) -> Account {
    let code = CodeBuilder::default().compile_component_code("test::interface", code).unwrap();
    let component = AccountComponent::new(
        code,
        slots,
        AccountComponentMetadata::new("test", AccountType::all()),
    )
    .unwrap();
    AccountBuilder::new(seed)
        .account_type(account_type)
        .storage_mode(AccountStorageMode::Public)
        .with_component(component)
        .with_auth_component(AuthSingleSig::new(
            PublicKeyCommitment::from(EMPTY_WORD),
            AuthScheme::Falcon512Poseidon2,
        ))
        .build_existing()
        .unwrap()
}

fn storage_slots(account: &Account) -> Vec<StorageSlot> {
    account
        .storage()
        .slots()
        .iter()
        .map(|slot| {
            let content = match slot.content() {
                miden_protocol::account::StorageSlotContent::Value(value) => {
                    StorageSlotContent::SingleValue(word(*value))
                },
                miden_protocol::account::StorageSlotContent::Map(map) => {
                    StorageSlotContent::MapEntries(
                        map.entries()
                            .map(|(key, value)| (word((*key).into()), word(*value)))
                            .collect(),
                    )
                },
            };
            StorageSlot { name: slot.name().as_str().to_string(), content }
        })
        .collect()
}

fn full_update(account: &Account) -> BlockAccountUpdate {
    BlockAccountUpdate {
        account_id: account_id(account.id()),
        final_state_commitment: word(account.to_commitment()),
        details: AccountUpdateDetails::FullState(FullAccountState {
            nonce: account.nonce().as_canonical_u64(),
            code_commitment: word(account.code().commitment()),
            code: account.code().to_bytes(),
            slots: storage_slots(account),
            assets: account.vault().assets().map(asset).collect(),
        }),
    }
}

fn private_update(account_id: AccountId, num: u64) -> BlockAccountUpdate {
    BlockAccountUpdate {
        account_id,
        final_state_commitment: num_to_word(num),
        details: AccountUpdateDetails::Private,
    }
}

// TABLES
// ================================================================================================

/// The changes of an account's vault within a range, by block.
fn vault_rows(
    rows: &[AccountAssetRowInsert],
    account_id: AccountId,
    range: BlockRange,
) -> Vec<AccountVaultUpdateRaw> {
    let id = id_bytes(account_id);
    let blocks = i64::from(range.start.as_u32())..=i64::from(range.end.as_u32());
    let mut found: Vec<_> = rows
        .iter()
        .filter(|row| row.account_id == id && blocks.contains(&row.block_num))
        .map(|row| AccountVaultUpdateRaw {
            vault_key: row.vault_key.clone(),
            asset: row.asset.clone(),
            block_num: row.block_num,
        })
        .collect();
    found.sort_by_key(|row| row.block_num);
    found
}

/// The entries of an account's maps within a range, by block, up to one more than the limit.
fn map_rows(
    rows: &[AccountStorageMapRowInsert],
    account_id: AccountId,
    range: BlockRange,
    limit: usize,
) -> Vec<StorageMapValueRow> {
    let id = id_bytes(account_id);
    let blocks = i64::from(range.start.as_u32())..=i64::from(range.end.as_u32());
    let mut found: Vec<_> = rows
        .iter()
        .filter(|row| row.account_id == id && blocks.contains(&row.block_num))
        .map(|row| StorageMapValueRow {
            block_num: row.block_num,
            slot_name: row.slot_name.clone(),
            key: row.key.clone(),
            value: row.value.clone(),
        })
        .collect();
    found.sort_by_key(|row| row.block_num);
    found.truncate(limit + 1);
    found
}

fn select_vault(
    rows: &[AccountAssetRowInsert],
    account_id: AccountId,
    range: BlockRange,
) -> Result<(BlockNumber, Vec<AccountVaultValue>), DatabaseError> {
    select_account_vault_assets(account_id, range, vault_rows(rows, account_id, range), MAX_ROWS)
}

fn select_maps(
    rows: &[AccountStorageMapRowInsert],
    account_id: AccountId,
    range: BlockRange,
    limit: usize,
) -> (BlockNumber, Vec<StorageMapValue>) {
    let page = select_account_storage_map_values_paged(
        account_id,
        range,
        map_rows(rows, account_id, range, limit),
        limit,
    )
    .unwrap();
    (page.last_block_included, page.values)
}

/// A table of map entries that are inserted one by one.
struct Maps(Vec<AccountStorageMapRowInsert>);

impl Maps {
    fn insert(&mut self, id: AccountId, block_num: u32, slot: &str, key: Word, value: Word) {
        let rows = std::mem::take(&mut self.0);
        let slot = slot.to_string();
        self.0 = insert_account_storage_map_value(rows, id, block(block_num), slot, key, value).0;
    }
}

fn summary_raw(row: &AccountRowInsert) -> AccountSummaryRaw {
    AccountSummaryRaw {
        account_id: row.account_id.clone(),
        account_commitment: row.account_commitment.clone(),
        block_num: row.block_num,
    }
}

fn read_account(tables: &AccountTables, id: AccountId) -> Result<AccountInfo, DatabaseError> {
    let bytes = id_bytes(id);
    let row =
        tables.accounts.iter().find(|row| row.is_latest && row.account_id == bytes).map(summary_raw);
    select_account(id, row, read_full_account(tables, id))
}

// ACCOUNTS
// ================================================================================================

#[test]
fn sql_select_accounts() {
    let block_num = block(1);
    let mut tables = AccountTables::new();
    let mut state = vec![];
    for i in 0..10u8 {
        let id = dummy_account_id(i, AccountStorageMode::Private);
        let account_commitment = num_to_word(u64::from(i));
        state.push(AccountInfo {
            summary: AccountSummary { account_id: id, account_commitment, block_num },
            details: None,
        });

        let (after, count) =
            upsert_accounts(tables, &vec![private_update(id, u64::from(i))], block_num).unwrap();
        assert_eq!(count, 1, "One element must have been inserted");
        tables = after;

        let accounts: Vec<_> = state
            .iter()
            .map(|info| read_account(&tables, info.summary.account_id).unwrap())
            .collect();
        assert_eq!(accounts, state);
        assert_eq!(tables.accounts.len(), state.len());
    }
}

#[test]
fn db_roundtrip_account() {
    let block_num = block(1);
    let account = mock_account_code_and_storage(
        AccountType::RegularAccountImmutableCode,
        AccountStorageMode::Public,
        vec![],
        Some([99u8; 32]),
    );
    let (tables, _) =
        upsert_accounts(AccountTables::new(), &vec![full_update(&account)], block_num).unwrap();
    assert_eq!(tables.accounts.len(), 1, "Should have one account");

    let info = read_account(&tables, account_id(account.id())).unwrap();
    assert_eq!(
        info.summary.account_id,
        account_id(account.id()),
        "AccountId DB roundtrip must be symmetric"
    );
    assert_eq!(
        info.summary.account_commitment,
        word(account.to_commitment()),
        "Account commitment DB roundtrip must be symmetric"
    );
    assert_eq!(info.summary.block_num, block_num, "Block number must match");
}

#[test]
fn db_roundtrip_account_storage_with_maps() {
    let storage_map = StorageMap::with_entries(vec![
        (
            StorageMapKey::from_index(1u32),
            miden_protocol::Word::new([10, 20, 30, 40].map(Felt::new)),
        ),
        (
            StorageMapKey::from_index(2u32),
            miden_protocol::Word::new([50, 60, 70, 80].map(Felt::new)),
        ),
    ])
    .unwrap();
    let account = build_account(
        "pub proc foo push.1 end",
        AccountType::RegularAccountUpdatableCode,
        [50u8; 32],
        vec![
            miden_protocol::account::StorageSlot::with_value(
                StorageSlotName::mock(0),
                num_to_protocol_word(42),
            ),
            miden_protocol::account::StorageSlot::with_map(StorageSlotName::mock(1), storage_map),
            miden_protocol::account::StorageSlot::with_empty_value(StorageSlotName::mock(2)),
        ],
    );
    let id = account_id(account.id());
    let (tables, _) =
        upsert_accounts(AccountTables::new(), &vec![full_update(&account)], block(1)).unwrap();

    let columns = select_account_columns(&tables, id).unwrap();
    let retrieved =
        select_latest_account_storage(&columns.storage_header, &columns.map_entries).unwrap();
    let original = storage_slots(&account);
    assert_eq!(original.len(), retrieved.len(), "Number of slots must match");
    for (original_slot, retrieved_slot) in original.iter().zip(&retrieved) {
        assert_eq!(original_slot.name, retrieved_slot.name, "Slot names must match");
        match (&original_slot.content, &retrieved_slot.content) {
            (StorageSlotContent::SingleValue(orig), StorageSlotContent::SingleValue(retr)) => {
                assert_eq!(orig, retr, "Value slot contents must match");
            },
            (StorageSlotContent::MapEntries(orig), StorageSlotContent::MapEntries(retr)) => {
                let mut orig = orig.clone();
                let mut retr = retr.clone();
                orig.sort_by_key(|(key, _)| (key.0, key.1, key.2, key.3));
                retr.sort_by_key(|(key, _)| (key.0, key.1, key.2, key.3));
                assert_eq!(orig, retr, "Map entries must match");
            },
            _ => panic!("Slot types must match"),
        }
    }

    let info = read_account(&tables, id).unwrap();
    assert!(info.details.is_some(), "Public account should have details");
    let again =
        BlockAccountUpdate {
            account_id: id,
            final_state_commitment: word(account.to_commitment()),
            details: AccountUpdateDetails::FullState(info.details.unwrap()),
        };
    assert!(
        upsert_accounts(AccountTables::new(), &vec![again], block(1)).is_ok(),
        "Full account commitment must match after DB roundtrip"
    );
}

#[test]
fn test_select_account_code_by_commitment() {
    let account = mock_account_code_and_storage(
        AccountType::RegularAccountImmutableCode,
        AccountStorageMode::Public,
        vec![],
        None,
    );
    let (tables, _) =
        upsert_accounts(AccountTables::new(), &vec![full_update(&account)], block(1)).unwrap();

    let code =
        select_account_code_by_commitment(&tables.codes, word(account.code().commitment()))
            .expect("Code should exist");
    assert_eq!(code, account.code().to_bytes());

    let code_other = select_account_code_by_commitment(&tables.codes, Word(0, 0, 0, 0));
    assert!(code_other.is_none(), "Code should not exist for non-existent commitment");
}

#[test]
fn test_select_account_code_by_commitment_multiple_codes() {
    let slots = || {
        vec![
            miden_protocol::account::StorageSlot::with_value(
                StorageSlotName::mock(0),
                miden_protocol::Word::empty(),
            ),
            miden_protocol::account::StorageSlot::with_value(
                StorageSlotName::mock(1),
                num_to_protocol_word(1),
            ),
        ]
    };
    let account_v1 = build_account(
        "\
        pub proc account_procedure_1
            push.1.2
            add
        end
    ",
        AccountType::RegularAccountUpdatableCode,
        [1u8; 32],
        slots(),
    );
    let (tables, _) =
        upsert_accounts(AccountTables::new(), &vec![full_update(&account_v1)], block(1)).unwrap();
    let account_v2 = build_account(
        "\
        pub proc account_procedure_1
            push.3.4
            mul
        end
    ",
        AccountType::RegularAccountUpdatableCode,
        [1u8; 32],
        slots(),
    );
    let code_v1 = account_v1.code().to_bytes();
    let code_v2 = account_v2.code().to_bytes();
    assert_ne!(code_v1, code_v2, "codes should be different for different code strings");
    assert_ne!(account_v1.code().commitment(), account_v2.code().commitment());
    let (tables, _) = upsert_accounts(tables, &vec![full_update(&account_v2)], block(2)).unwrap();

    assert_eq!(
        select_account_code_by_commitment(&tables.codes, word(account_v1.code().commitment())),
        Some(code_v1),
        "v1 commitment should return v1 code"
    );
    assert_eq!(
        select_account_code_by_commitment(&tables.codes, word(account_v2.code().commitment())),
        Some(code_v2),
        "v2 commitment should return v2 code"
    );
}

#[test]
fn regression_1461_full_state_delta_inserts_vault_assets() {
    let block_num = block(1);
    let faucet_id =
        miden_protocol::account::AccountId::try_from(ACCOUNT_ID_PUBLIC_FUNGIBLE_FAUCET).unwrap();
    let fungible_asset = FungibleAsset::new(faucet_id, 5000).unwrap();
    let account = mock_account_code_and_storage(
        AccountType::RegularAccountImmutableCode,
        AccountStorageMode::Public,
        vec![fungible_asset.into()],
        Some([42u8; 32]),
    );
    let (tables, _) =
        upsert_accounts(AccountTables::new(), &vec![full_update(&account)], block_num).unwrap();

    let (_, vault_assets) =
        select_vault(&tables.assets, account_id(account.id()), range(0, 1)).unwrap();
    let vault_asset = vault_assets.first().unwrap();
    let expected_asset = asset(fungible_asset.into());
    assert_eq!(vault_asset.block_num, block_num);
    assert_eq!(vault_asset.asset, Some(expected_asset));
    assert_eq!(vault_asset.vault_key, expected_asset.key);
}

// VAULT CHANGES
// ================================================================================================

#[test]
fn sync_account_vault_basic_validation() {
    let public_account_id = raw_account_id(ACCOUNT_ID_PUBLIC_FUNGIBLE_FAUCET);
    let asset_1 = fungible(ACCOUNT_ID_PUBLIC_FUNGIBLE_FAUCET, 1000);
    let asset_2 = fungible(ACCOUNT_ID_PUBLIC_FUNGIBLE_FAUCET_1, 2000);
    let updated_1 = fungible(ACCOUNT_ID_PUBLIC_FUNGIBLE_FAUCET, 1500);

    let (rows, count) = insert_account_vault_asset(
        vec![],
        public_account_id,
        block(1),
        asset_1.key,
        Some(asset_1),
    );
    assert_eq!(count, 1);
    let (rows, count) =
        insert_account_vault_asset(rows, public_account_id, block(3), asset_2.key, Some(asset_2));
    assert_eq!(count, 1);
    let (rows, count) = insert_account_vault_asset(
        rows,
        public_account_id,
        block(5),
        asset_1.key,
        Some(updated_1),
    );
    assert_eq!(count, 2, "the earlier row is no longer the latest");

    let result = select_vault(&rows, public_account_id, range(10, 5));
    assert_eq!(
        result,
        Err(DatabaseError::InvalidBlockRange { from: block(10), to: block(5) }),
        "expected error for invalid block range"
    );

    let (last_block, values) = select_vault(&rows, public_account_id, range(1, 5)).unwrap();
    assert!(!values.is_empty(), "vault assets should have data");
    assert!(last_block >= block(1), "response block num should be higher than request");
    let found = values.iter().find(|v| v.vault_key == asset_1.key && v.block_num == block(5));
    assert_eq!(found.expect("should find updated vault asset").asset, Some(updated_1));
}

#[test]
fn db_roundtrip_vault_assets() {
    let id = raw_account_id(ACCOUNT_ID_REGULAR_PUBLIC_ACCOUNT_IMMUTABLE_CODE);
    let asset = fungible(ACCOUNT_ID_PUBLIC_FUNGIBLE_FAUCET, 5000);
    let (rows, _) = insert_account_vault_asset(vec![], id, block(1), asset.key, Some(asset));

    let (_, vault_assets) = select_vault(&rows, id, range(0, 1)).unwrap();
    assert_eq!(vault_assets.len(), 1, "Should have one vault asset");
    assert_eq!(
        vault_assets[0],
        AccountVaultValue { block_num: block(1), vault_key: asset.key, asset: Some(asset) }
    );
}

#[test]
fn vault_pages_end_with_a_complete_block() {
    let id = raw_account_id(ACCOUNT_ID_REGULAR_PUBLIC_ACCOUNT_IMMUTABLE_CODE);
    let mut rows = vec![];
    for (number, faucet) in [
        (1, ACCOUNT_ID_PUBLIC_FUNGIBLE_FAUCET),
        (2, ACCOUNT_ID_PUBLIC_FUNGIBLE_FAUCET_1),
        (2, ACCOUNT_ID_PUBLIC_FUNGIBLE_FAUCET_2),
    ] {
        let asset = fungible(faucet, 10);
        rows = insert_account_vault_asset(rows, id, block(number), asset.key, Some(asset)).0;
    }
    let raw = vault_rows(&rows, id, range(0, 7));
    let (last, values) =
        select_account_vault_assets(id, range(0, 7), raw.clone(), 2).unwrap();
    assert_eq!((last, values.len()), (block(1), 1));
    let (last, values) = select_account_vault_assets(id, range(0, 7), raw, 3).unwrap();
    assert_eq!((last, values.len()), (block(7), 3));
}

// STORAGE MAP ENTRIES
// ================================================================================================

#[test]
fn sql_account_storage_map_values_insertion() {
    let id = raw_account_id(ACCOUNT_ID_REGULAR_PUBLIC_ACCOUNT_IMMUTABLE_CODE_2);
    let slot_name = slot(3);
    let key1 = Word(1, 2, 3, 4);
    let key2 = Word(5, 6, 7, 8);
    let value1 = Word(10, 11, 12, 13);
    let value2 = Word(20, 21, 22, 23);
    let value3 = Word(30, 31, 32, 33);

    let mut maps = Maps(vec![]);
    maps.insert(id, 1, &slot_name, key1, value1);
    maps.insert(id, 1, &slot_name, key2, value2);
    let (_, values) = select_maps(&maps.0, id, range(0, 1), MAX_ROWS);
    assert_eq!(values.len(), 2, "expect 2 initial rows");

    maps.insert(id, 2, &slot_name, key1, value3);
    let (_, values) = select_maps(&maps.0, id, range(0, 2), MAX_ROWS);
    assert_eq!(values.len(), 3, "three rows (with duplicate key)");
    assert!(
        values
            .iter()
            .any(|val| val.slot_name == slot_name && val.key == key1 && val.value == value3),
        "key1 should point to new value at block2"
    );
    assert!(
        values
            .iter()
            .any(|val| val.slot_name == slot_name && val.key == key2 && val.value == value2),
        "key2 should stay the same (from block1)"
    );
}

#[test]
fn select_storage_map_sync_values() {
    let id = raw_account_id(ACCOUNT_ID_REGULAR_PUBLIC_ACCOUNT_IMMUTABLE_CODE);
    let slot_name = slot(5);
    let (key1, key2, key3) = (map_key(1), map_key(2), map_key(3));
    let (value1, value2, value3) = (num_to_word(10), num_to_word(20), num_to_word(30));

    let mut maps = Maps(vec![]);
    maps.insert(id, 1, &slot_name, key1, value1);
    maps.insert(id, 1, &slot_name, key2, value2);
    maps.insert(id, 2, &slot_name, key2, value3);
    maps.insert(id, 2, &slot_name, key3, value3);
    maps.insert(id, 3, &slot_name, key1, value2);

    let (_, values) = select_maps(&maps.0, id, range(2, 3), MAX_ROWS);
    assert_eq!(values.len(), 3, "should return latest values");
    let value = |block_num, key, value| StorageMapValue {
        block_num: block(block_num),
        slot_name: slot_name.clone(),
        key,
        value,
    };
    assert_eq!(
        values,
        vec![value(2, key2, value3), value(2, key3, value3), value(3, key1, value2)],
        "should return latest values ordered by key"
    );
}

#[test]
fn select_storage_map_sync_values_for_network_account() {
    let account = mock_account_code_and_storage(
        AccountType::RegularAccountUpdatableCode,
        AccountStorageMode::Network,
        vec![],
        Some([42u8; 32]),
    );
    let id = account_id(account.id());
    let mut maps = Maps(vec![]);
    maps.insert(id, 1, &slot(7), map_key(1), num_to_word(10));
    let (_, values) = select_maps(&maps.0, id, range(0, 1), MAX_ROWS);
    assert_eq!(
        values,
        vec![StorageMapValue {
            block_num: block(1),
            slot_name: slot(7),
            key: map_key(1),
            value: num_to_word(10)
        }],
        "network accounts with public state should be accepted",
    );
}

#[test]
fn select_storage_map_sync_values_paginates_until_last_block() {
    let id = raw_account_id(ACCOUNT_ID_REGULAR_PUBLIC_ACCOUNT_IMMUTABLE_CODE);
    let mut maps = Maps(vec![]);
    maps.insert(id, 1, &slot(7), map_key(1), num_to_word(11));
    maps.insert(id, 2, &slot(7), map_key(2), num_to_word(22));
    maps.insert(id, 3, &slot(7), map_key(3), num_to_word(33));

    let (last_block_included, values) = select_maps(&maps.0, id, range(0, 3), 1);
    assert_eq!(last_block_included, block(1), "should truncate at block 1");
    assert_eq!(values.len(), 1, "should include block 1 only");
}

#[test]
fn select_storage_map_sync_values_all_entries_in_genesis_block() {
    let id = raw_account_id(ACCOUNT_ID_REGULAR_PUBLIC_ACCOUNT_IMMUTABLE_CODE);
    let mut maps = Maps(vec![]);
    for i in 0..3 {
        maps.insert(id, 0, &slot(8), map_key(i), num_to_word(u64::from(i) + 100));
    }
    let (last_block_included, values) = select_maps(&maps.0, id, range(0, 0), 1);
    assert!(
        values.is_empty() || last_block_included == BlockNumber::genesis(),
        "should indicate pagination did not make progress"
    );
}

#[test]
fn select_storage_map_sync_values_all_entries_in_single_non_genesis_block() {
    let id = raw_account_id(ACCOUNT_ID_REGULAR_PUBLIC_ACCOUNT_IMMUTABLE_CODE);
    let mut maps = Maps(vec![]);
    for i in 0..3 {
        maps.insert(id, 5, &slot(10), map_key(i), num_to_word(u64::from(i) + 200));
    }
    let (last_block_included, values) = select_maps(&maps.0, id, range(5, 5), 1);
    assert!(values.is_empty(), "should have no values when single block exceeds limit");
    assert_eq!(last_block_included, block(5), "should signal no progress at block 5");
}

#[test]
fn select_storage_map_sync_values_multi_block_pagination() {
    let id = raw_account_id(ACCOUNT_ID_REGULAR_PUBLIC_ACCOUNT_IMMUTABLE_CODE);
    let mut maps = Maps(vec![]);
    maps.insert(id, 1, &slot(11), map_key(1), num_to_word(11));
    maps.insert(id, 2, &slot(11), map_key(2), num_to_word(22));
    maps.insert(id, 3, &slot(11), map_key(3), num_to_word(33));

    let (last_block_included, values) = select_maps(&maps.0, id, range(0, 3), 2);
    assert_eq!(values.len(), 2, "should include entries from blocks 1 and 2");
    assert_eq!(last_block_included, block(2), "last included block should be 2");
}

#[test]
fn an_empty_page_of_map_entries_reports_the_first_block() {
    let id = raw_account_id(ACCOUNT_ID_REGULAR_PUBLIC_ACCOUNT_IMMUTABLE_CODE);
    assert_eq!(select_maps(&[], id, range(2, 5), 10), (block(2), vec![]));
}

#[test]
fn pages_of_map_entries_continue_each_other() {
    let id = raw_account_id(ACCOUNT_ID_REGULAR_PUBLIC_ACCOUNT_IMMUTABLE_CODE);
    let mut maps = Maps(vec![]);
    for i in 1..=6u32 {
        maps.insert(id, i.div_ceil(2), &slot(11), map_key(i), num_to_word(u64::from(i)));
    }
    let (_, all) = select_maps(&maps.0, id, range(1, 3), MAX_ROWS);
    assert_eq!(all.len(), 6);
    let (last, mut joined) = select_maps(&maps.0, id, range(1, 3), 3);
    assert_eq!((last, joined.len()), (block(1), 2));
    let (last, next) = select_maps(&maps.0, id, range(2, 3), 4);
    assert_eq!(last, block(3));
    joined.extend(next);
    assert_eq!(joined, all);
}

#[test]
fn db_roundtrip_storage_map_values() {
    let id = raw_account_id(ACCOUNT_ID_REGULAR_PUBLIC_ACCOUNT_IMMUTABLE_CODE);
    let mut maps = Maps(vec![]);
    maps.insert(id, 1, &slot(5), map_key(12345), num_to_word(67890));

    let (_, values) = select_maps(&maps.0, id, range(0, 1), MAX_ROWS);
    assert_eq!(values.len(), 1, "Should have one storage map value");
    assert_eq!(values[0].slot_name, slot(5), "StorageSlotName DB roundtrip must be symmetric");
    assert_eq!(values[0].key, map_key(12345), "Key (Word) DB roundtrip must be symmetric");
    assert_eq!(values[0].value, num_to_word(67890), "Value (Word) DB roundtrip must be symmetric");
    assert_eq!(values[0].block_num, block(1), "Block number must match");
}

#[test]
fn range_queries_need_public_state_and_a_range() {
    let public = raw_account_id(ACCOUNT_ID_REGULAR_PUBLIC_ACCOUNT_IMMUTABLE_CODE);
    let private = raw_account_id(ACCOUNT_ID_PRIVATE_SENDER);
    assert_eq!(check_range_query(public, range(1, 1)), Ok(()));
    assert_eq!(
        check_range_query(public, range(2, 1)),
        Err(DatabaseError::InvalidBlockRange { from: block(2), to: block(1) })
    );
    assert_eq!(
        check_range_query(private, range(2, 1)),
        Err(DatabaseError::AccountNotPublic(private))
    );
}

#[test]
fn rows_that_are_no_entries_are_reported() {
    let row = |block_num, slot_name: &str, key: Vec<u8>| StorageMapValueRow {
        block_num,
        slot_name: slot_name.to_string(),
        key,
        value: num_to_protocol_word(1).to_bytes(),
    };
    let key = num_to_protocol_word(2).to_bytes();
    assert_eq!(
        StorageMapValue::from_raw_row(&row(7, &slot(1), key.clone())),
        Ok(StorageMapValue {
            block_num: block(7),
            slot_name: slot(1),
            key: num_to_word(2),
            value: num_to_word(1)
        })
    );
    assert_eq!(
        StorageMapValue::from_raw_row(&row(-1, &slot(1), key.clone())),
        Err(DatabaseError::ConversionSqlToRust(-1))
    );
    assert_eq!(
        StorageMapValue::from_raw_row(&row(7, "no slot", key)),
        Err(DatabaseError::DataCorrupted(DataCorruption::InvalidSlotName("no slot".to_string())))
    );
    assert_eq!(
        StorageMapValue::from_raw_row(&row(7, &slot(1), vec![1; 31])),
        Err(DatabaseError::DeserializationError)
    );
    let no_key = AccountVaultUpdateRaw {
        vault_key: num_to_protocol_word(2).to_bytes(),
        asset: None,
        block_num: 1,
    };
    assert_eq!(no_key.decode(), Err(DatabaseError::AssetError));
}

// PRUNING
// ================================================================================================

#[test]
fn test_prune_history() {
    let id = raw_account_id(ACCOUNT_ID_PUBLIC_FUNGIBLE_FAUCET);
    let (block_old, block_cutoff, block_update) = (1, 2, 3);
    let block_tip = HISTORICAL_BLOCK_RETENTION + block_cutoff;
    assert_eq!(history_cutoff(block(block_tip)), i64::from(block_cutoff));

    let asset_1 = fungible(ACCOUNT_ID_PUBLIC_FUNGIBLE_FAUCET, 1000);
    let asset_2 = fungible(ACCOUNT_ID_PUBLIC_FUNGIBLE_FAUCET_1, 2000);
    let asset_3 = fungible(ACCOUNT_ID_PUBLIC_FUNGIBLE_FAUCET_2, 3000);
    let updated_asset = fungible(ACCOUNT_ID_PUBLIC_FUNGIBLE_FAUCET, 1500);
    let mut vault_assets = vec![];
    for (number, asset) in [
        (block_old, asset_1),
        (block_cutoff, asset_2),
        (block_tip, asset_3),
        (block_update, updated_asset),
    ] {
        vault_assets =
            insert_account_vault_asset(vault_assets, id, block(number), asset.key, Some(asset)).0;
    }
    let mut maps = Maps(vec![]);
    maps.insert(id, block_old, &slot(5), map_key(10), num_to_word(111));
    maps.insert(id, block_cutoff, &slot(5), map_key(20), num_to_word(222));
    maps.insert(id, block_tip, &slot(5), map_key(30), num_to_word(333));
    maps.insert(id, block_update, &slot(5), map_key(10), num_to_word(444));

    let all = range(0, block_tip);
    assert_eq!(
        select_vault(&vault_assets, id, all).unwrap().1.len(),
        4,
        "should have 4 vault assets before cleanup"
    );
    assert_eq!(
        select_maps(&maps.0, id, all, MAX_ROWS).1.len(),
        4,
        "should have 4 storage map values before cleanup"
    );

    let tables = HistoryTables {
        vault_assets,
        storage_map_values: maps.0,
        code_commitments: vec![],
        accounts: vec![],
    };
    let (mut tables, (vault_deleted, storage_deleted, _)) =
        prune_history(tables, block(block_tip));
    assert_eq!(vault_deleted, 1, "should delete 1 old vault asset");
    assert_eq!(storage_deleted, 1, "should delete 1 old storage map value");

    let remaining: Vec<u32> = select_vault(&tables.vault_assets, id, all)
        .unwrap()
        .1
        .iter()
        .map(|value| value.block_num.as_u32())
        .collect();
    assert_eq!(remaining, vec![block_cutoff, block_update, block_tip]);
    let remaining: Vec<u32> = select_maps(&tables.storage_map_values, id, all, MAX_ROWS)
        .1
        .iter()
        .map(|value| value.block_num.as_u32())
        .collect();
    assert_eq!(remaining, vec![block_cutoff, block_update, block_tip]);

    let asset_old = fungible(ACCOUNT_ID_PUBLIC_FUNGIBLE_FAUCET_3, 9999);
    tables.vault_assets = insert_account_vault_asset(
        tables.vault_assets,
        id,
        block(0),
        asset_old.key,
        Some(asset_old),
    )
    .0;
    let (tables, (vault_deleted, ..)) = prune_history(tables, block(block_tip));
    assert_eq!(vault_deleted, 0, "should not delete any is_latest=true entries");
    assert!(
        select_vault(&tables.vault_assets, id, all)
            .unwrap()
            .1
            .iter()
            .any(|value| value.block_num == block(0) && value.vault_key == asset_old.key),
        "is_latest=true entry should be retained even if old"
    );
}

#[test]
fn codes_are_kept_while_a_row_refers_to_them() {
    let reference = |code: u8, block_num, is_latest| CodeReferenceRow {
        code_commitment: Some(vec![code]),
        block_num,
        is_latest,
    };
    let tables = HistoryTables {
        vault_assets: vec![],
        storage_map_values: vec![],
        code_commitments: vec![vec![1], vec![2], vec![3], vec![4]],
        accounts: vec![
            reference(1, 3, false),
            reference(2, 3, true),
            reference(3, 10, false),
            CodeReferenceRow { code_commitment: None, block_num: 60, is_latest: true },
        ],
    };
    let (tables, deleted) = prune_history(tables, block(60));
    assert_eq!(tables.code_commitments, vec![vec![2], vec![3]]);
    assert_eq!(deleted, (0, 0, 2));
    assert_eq!(history_cutoff(block(49)), 0);
}

// PAGES OF ACCOUNTS
// ================================================================================================

#[test]
fn pages_end_with_a_cursor_if_more_follow() {
    let ids: Vec<_> =
        (1..4).map(|byte| dummy_account_id(byte, AccountStorageMode::Public)).collect();
    let rows = |count: usize| ids.iter().take(count).map(|id| id_bytes(*id)).collect::<Vec<_>>();
    let page = select_public_account_ids_paged(rows(3), 2).unwrap();
    assert_eq!(page.account_ids, ids[..2]);
    assert_eq!(page.next_cursor, Some(ids[1]));
    let page = select_public_account_ids_paged(rows(2), 2).unwrap();
    assert_eq!(page.account_ids, ids[..2]);
    assert_eq!(page.next_cursor, None);

    let commitments = |count: usize| {
        ids.iter()
            .take(count)
            .map(|id| (id_bytes(*id), num_to_protocol_word(5).to_bytes()))
            .collect::<Vec<_>>()
    };
    let page = select_account_commitments_paged(commitments(3), 2).unwrap();
    assert_eq!(page.commitments, vec![(ids[0], num_to_word(5)), (ids[1], num_to_word(5))]);
    assert_eq!(page.next_cursor, Some(ids[1]));
    assert_eq!(
        select_account_commitments_paged(vec![(vec![0; 15], vec![])], 2),
        Err(DatabaseError::DeserializationError)
    );
}

#[test]
fn state_roots_of_public_accounts_are_complete() {
    let account = mock_account_code_and_storage(
        AccountType::RegularAccountImmutableCode,
        AccountStorageMode::Public,
        vec![],
        Some([7u8; 32]),
    );
    let id = account_id(account.id());
    let row = StateRootsRow {
        account_id: account.id().to_bytes(),
        vault_root: Some(account.vault().root().to_bytes()),
        storage_header: Some(account.storage().to_header().to_bytes()),
    };
    let page = select_public_account_state_roots_paged(vec![row.clone()], 10).unwrap();
    assert_eq!(page.accounts.len(), 1);
    assert_eq!(page.accounts[0].account_id, id);
    assert_eq!(page.accounts[0].vault_root, word(account.vault().root()));
    assert_eq!(page.accounts[0].storage_header.slots.len(), account.storage().slots().len());
    assert_eq!(page.next_cursor, None);

    let no_root = StateRootsRow { vault_root: None, ..row.clone() };
    assert_eq!(
        select_public_account_state_roots_paged(vec![no_root], 10),
        Err(DatabaseError::DataCorrupted(DataCorruption::MissingVaultRoot(id)))
    );
    let no_header = StateRootsRow { storage_header: None, ..row };
    assert_eq!(
        select_public_account_state_roots_paged(vec![no_header], 10),
        Err(DatabaseError::DataCorrupted(DataCorruption::MissingStorageHeader(id)))
    );
}

#[test]
fn pages_of_state_roots_hold_each_account_once() {
    let account = mock_account_code_and_storage(
        AccountType::RegularAccountImmutableCode,
        AccountStorageMode::Public,
        vec![],
        Some([7u8; 32]),
    );
    let ids: Vec<_> =
        (1..6).map(|byte| dummy_account_id(byte, AccountStorageMode::Public)).collect();
    let mut table: Vec<_> = ids
        .iter()
        .map(|id| StateRootsRow {
            account_id: id_bytes(*id),
            vault_root: Some(account.vault().root().to_bytes()),
            storage_header: Some(account.storage().to_header().to_bytes()),
        })
        .collect();
    table.sort_by(|a, b| a.account_id.cmp(&b.account_id));
    for page_size in 1..7 {
        let (mut cursor, mut joined) = (None, vec![]);
        loop {
            let after = cursor.map(id_bytes);
            let rest: Vec<_> = table
                .iter()
                .filter(|row| after.as_ref().is_none_or(|after| row.account_id > *after))
                .cloned()
                .collect();
            let rows = rest.iter().take(page_size + 1).cloned().collect();
            let page = select_public_account_state_roots_paged(rows, page_size).unwrap();
            assert!(page.accounts.len() <= page_size);
            assert_eq!(page.next_cursor.is_some(), page.accounts.len() < rest.len());
            joined.extend(page.accounts.iter().map(|roots| id_bytes(roots.account_id)));
            cursor = page.next_cursor;
            if cursor.is_none() {
                break;
            }
        }
        let all: Vec<_> = table.iter().map(|row| row.account_id.clone()).collect();
        assert_eq!(joined, all);
    }
}

#[test]
fn network_accounts_are_listed_by_creation() {
    let ids: Vec<_> =
        (1..4).map(|byte| dummy_account_id(byte, AccountStorageMode::Network)).collect();
    let rows: Vec<_> = ids
        .iter()
        .zip([1, 4, 4])
        .map(|(id, created_at_block)| NetworkAccountRow {
            account_id: id_bytes(*id),
            created_at_block,
        })
        .collect();
    assert_eq!(
        select_all_network_account_ids(range(0, 9), rows.clone(), 3),
        Ok((ids.clone(), block(9)))
    );
    assert_eq!(
        select_all_network_account_ids(range(0, 9), rows.clone(), 2),
        Ok((vec![ids[0]], block(3)))
    );
    assert_eq!(
        select_all_network_account_ids(range(2, 1), rows, 2),
        Err(DatabaseError::InvalidBlockRange { from: block(2), to: block(1) })
    );
}

#[test]
fn network_accounts_are_read_without_a_state_that_cannot_be() {
    let account = mock_account_code_and_storage(
        AccountType::RegularAccountImmutableCode,
        AccountStorageMode::Network,
        vec![],
        Some([9u8; 32]),
    );
    let (tables, _) =
        upsert_accounts(AccountTables::new(), &vec![full_update(&account)], block(4)).unwrap();
    let id = account_id(account.id());
    let row = summary_raw(&tables.accounts[0]);
    let summary = AccountSummary {
        account_id: id,
        account_commitment: word(account.to_commitment()),
        block_num: block(4),
    };
    assert_eq!(tables.accounts[0].network_account_type, 1);
    let state = read_full_account(&tables, id).unwrap();
    assert_eq!(
        select_network_account_by_id(Some(row.clone()), Ok(state.clone())),
        Ok(Some(AccountInfo { summary, details: Some(state) }))
    );
    assert_eq!(
        select_network_account_by_id(Some(row.clone()), Err(DatabaseError::AccountError)),
        Ok(Some(AccountInfo { summary, details: None }))
    );
    assert_eq!(select_network_account_by_id(None, Err(DatabaseError::AccountError)), Ok(None));
    assert_eq!(
        select_account(id, Some(row), Err(DatabaseError::AccountError)),
        Err(DatabaseError::AccountError)
    );
    assert_eq!(
        select_account(id, None, Err(DatabaseError::AccountError)),
        Err(DatabaseError::AccountNotFoundInDb(id))
    );
}

// UPDATES OF A BLOCK
// ================================================================================================

#[test]
fn updates_are_applied_one_after_another() {
    let id = dummy_account_id(1, AccountStorageMode::Private);
    let other = dummy_account_id(2, AccountStorageMode::Private);
    let (tables, count) = upsert_accounts(
        AccountTables::new(),
        &vec![private_update(id, 1), private_update(other, 2)],
        block(1),
    )
    .unwrap();
    assert_eq!(count, 2);
    let (tables, _) = upsert_accounts(tables, &vec![private_update(id, 3)], block(2)).unwrap();
    assert_eq!(tables.accounts.len(), 3);
    let info = read_account(&tables, id).unwrap();
    assert_eq!(info.summary.account_commitment, num_to_word(3));
    assert_eq!(info.summary.block_num, block(2));
    let rows: Vec<_> =
        tables.accounts.iter().filter(|row| row.account_id == id_bytes(id)).collect();
    assert_eq!(rows.iter().filter(|row| row.is_latest).count(), 1);
    assert!(rows.iter().all(|row| row.created_at_block == 1));
    assert_eq!(read_account(&tables, other).unwrap().summary.account_commitment, num_to_word(2));

    let (tables, _) = upsert_accounts(tables, &vec![private_update(id, 4)], block(2)).unwrap();
    assert_eq!(tables.accounts.len(), 3, "a row of the same block is replaced");
    assert_eq!(read_account(&tables, id).unwrap().summary.account_commitment, num_to_word(4));
}

#[test]
fn the_last_update_of_an_account_in_a_block_counts() {
    let id = dummy_account_id(1, AccountStorageMode::Private);
    let other = dummy_account_id(2, AccountStorageMode::Private);
    let third = dummy_account_id(3, AccountStorageMode::Private);
    let (before, _) =
        upsert_accounts(AccountTables::new(), &vec![private_update(third, 9)], block(1)).unwrap();
    let updates = vec![private_update(id, 1), private_update(other, 2), private_update(id, 3)];
    let (after, count) = upsert_accounts(before.clone(), &updates, block(2)).unwrap();
    assert_eq!(count, 3);
    assert_eq!(after.accounts.len(), 3);
    let commitment = |id| read_account(&after, id).unwrap().summary.account_commitment;
    assert_eq!(commitment(id), num_to_word(3));
    assert_eq!(commitment(other), num_to_word(2));
    assert_eq!(read_account(&after, third), read_account(&before, third));
    assert_eq!(after.accounts[0], before.accounts[0]);
}

#[test]
fn accounts_without_public_state_are_not_read_in_full() {
    let id = dummy_account_id(1, AccountStorageMode::Private);
    let not_found = Err(DatabaseError::AccountNotFoundInDb(id));
    assert_eq!(read_full_account(&AccountTables::new(), id), not_found);
    let (tables, _) =
        upsert_accounts(AccountTables::new(), &vec![private_update(id, 1)], block(1)).unwrap();
    assert_eq!(read_full_account(&tables, id), not_found);
}

#[test]
fn network_accounts_are_selected_by_the_block_of_their_creation() {
    let id = dummy_account_id(7, AccountStorageMode::Network);
    let later = dummy_account_id(8, AccountStorageMode::Network);
    let public = dummy_account_id(9, AccountStorageMode::Public);
    let tables = AccountTables::new();
    let (tables, _) = upsert_accounts(
        tables,
        &vec![private_update(id, 1), private_update(public, 5)],
        block(1),
    )
    .unwrap();
    let (tables, _) = upsert_accounts(tables, &vec![private_update(later, 3)], block(4)).unwrap();
    let (tables, _) = upsert_accounts(tables, &vec![private_update(id, 2)], block(9)).unwrap();

    let read = |start, end, max| read_network_account_ids(&tables, range(start, end), max);
    assert_eq!(read(1, 3, 10), Ok((vec![id], block(3))));
    assert_eq!(read(1, 5, 10), Ok((vec![id, later], block(5))));
    assert_eq!(read(2, 9, 10), Ok((vec![later], block(9))));
    assert_eq!(read(5, 9, 10), Ok((vec![], block(9))));
    assert_eq!(read(1, 5, 1), Ok((vec![id], block(3))));
    assert_eq!(
        read(5, 4, 10),
        Err(DatabaseError::InvalidBlockRange { from: block(5), to: block(4) })
    );
    assert_eq!(
        network_accounts_query(range(1, 5), 10),
        NetworkAccountsQuery {
            network_account_type: 1,
            created_from: 1,
            created_to: 5,
            limit: 11
        }
    );
}
