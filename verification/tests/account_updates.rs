use std::collections::BTreeMap;

use miden_node_store::account_id::AccountId;
use miden_node_store::block_number::BlockNumber;
use miden_node_store::db::delta::{
    balance_query_keys, select_minimal_account_state_headers, vault_root_after_delta,
    AccountStateDeltaRow, MapDelta, StorageDelta, VaultDelta,
};
use miden_node_store::db::full_account::{select_full_account, FullAccountRow};
use miden_node_store::db::selected::read_full_account;
use miden_node_store::db::tables::{upsert_accounts, AccountTables};
use miden_node_store::db::update_checks::{
    check_account_update, check_asset, check_distinct_assets, check_map_entries,
};
use miden_node_store::db::updates::{
    update_details, AccountDelta, AccountUpdateDetails, BlockAccountUpdate, FullAccountState,
    StorageSlot, StorageSlotContent,
};
use miden_node_store::db::upsert::AccountRowInsert;
use miden_node_store::errors::{DataCorruption, DatabaseError};
use miden_node_store::state::account::Asset;
use miden_node_store::word::Word;
use miden_protocol::account::auth::{AuthScheme, PublicKeyCommitment};
use miden_protocol::account::component::AccountComponentMetadata;
use miden_protocol::account::delta::{
    AccountStorageDelta, AccountVaultDelta, StorageMapDelta, StorageSlotDelta,
};
use miden_protocol::account::{
    Account, AccountBuilder, AccountComponent, AccountIdVersion, AccountStorageMode, AccountType,
    StorageMap, StorageMapKey, StorageSlotName,
};
use miden_protocol::asset::FungibleAsset;
use miden_protocol::testing::account_id::{
    ACCOUNT_ID_PUBLIC_FUNGIBLE_FAUCET, ACCOUNT_ID_PUBLIC_FUNGIBLE_FAUCET_1,
    ACCOUNT_ID_PUBLIC_NON_FUNGIBLE_FAUCET,
};
use miden_protocol::utils::serde::Serializable;
use miden_protocol::{Felt, EMPTY_WORD};
use miden_standards::account::auth::AuthSingleSig;
use miden_standards::code_builder::CodeBuilder;

// CONVERSIONS
// ================================================================================================

fn word(word: miden_protocol::Word) -> Word {
    let [a, b, c, d] = word.into_elements().map(|element| element.as_canonical_u64());
    Word(a, b, c, d)
}

fn protocol_word(elements: [u64; 4]) -> miden_protocol::Word {
    miden_protocol::Word::new(elements.map(Felt::new))
}

fn account_id(id: miden_protocol::account::AccountId) -> AccountId {
    AccountId { prefix: id.prefix().as_u64(), suffix: id.suffix().as_canonical_u64() }
}

fn asset(asset: miden_protocol::asset::Asset) -> Asset {
    Asset { key: word(asset.to_key_word()), value: word(asset.to_value_word()) }
}

fn fungible(faucet: u128, amount: u64) -> miden_protocol::asset::Asset {
    let faucet = miden_protocol::account::AccountId::try_from(faucet).unwrap();
    FungibleAsset::new(faucet, amount).unwrap().into()
}

fn full_state(account: &Account) -> FullAccountState {
    let slots = account
        .storage()
        .slots()
        .iter()
        .map(|slot| {
            let content = match slot.content() {
                miden_protocol::account::StorageSlotContent::Value(value) => {
                    StorageSlotContent::SingleValue(word(*value))
                },
                miden_protocol::account::StorageSlotContent::Map(map) => {
                    StorageSlotContent::MapEntries(
                        map.entries().map(|(key, value)| (word((*key).into()), word(*value))).collect(),
                    )
                },
            };
            StorageSlot { name: slot.name().as_str().to_string(), content }
        })
        .collect();
    FullAccountState {
        nonce: account.nonce().as_canonical_u64(),
        code_commitment: word(account.code().commitment()),
        code: account.code().to_bytes(),
        slots,
        assets: account.vault().assets().map(asset).collect(),
    }
}

fn full_update(account: &Account) -> BlockAccountUpdate {
    BlockAccountUpdate {
        account_id: account_id(account.id()),
        final_state_commitment: word(account.to_commitment()),
        details: AccountUpdateDetails::FullState(full_state(account)),
    }
}

fn partial_update(account: &Account, delta: AccountDelta) -> BlockAccountUpdate {
    BlockAccountUpdate {
        account_id: account_id(account.id()),
        final_state_commitment: word(account.to_commitment()),
        details: AccountUpdateDetails::Delta(delta),
    }
}

fn build_account(
    seed: [u8; 32],
    source: &str,
    slots: Vec<miden_protocol::account::StorageSlot>,
    assets: Vec<miden_protocol::asset::Asset>,
) -> Account {
    let code = CodeBuilder::default().compile_component_code("test::interface", source).unwrap();
    let component = AccountComponent::new(
        code,
        slots,
        AccountComponentMetadata::new("test", [AccountType::RegularAccountImmutableCode]),
    )
    .unwrap();
    AccountBuilder::new(seed)
        .account_type(AccountType::RegularAccountImmutableCode)
        .storage_mode(AccountStorageMode::Public)
        .with_component(component)
        .with_auth_component(AuthSingleSig::new(
            PublicKeyCommitment::from(EMPTY_WORD),
            AuthScheme::Falcon512Poseidon2,
        ))
        .with_assets(assets)
        .build_existing()
        .unwrap()
}

// TABLES
// ================================================================================================

/// Tables that updates are applied to one at a time.
struct Tables(AccountTables);

impl Tables {
    fn new() -> Self {
        Tables(AccountTables::new())
    }

    fn upsert(&mut self, update: BlockAccountUpdate, block: u32) -> Result<usize, DatabaseError> {
        let tables = self.0.clone();
        let (after, count) = upsert_accounts(tables, &vec![update], BlockNumber::from(block))?;
        self.0 = after;
        Ok(count)
    }

    fn latest(&self) -> AccountRowInsert {
        let mut latest = self.0.accounts.iter().filter(|row| row.is_latest);
        let row = latest.next().unwrap().clone();
        assert!(latest.next().is_none());
        row
    }

    fn full_account(&self, id: AccountId) -> Result<FullAccountState, DatabaseError> {
        read_full_account(&self.0, id)
    }
}

fn no_vault_delta() -> VaultDelta {
    VaultDelta { fungible: vec![], non_fungible: vec![] }
}

fn no_storage_delta() -> StorageDelta {
    StorageDelta { values: vec![], maps: vec![] }
}

fn change(faucet: u128, amount: i64) -> (Word, i64) {
    (asset(fungible(faucet, 1)).key, amount)
}

// TESTS
// ================================================================================================

#[test]
fn optimized_delta_matches_full_account_method() {
    let slot_value_initial = protocol_word([100, 200, 300, 400]);
    let account = build_account(
        [10u8; 32],
        "pub proc foo push.1 end",
        vec![
            miden_protocol::account::StorageSlot::with_value(
                StorageSlotName::mock(0),
                slot_value_initial,
            ),
            miden_protocol::account::StorageSlot::with_value(StorageSlotName::mock(1), EMPTY_WORD),
        ],
        vec![],
    );
    let mut tables = Tables::new();
    tables.upsert(full_update(&account), 1).expect("Initial upsert failed");

    let before = tables.full_account(account_id(account.id())).unwrap();
    assert_eq!(before.nonce, account.nonce().as_canonical_u64());
    assert!(before.assets.is_empty(), "Vault should be empty initially");

    let new_slot_value = protocol_word([111, 222, 333, 444]);
    let value_slot_name = account.storage().slots().first().unwrap().name().clone();
    let mut vault_delta = AccountVaultDelta::default();
    vault_delta.add_asset(fungible(ACCOUNT_ID_PUBLIC_FUNGIBLE_FAUCET, 500)).unwrap();
    let partial_delta = miden_protocol::account::AccountDelta::new(
        account.id(),
        AccountStorageDelta::from_raw(BTreeMap::from_iter([(
            value_slot_name.clone(),
            StorageSlotDelta::Value(new_slot_value),
        )])),
        vault_delta,
        Felt::new(5),
    )
    .unwrap();
    let mut expected_account = account.clone();
    expected_account.apply_delta(&partial_delta).unwrap();

    let update = partial_update(
        &expected_account,
        AccountDelta {
            storage: StorageDelta {
                values: vec![(value_slot_name.as_str().to_string(), word(new_slot_value))],
                maps: vec![],
            },
            vault: VaultDelta {
                fungible: vec![change(ACCOUNT_ID_PUBLIC_FUNGIBLE_FAUCET, 500)],
                non_fungible: vec![],
            },
            nonce_delta: 5,
        },
    );
    tables.upsert(update, 2).expect("Partial delta upsert failed");

    let row = tables.latest();
    assert_eq!(row.nonce, Some(expected_account.nonce().as_canonical_u64() as i64));
    assert_eq!(row.code_commitment, Some(account.code().commitment().to_bytes()));
    assert_eq!(row.storage_header, Some(expected_account.storage().to_header().to_bytes()));
    assert_eq!(row.vault_root, Some(expected_account.vault().root().to_bytes()));
    assert_eq!(row.account_commitment, expected_account.to_commitment().to_bytes());
    assert_eq!(row.block_num, 2);
    assert_eq!(row.created_at_block, 1);

    let after = tables.full_account(account_id(account.id())).unwrap();
    assert_eq!(after.assets, vec![asset(fungible(ACCOUNT_ID_PUBLIC_FUNGIBLE_FAUCET, 500))]);
    assert_eq!(after, full_state(&expected_account));
}

#[test]
fn optimized_delta_updates_non_empty_vault() {
    let account = build_account(
        [40u8; 32],
        "pub proc vault push.1 end",
        vec![miden_protocol::account::StorageSlot::with_value(StorageSlotName::mock(0), EMPTY_WORD)],
        vec![fungible(ACCOUNT_ID_PUBLIC_FUNGIBLE_FAUCET, 700)],
    );
    let id = account_id(account.id());
    let mut tables = Tables::new();
    tables.upsert(full_update(&account), 1).expect("Initial upsert failed");

    let mut vault_delta = AccountVaultDelta::default();
    vault_delta.add_asset(fungible(ACCOUNT_ID_PUBLIC_FUNGIBLE_FAUCET_1, 250)).unwrap();
    vault_delta.remove_asset(fungible(ACCOUNT_ID_PUBLIC_FUNGIBLE_FAUCET, 700)).unwrap();
    let partial_delta = miden_protocol::account::AccountDelta::new(
        account.id(),
        AccountStorageDelta::new(),
        vault_delta,
        Felt::new(1),
    )
    .unwrap();
    let mut expected_account = account.clone();
    expected_account.apply_delta(&partial_delta).unwrap();

    let update = partial_update(
        &expected_account,
        AccountDelta {
            storage: no_storage_delta(),
            vault: VaultDelta {
                fungible: vec![
                    change(ACCOUNT_ID_PUBLIC_FUNGIBLE_FAUCET_1, 250),
                    change(ACCOUNT_ID_PUBLIC_FUNGIBLE_FAUCET, -700),
                ],
                non_fungible: vec![],
            },
            nonce_delta: 1,
        },
    );
    tables.upsert(update, 2).expect("Partial delta upsert failed");

    let after = tables.full_account(id).unwrap();
    assert_eq!(after.assets, vec![asset(fungible(ACCOUNT_ID_PUBLIC_FUNGIBLE_FAUCET_1, 250))]);
    let row = tables.latest();
    assert_eq!(row.vault_root, Some(expected_account.vault().root().to_bytes()));
    assert_eq!(row.account_commitment, expected_account.to_commitment().to_bytes());

    let mut vault_delta_3 = AccountVaultDelta::default();
    vault_delta_3.add_asset(fungible(ACCOUNT_ID_PUBLIC_FUNGIBLE_FAUCET_1, 150)).unwrap();
    let partial_delta_3 = miden_protocol::account::AccountDelta::new(
        account.id(),
        AccountStorageDelta::new(),
        vault_delta_3,
        Felt::new(1),
    )
    .unwrap();
    let mut expected_after_3 = expected_account.clone();
    expected_after_3.apply_delta(&partial_delta_3).unwrap();
    let update = partial_update(
        &expected_after_3,
        AccountDelta {
            storage: no_storage_delta(),
            vault: VaultDelta {
                fungible: vec![change(ACCOUNT_ID_PUBLIC_FUNGIBLE_FAUCET_1, 150)],
                non_fungible: vec![],
            },
            nonce_delta: 1,
        },
    );
    tables.upsert(update, 3).expect("Block 3 upsert failed");

    let last = tables.full_account(id).unwrap();
    assert_eq!(last.assets, vec![asset(fungible(ACCOUNT_ID_PUBLIC_FUNGIBLE_FAUCET_1, 400))]);
    let row = tables.latest();
    assert_eq!(row.vault_root, Some(expected_after_3.vault().root().to_bytes()));
    assert_eq!(row.account_commitment, expected_after_3.to_commitment().to_bytes());
}

#[test]
fn optimized_delta_updates_storage_map_header() {
    let map_key = StorageMapKey::new(protocol_word([7, 0, 0, 0]));
    let map_value_initial = protocol_word([10, 20, 30, 40]);
    let map_value_updated = protocol_word([50, 60, 70, 80]);
    let slot_name = StorageSlotName::mock(3);

    let storage_map = StorageMap::with_entries(vec![(map_key, map_value_initial)]).unwrap();
    let account = build_account(
        [30u8; 32],
        "pub proc map push.1 end",
        vec![miden_protocol::account::StorageSlot::with_map(slot_name.clone(), storage_map)],
        vec![],
    );
    let mut tables = Tables::new();
    tables.upsert(full_update(&account), 1).expect("Initial upsert failed");

    let mut map_delta = StorageMapDelta::default();
    map_delta.insert(map_key, map_value_updated);
    let partial_delta = miden_protocol::account::AccountDelta::new(
        account.id(),
        AccountStorageDelta::from_raw(BTreeMap::from_iter([(
            slot_name.clone(),
            StorageSlotDelta::Map(map_delta),
        )])),
        AccountVaultDelta::default(),
        Felt::new(1),
    )
    .unwrap();
    let mut expected_account = account.clone();
    expected_account.apply_delta(&partial_delta).unwrap();

    let update = partial_update(
        &expected_account,
        AccountDelta {
            storage: StorageDelta {
                values: vec![],
                maps: vec![MapDelta {
                    slot_name: slot_name.as_str().to_string(),
                    entries: vec![(word(map_key.into()), word(map_value_updated))],
                }],
            },
            vault: no_vault_delta(),
            nonce_delta: 1,
        },
    );
    tables.upsert(update, 2).expect("Partial delta upsert failed");

    let row = tables.latest();
    assert_eq!(
        row.storage_header,
        Some(expected_account.storage().to_header().to_bytes()),
        "Storage commitment should match after map delta"
    );
    assert_eq!(
        row.account_commitment,
        expected_account.to_commitment().to_bytes(),
        "Account commitment should match after map delta"
    );
}

#[test]
fn upsert_private_account() {
    let id = miden_protocol::account::AccountId::dummy(
        [20u8; 15],
        AccountIdVersion::Version0,
        AccountType::RegularAccountImmutableCode,
        AccountStorageMode::Private,
    );
    let account_commitment = protocol_word([1, 2, 3, 4]);
    let update = BlockAccountUpdate {
        account_id: account_id(id),
        final_state_commitment: word(account_commitment),
        details: AccountUpdateDetails::Private,
    };
    let mut tables = Tables::new();
    tables.upsert(update, 1).expect("Private account upsert failed");

    let row = tables.latest();
    assert_eq!(row.account_id, id.to_bytes());
    assert_eq!(
        row.account_commitment,
        account_commitment.to_bytes(),
        "Stored commitment should match"
    );
    assert!(row.nonce.is_none(), "Private account should have NULL nonce");
    assert!(row.code_commitment.is_none(), "Private account should have NULL code_commitment");
    assert!(row.storage_header.is_none());
    assert!(row.vault_root.is_none());
    assert!(row.is_latest);
}

#[test]
fn upsert_full_state_delta() {
    let slot_value = protocol_word([10, 20, 30, 40]);
    let account = build_account(
        [20u8; 32],
        "pub proc bar push.2 end",
        vec![miden_protocol::account::StorageSlot::with_value(StorageSlotName::mock(0), slot_value)],
        vec![],
    );
    let mut tables = Tables::new();
    tables.upsert(full_update(&account), 1).expect("Full-state delta upsert failed");

    let row = tables.latest();
    assert_eq!(row.nonce, Some(account.nonce().as_canonical_u64() as i64), "Nonce should match");
    assert_eq!(
        row.code_commitment,
        Some(account.code().commitment().to_bytes()),
        "Code commitment should match"
    );
    assert_eq!(
        row.storage_header,
        Some(account.storage().to_header().to_bytes()),
        "Storage commitment should match"
    );

    let loaded_account = tables.full_account(account_id(account.id())).unwrap();
    assert_eq!(loaded_account, full_state(&account));
}

#[test]
fn a_state_that_does_not_match_its_commitment_is_refused() {
    let account = build_account(
        [20u8; 32],
        "pub proc bar push.2 end",
        vec![miden_protocol::account::StorageSlot::with_value(StorageSlotName::mock(0), EMPTY_WORD)],
        vec![],
    );
    let mut update = full_update(&account);
    let calculated = update.final_state_commitment;
    let expected = Word(9, 9, 9, 9);
    update.final_state_commitment = expected;
    let mut tables = Tables::new();
    assert_eq!(
        tables.upsert(update, 1),
        Err(DatabaseError::AccountCommitmentsMismatch { calculated, expected })
    );
    assert!(tables.0.accounts.is_empty());
}

#[test]
fn a_delta_of_an_unknown_account_is_refused() {
    let account = build_account(
        [20u8; 32],
        "pub proc bar push.2 end",
        vec![miden_protocol::account::StorageSlot::with_value(StorageSlotName::mock(0), EMPTY_WORD)],
        vec![],
    );
    let delta =
        AccountDelta { storage: no_storage_delta(), vault: no_vault_delta(), nonce_delta: 1 };
    let mut tables = Tables::new();
    assert_eq!(
        tables.upsert(partial_update(&account, delta), 1),
        Err(DatabaseError::AccountNotFoundInDb(account_id(account.id())))
    );
}

#[test]
fn more_than_there_is_cannot_be_removed() {
    let account = build_account(
        [40u8; 32],
        "pub proc vault push.1 end",
        vec![miden_protocol::account::StorageSlot::with_value(StorageSlotName::mock(0), EMPTY_WORD)],
        vec![fungible(ACCOUNT_ID_PUBLIC_FUNGIBLE_FAUCET, 700)],
    );
    let mut tables = Tables::new();
    tables.upsert(full_update(&account), 1).unwrap();
    let delta = AccountDelta {
        storage: no_storage_delta(),
        vault: VaultDelta {
            fungible: vec![change(ACCOUNT_ID_PUBLIC_FUNGIBLE_FAUCET, -701)],
            non_fungible: vec![],
        },
        nonce_delta: 1,
    };
    assert!(tables.upsert(partial_update(&account, delta), 2).is_err());
    assert_eq!(tables.latest().block_num, 1);
}

#[test]
fn a_public_account_without_nonce_is_corrupted() {
    let id = AccountId { prefix: 0xaa00_0000_0000_0000, suffix: 0x1200 };
    let row = FullAccountRow { nonce: None, code: vec![] };
    assert_eq!(
        select_full_account(id, Some(row), &None, &vec![], &vec![]),
        Err(DatabaseError::DataCorrupted(DataCorruption::MissingNonce(id)))
    );
    assert_eq!(
        select_full_account(id, None, &None, &vec![], &vec![]),
        Err(DatabaseError::AccountNotFoundInDb(id))
    );
    let row = FullAccountRow { nonce: Some(1), code: vec![1, 2, 3] };
    assert_eq!(
        select_full_account(id, Some(row), &None, &vec![], &vec![]),
        Err(DatabaseError::DeserializationError)
    );
}

#[test]
fn a_delta_with_code_is_a_new_account() {
    let account = build_account([20u8; 32], "pub proc bar push.2 end", vec![], vec![]);
    let delta =
        AccountDelta { storage: no_storage_delta(), vault: no_vault_delta(), nonce_delta: 1 };
    let state = full_state(&account);
    assert_eq!(update_details(None, false, None), Ok(AccountUpdateDetails::Private));
    assert_eq!(
        update_details(Some(delta.clone()), false, None),
        Ok(AccountUpdateDetails::Delta(delta.clone()))
    );
    assert_eq!(
        update_details(Some(delta.clone()), true, Some(state.clone())),
        Ok(AccountUpdateDetails::FullState(state))
    );
    assert_eq!(update_details(Some(delta), true, None), Err(DatabaseError::AccountError));
}

#[test]
fn updates_that_make_up_no_state_are_refused() {
    let account = build_account(
        [20u8; 32],
        "pub proc bar push.2 end",
        vec![miden_protocol::account::StorageSlot::with_value(StorageSlotName::mock(0), EMPTY_WORD)],
        vec![],
    );
    let id = account_id(account.id());
    let mut state = full_state(&account);
    state.slots.push(state.slots[0].clone());
    let update = BlockAccountUpdate {
        details: AccountUpdateDetails::FullState(state),
        ..full_update(&account)
    };
    assert_eq!(
        Tables::new().upsert(update, 1),
        Err(DatabaseError::DataCorrupted(DataCorruption::InvalidStorageHeader)),
        "no two slots have the same name"
    );

    let mut update = full_update(&account);
    update.details = AccountUpdateDetails::FullState(FullAccountState {
        nonce: Felt::ORDER - 1,
        ..full_state(&account)
    });
    let mut tables = Tables::new();
    let Err(DatabaseError::AccountCommitmentsMismatch { calculated, .. }) =
        tables.upsert(update.clone(), 1)
    else {
        panic!("the state has another nonce");
    };
    update.final_state_commitment = calculated;
    tables.upsert(update, 1).unwrap();
    let delta = AccountDelta {
        storage: no_storage_delta(),
        vault: no_vault_delta(),
        nonce_delta: Felt::ORDER - 1,
    };
    assert_eq!(
        tables.upsert(partial_update(&account, delta), 2),
        Err(DatabaseError::DataCorrupted(DataCorruption::NonceOverflow(id)))
    );
}

#[test]
fn a_faucet_has_room_for_some_assets() {
    let account = build_account([20u8; 32], "pub proc bar push.2 end", vec![], vec![]);
    let faucet =
        miden_protocol::account::AccountId::try_from(ACCOUNT_ID_PUBLIC_NON_FUNGIBLE_FAUCET).unwrap();
    let update = |count: u64| {
        let assets = (1..=count)
            .map(|num| Asset {
                key: Word(num, 0, faucet.suffix().as_canonical_u64(), faucet.prefix().as_u64()),
                value: Word(num, 0, 0, 0),
            })
            .collect();
        BlockAccountUpdate {
            details: AccountUpdateDetails::FullState(FullAccountState {
                assets,
                ..full_state(&account)
            }),
            ..full_update(&account)
        }
    };
    assert!(matches!(
        Tables::new().upsert(update(1024), 1),
        Err(DatabaseError::AccountCommitmentsMismatch { .. })
    ));
    assert_eq!(Tables::new().upsert(update(1025), 1), Err(DatabaseError::AssetVaultError));
}

#[test]
fn empty_values_of_a_map_do_not_count() {
    let map = StorageMap::with_entries([(StorageMapKey::from_index(1), protocol_word([5, 0, 0, 0]))]).unwrap();
    let account = build_account(
        [20u8; 32],
        "pub proc bar push.2 end",
        vec![miden_protocol::account::StorageSlot::with_map(StorageSlotName::mock(3), map)],
        vec![],
    );
    let mut state = full_state(&account);
    for slot in &mut state.slots {
        if let StorageSlotContent::MapEntries(entries) = &mut slot.content {
            entries.push((Word(9, 9, 9, 9), Word(0, 0, 0, 0)));
        }
    }
    let update = BlockAccountUpdate {
        details: AccountUpdateDetails::FullState(state),
        ..full_update(&account)
    };
    let mut tables = Tables::new();
    tables.upsert(update, 1).unwrap();
    assert_eq!(tables.latest().block_num, 1);
}

#[test]
fn rows_that_make_up_no_state_are_reported() {
    let account = build_account(
        [20u8; 32],
        "pub proc bar push.2 end",
        vec![miden_protocol::account::StorageSlot::with_value(StorageSlotName::mock(0), EMPTY_WORD)],
        vec![],
    );
    let id = account_id(account.id());
    let row =
        AccountStateDeltaRow { nonce: Some(1), code_commitment: None, storage_header: None };
    assert_eq!(
        select_minimal_account_state_headers(id, &Some(row)),
        Err(DatabaseError::DataCorrupted(DataCorruption::MissingCodeCommitment(id)))
    );
    assert_eq!(
        balance_query_keys(&vec![id]),
        Err(DatabaseError::DataCorrupted(DataCorruption::InvalidFaucetId(id)))
    );
    let delta = VaultDelta {
        fungible: vec![change(ACCOUNT_ID_PUBLIC_FUNGIBLE_FAUCET, -1)],
        non_fungible: vec![],
    };
    assert_eq!(vault_root_after_delta(&vec![], &delta), Err(DatabaseError::AssetVaultError));
}

#[test]
fn updates_that_no_block_holds_are_found() {
    let account = build_account(
        [20u8; 32],
        "pub proc bar push.2 end",
        vec![miden_protocol::account::StorageSlot::with_value(StorageSlotName::mock(0), EMPTY_WORD)],
        vec![fungible(ACCOUNT_ID_PUBLIC_FUNGIBLE_FAUCET, 7)],
    );
    let update = full_update(&account);
    assert!(check_account_update(&update));
    let with = |state: FullAccountState| BlockAccountUpdate {
        details: AccountUpdateDetails::FullState(state),
        ..full_update(&account)
    };
    let mut twice = full_state(&account);
    twice.assets.push(twice.assets[0]);
    assert!(!check_account_update(&with(twice)));
    let mut slots = full_state(&account);
    slots.slots[0].content = StorageSlotContent::SingleValue(Word(Felt::ORDER, 0, 0, 0));
    assert!(!check_account_update(&with(slots)));
    let other_id = AccountId { prefix: update.account_id.prefix, suffix: 1 };
    assert!(!check_account_update(&BlockAccountUpdate { account_id: other_id, ..update.clone() }));
    assert!(check_account_update(&BlockAccountUpdate {
        details: AccountUpdateDetails::Private,
        ..update
    }));

    let delta = |values: Vec<(String, Word)>, fungible: Vec<(Word, i64)>| {
        let storage = StorageDelta { values, maps: vec![] };
        let vault = VaultDelta { fungible, non_fungible: vec![] };
        partial_update(&account, AccountDelta { storage, vault, nonce_delta: 1 })
    };
    let slot = StorageSlotName::mock(0).as_str().to_string();
    let changes = vec![change(ACCOUNT_ID_PUBLIC_FUNGIBLE_FAUCET, -1)];
    assert!(check_account_update(&delta(vec![(slot.clone(), Word(1, 2, 3, 4))], changes)));
    assert!(!check_account_update(&delta(vec![(slot, Word(0, 0, 0, Felt::ORDER))], vec![])));
    assert!(!check_account_update(&delta(vec![], vec![(Word(1, 2, 3, 4), 1)])));
}

#[test]
fn assets_and_entries_are_told_from_other_words() {
    let coin = asset(fungible(ACCOUNT_ID_PUBLIC_FUNGIBLE_FAUCET, 7));
    let other = asset(fungible(ACCOUNT_ID_PUBLIC_FUNGIBLE_FAUCET_1, 7));
    assert!(check_asset(coin));
    assert!(!check_asset(Asset { key: Word(1, 0, 0, 0), value: coin.value }));
    assert!(!check_asset(Asset { key: coin.key, value: Word(7, 1, 0, 0) }));
    assert!(check_distinct_assets(&vec![coin, other]));
    assert!(!check_distinct_assets(&vec![coin, other, coin]));
    assert!(!check_distinct_assets(&vec![Asset { key: coin.key, value: Word(0, 0, 0, 0) }]));
    let entry = (Word(1, 0, 0, 0), Word(5, 0, 0, 0));
    assert!(check_map_entries(&vec![entry, (Word(2, 0, 0, 0), Word(0, 0, 0, 0))]));
    assert!(!check_map_entries(&vec![entry, (entry.0, Word(6, 0, 0, 0))]));
    assert!(!check_map_entries(&vec![(Word(Felt::ORDER, 0, 0, 0), Word(5, 0, 0, 0))]));
}
