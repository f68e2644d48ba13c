use miden_node_store::account_id::AccountId;
use miden_node_store::block_number::BlockNumber;
use miden_node_store::db::tables::{upsert_accounts, AccountTables};
use miden_node_store::db::updates::{
    AccountUpdateDetails, FullAccountState, StorageSlot, StorageSlotContent,
};
use miden_node_store::genesis::{GenesisAccount, GenesisBlock, GenesisError, GenesisState};
use miden_node_store::state::account::{AccountHeader, Asset};
use miden_node_store::word::Word;
use miden_protocol::account::auth::{AuthScheme, PublicKeyCommitment};
use miden_protocol::account::component::AccountComponentMetadata;
use miden_protocol::account::{
    Account, AccountBuilder, AccountComponent, AccountStorageMode, AccountType, StorageMap,
    StorageMapKey, StorageSlotName,
};
use miden_protocol::asset::FungibleAsset;
use miden_protocol::block::FeeParameters;
use miden_protocol::crypto::dsa::ecdsa_k256_keccak::SecretKey;
use miden_protocol::testing::account_id::ACCOUNT_ID_PUBLIC_FUNGIBLE_FAUCET;
use miden_protocol::testing::random_secret_key::random_secret_key;
use miden_protocol::transaction::TransactionKernel;
use miden_protocol::utils::serde::Serializable;
use miden_protocol::{Felt, EMPTY_WORD};
use miden_standards::account::auth::AuthSingleSig;
use miden_standards::code_builder::CodeBuilder;

fn word(word: miden_protocol::Word) -> Word {
    let [a, b, c, d] = word.into_elements().map(|element| element.as_canonical_u64());
    Word(a, b, c, d)
}

fn protocol_word(elements: [u64; 4]) -> miden_protocol::Word {
    miden_protocol::Word::new(elements.map(Felt::new))
}

fn faucet() -> miden_protocol::account::AccountId {
    miden_protocol::account::AccountId::try_from(ACCOUNT_ID_PUBLIC_FUNGIBLE_FAUCET).unwrap()
}

fn tokens(amount: u64) -> miden_protocol::asset::Asset {
    FungibleAsset::new(faucet(), amount).unwrap().into()
}

fn fee_parameters() -> Vec<u8> {
    FeeParameters::new(faucet(), 0).unwrap().to_bytes()
}

fn build_account(
    seed: [u8; 32],
    code: &str,
    account_type: AccountType,
    storage_mode: AccountStorageMode,
    slots: Vec<miden_protocol::account::StorageSlot>,
    assets: Vec<miden_protocol::asset::Asset>,
) -> Account {
    let code = CodeBuilder::default().compile_component_code("foo::interface", code).unwrap();
    let component = AccountComponent::new(
        code,
        slots,
        AccountComponentMetadata::new("foo", AccountType::all()),
    )
    .unwrap();
    AccountBuilder::new(seed)
        .account_type(account_type)
        .storage_mode(storage_mode)
        .with_component(component)
        .with_assets(assets)
        .with_auth_component(AuthSingleSig::new(
            PublicKeyCommitment::from(EMPTY_WORD),
            AuthScheme::Falcon512Poseidon2,
        ))
        .build_existing()
        .unwrap()
}

fn genesis_account(account: &Account) -> GenesisAccount {
    let id = AccountId {
        prefix: account.id().prefix().as_u64(),
        suffix: account.id().suffix().as_canonical_u64(),
    };
    let slots = account
        .storage()
        .slots()
        .iter()
        .map(|slot| {
            let content = match slot.content() {
                miden_protocol::account::StorageSlotContent::Value(value) => {
                    StorageSlotContent::SingleValue(word(*value))
                },
                miden_protocol::account::StorageSlotContent::Map(map) => {
                    StorageSlotContent::MapEntries(
                        map.entries()
                            .map(|(key, value)| (word((*key).into()), word(*value)))
                            .collect(),
                    )
                },
            };
            StorageSlot { name: slot.name().as_str().to_string(), content }
        })
        .collect();
    GenesisAccount {
        header: AccountHeader {
            id,
            nonce: account.nonce().as_canonical_u64(),
            vault_root: word(account.vault().root()),
            storage_commitment: word(account.storage().to_commitment()),
            code_commitment: word(account.code().commitment()),
        },
        state: FullAccountState {
            nonce: account.nonce().as_canonical_u64(),
            code_commitment: word(account.code().commitment()),
            code: account.code().to_bytes(),
            slots,
            assets: account
                .vault()
                .assets()
                .map(|asset| Asset {
                    key: word(asset.to_key_word()),
                    value: word(asset.to_value_word()),
                })
                .collect(),
        },
        seed: account.seed().map(word),
    }
}

fn genesis_state(accounts: &[Account], signer: &SecretKey) -> GenesisState {
    GenesisState::new(
        accounts.iter().map(genesis_account).collect(),
        fee_parameters(),
        1,
        0,
        signer.public_key().to_bytes(),
    )
}

/// Builds the genesis block of accounts and stores them.
fn bootstrap(accounts: &[Account]) -> (GenesisBlock, AccountTables) {
    let signer = random_secret_key();
    let block = genesis_state(accounts, &signer).into_block(&signer).unwrap();
    let (tables, count) = upsert_accounts(
        AccountTables::new(),
        &block.inner().body.updated_accounts,
        block.inner().sealed.header.block_num,
    )
    .unwrap();
    assert_eq!(count, accounts.len());
    (block, tables)
}

#[test]
fn genesis_with_account_assets() {
    let account = build_account(
        [1u8; 32],
        "pub proc foo push.1 end",
        AccountType::RegularAccountImmutableCode,
        AccountStorageMode::Public,
        vec![],
        vec![tokens(1000)],
    );
    let (_, tables) = bootstrap(&[account]);
    assert_eq!(tables.assets.len(), 1);
}

#[test]
fn genesis_with_account_storage_map() {
    let storage_map = StorageMap::with_entries(vec![
        (StorageMapKey::from_index(1u32), protocol_word([10, 20, 30, 40])),
        (StorageMapKey::from_index(2u32), protocol_word([50, 60, 70, 80])),
    ])
    .unwrap();
    let account = build_account(
        [2u8; 32],
        "pub proc foo push.1 end",
        AccountType::RegularAccountImmutableCode,
        AccountStorageMode::Public,
        vec![
            miden_protocol::account::StorageSlot::with_map(StorageSlotName::mock(0), storage_map),
            miden_protocol::account::StorageSlot::with_empty_value(StorageSlotName::mock(1)),
        ],
        vec![],
    );
    let (_, tables) = bootstrap(&[account]);
    assert_eq!(tables.storage.len(), 2);
}

#[test]
fn genesis_with_account_assets_and_storage() {
    let storage_map = StorageMap::with_entries(vec![(
        StorageMapKey::from_index(100u32),
        protocol_word([1, 2, 3, 4]),
    )])
    .unwrap();
    let account = build_account(
        [3u8; 32],
        "pub proc foo push.1 end",
        AccountType::RegularAccountImmutableCode,
        AccountStorageMode::Public,
        vec![
            miden_protocol::account::StorageSlot::with_empty_value(StorageSlotName::mock(0)),
            miden_protocol::account::StorageSlot::with_map(StorageSlotName::mock(2), storage_map),
        ],
        vec![tokens(5000)],
    );
    let (_, tables) = bootstrap(&[account]);
    assert_eq!((tables.storage.len(), tables.assets.len()), (1, 1));
}

#[test]
fn genesis_with_multiple_accounts() {
    let account1 = build_account(
        [1u8; 32],
        "pub proc foo push.1 end",
        AccountType::RegularAccountImmutableCode,
        AccountStorageMode::Public,
        vec![],
        vec![],
    );
    let account2 = build_account(
        [2u8; 32],
        "pub proc bar push.2 end",
        AccountType::RegularAccountImmutableCode,
        AccountStorageMode::Public,
        vec![],
        vec![tokens(2000)],
    );
    let storage_map = StorageMap::with_entries(vec![(
        StorageMapKey::from_index(5u32),
        protocol_word([15, 25, 35, 45]),
    )])
    .unwrap();
    let account3 = build_account(
        [3u8; 32],
        "pub proc baz push.3 end",
        AccountType::RegularAccountUpdatableCode,
        AccountStorageMode::Public,
        vec![miden_protocol::account::StorageSlot::with_map(
            StorageSlotName::mock(0),
            storage_map,
        )],
        vec![],
    );
    let (_, tables) = bootstrap(&[account1, account2, account3]);
    assert_eq!(tables.accounts.len(), 3);
    assert_eq!(tables.codes.len(), 3);
}

#[test]
fn genesis_blocks_are_at_height_zero_and_signed() {
    let account = build_account(
        [1u8; 32],
        "pub proc foo push.1 end",
        AccountType::RegularAccountImmutableCode,
        AccountStorageMode::Public,
        vec![],
        vec![],
    );
    let (block, _) = bootstrap(&[account.clone()]);
    let block = block.into_inner();
    assert_eq!(block.sealed.header.block_num, BlockNumber::genesis());
    assert_eq!(block.sealed.header.prev_block_commitment, Word(0, 0, 0, 0));
    assert_eq!(block.body.updated_accounts.len(), 1);
    assert_eq!(
        block.body.updated_accounts[0].final_state_commitment,
        word(account.to_commitment())
    );
    let again = GenesisBlock::try_from(block.clone()).unwrap();
    assert_eq!(again.into_inner(), block);

    let mut later = block.clone();
    later.sealed.header.block_num = BlockNumber::from(1);
    assert_eq!(
        GenesisBlock::try_from(later).err(),
        Some(GenesisError::NotGenesis(BlockNumber::from(1)))
    );
    let mut forged = block;
    forged.sealed.validator_key = random_secret_key().public_key().to_bytes();
    assert_eq!(GenesisBlock::try_from(forged).err(), Some(GenesisError::InvalidSignature));
}

#[test]
fn the_validator_has_to_sign() {
    let signer = random_secret_key();
    let state = genesis_state(&[], &random_secret_key());
    assert!(!state.is_validator(&signer));
    assert!(genesis_state(&[], &signer).is_validator(&signer));
    assert!(genesis_state(&[], &signer).into_block(&signer).is_ok());
    assert_eq!(state.into_block(&signer).err(), Some(GenesisError::InvalidSignature));
}

#[test]
fn headers_commit_to_what_they_hold() {
    let signer = random_secret_key();
    let commitment = |version, timestamp| {
        let state = GenesisState::new(
            vec![],
            fee_parameters(),
            version,
            timestamp,
            signer.public_key().to_bytes(),
        );
        state.into_unsigned_block().unwrap().header().header.commitment
    };
    assert_eq!(commitment(1, 0), commitment(1, 0));
    assert_ne!(commitment(1, 0), commitment(2, 0));
    assert_ne!(commitment(1, 0), commitment(1, 7));
}

#[test]
fn headers_name_the_kernel_of_their_transactions() {
    let signer = random_secret_key();
    let block = |kernel| {
        genesis_state(&[], &signer).into_unsigned_block_of_kernel(kernel).unwrap()
    };
    let kernel = Word(1, 2, 3, 4);
    assert_eq!(block(kernel).header().tx_kernel_commitment, kernel);
    assert_ne!(
        block(kernel).header().header.commitment,
        block(Word(4, 3, 2, 1)).header().header.commitment
    );
    let own = genesis_state(&[], &signer).into_unsigned_block().unwrap();
    let kernel = word(TransactionKernel.to_commitment());
    assert_eq!(own.header().tx_kernel_commitment, kernel);
    assert_eq!(own.header().header.commitment, block(kernel).header().header.commitment);
}

#[test]
fn keys_and_fees_have_to_be_encoded() {
    let signer = random_secret_key();
    let key = signer.public_key().to_bytes();
    let state = GenesisState::new(vec![], vec![], 1, 0, key);
    assert_eq!(state.into_unsigned_block().err(), Some(GenesisError::InvalidHeader));
    let state = GenesisState::new(vec![], fee_parameters(), 1, 0, vec![1]);
    assert_eq!(state.into_unsigned_block().err(), Some(GenesisError::InvalidHeader));
}

#[test]
fn new_accounts_cannot_exist_from_the_start() {
    let signer = random_secret_key();
    let build = |storage_mode| {
        let account = build_account(
            [1u8; 32],
            "pub proc foo push.1 end",
            AccountType::RegularAccountImmutableCode,
            storage_mode,
            vec![],
            vec![],
        );
        let mut account = genesis_account(&account);
        account.seed = Some(Word(1, 2, 3, 4));
        account
    };
    let state = |account| {
        let key = signer.public_key().to_bytes();
        GenesisState::new(vec![account], fee_parameters(), 1, 0, key)
    };
    let public = build(AccountStorageMode::Public);
    let id = public.header.id;
    assert_eq!(
        state(public).into_unsigned_block().err(),
        Some(GenesisError::AccountWithSeed(id))
    );

    let block = state(build(AccountStorageMode::Private)).into_block(&signer).unwrap();
    assert_eq!(
        block.inner().body.updated_accounts[0].details,
        AccountUpdateDetails::Private
    );
}
