use std::collections::BTreeMap;

use miden_node_store::account_id::AccountId;
use miden_node_store::block_number::BlockNumber;
use miden_node_store::db::new_account::{read_account_update, ReceivedUpdate};
use miden_node_store::db::transactions::BlockNoteIndex;
use miden_node_store::db::updates::{
    AccountUpdateDetails, FullAccountState, StorageSlot, StorageSlotContent,
};
use miden_node_store::errors::DatabaseError;
use miden_node_store::notes::NoteHeader;
use miden_node_store::state::account::Asset;
use miden_node_store::state::apply_block::OutputNote;
use miden_node_store::state::received_block::{
    place_notes, read_block, read_body, read_header, read_signed_block, ReadBlockError,
};
use miden_node_store::word::Word;
use miden_protocol::account::auth::{AuthScheme, PublicKeyCommitment};
use miden_protocol::account::component::AccountComponentMetadata;
use miden_protocol::account::delta::{
    AccountDelta as ProtocolDelta, AccountStorageDelta, AccountUpdateDetails as ProtocolDetails,
    AccountVaultDelta, FungibleAssetDelta, NonFungibleAssetDelta, StorageMapDelta, StorageSlotDelta,
};
use miden_protocol::account::{
    Account, AccountBuilder, AccountCode, AccountComponent, AccountStorageMode, AccountType,
    StorageMap, StorageMapKey, StorageSlotName,
};
use miden_protocol::asset::FungibleAsset;
use miden_protocol::block::{BlockAccountUpdate, BlockBody, BlockHeader, SignedBlock};
use miden_protocol::note::{
    Note, NoteAssets, NoteDetails, NoteMetadata, NoteRecipient, NoteScript, NoteStorage, NoteType,
    Nullifier,
};
use miden_protocol::testing::account_id::{ACCOUNT_ID_PUBLIC_FUNGIBLE_FAUCET, ACCOUNT_ID_SENDER};
use miden_protocol::testing::random_secret_key::random_secret_key;
use miden_protocol::transaction::{
    OrderedTransactionHeaders, OutputNote as ProtocolNote, PrivateNoteHeader, PublicOutputNote,
};
use miden_protocol::utils::serde::Serializable;
use miden_protocol::{Felt, EMPTY_WORD};
use miden_standards::account::auth::AuthSingleSig;
use miden_standards::code_builder::CodeBuilder;

fn word(word: miden_protocol::Word) -> Word {
    let [a, b, c, d] = word.into_elements().map(|element| element.as_canonical_u64());
    Word(a, b, c, d)
}

fn protocol_word(elements: [u64; 4]) -> miden_protocol::Word {
    miden_protocol::Word::new(elements.map(Felt::new))
}

fn account_id(id: miden_protocol::account::AccountId) -> AccountId {
    AccountId { prefix: id.prefix().as_u64(), suffix: id.suffix().as_canonical_u64() }
}

fn faucet() -> miden_protocol::account::AccountId {
    miden_protocol::account::AccountId::try_from(ACCOUNT_ID_PUBLIC_FUNGIBLE_FAUCET).unwrap()
}

fn account() -> Account {
    let code = CodeBuilder::default()
        .compile_component_code("test::interface", "pub proc foo push.1 end")
        .unwrap();
    let map = StorageMap::with_entries(vec![(
        StorageMapKey::from_index(1u32),
        protocol_word([10, 20, 30, 40]),
    )])
    .unwrap();
    let slots = vec![
        miden_protocol::account::StorageSlot::with_map(StorageSlotName::mock(0), map),
        miden_protocol::account::StorageSlot::with_value(
            StorageSlotName::mock(1),
            protocol_word([1, 2, 3, 4]),
        ),
    ];
    let component = AccountComponent::new(
        code,
        slots,
        AccountComponentMetadata::new("test", [AccountType::RegularAccountImmutableCode]),
    )
    .unwrap();
    AccountBuilder::new([5u8; 32])
        .account_type(AccountType::RegularAccountImmutableCode)
        .storage_mode(AccountStorageMode::Public)
        .with_component(component)
        .with_auth_component(AuthSingleSig::new(
            PublicKeyCommitment::from(EMPTY_WORD),
            AuthScheme::Falcon512Poseidon2,
        ))
        .with_assets(vec![FungibleAsset::new(faucet(), 700).unwrap().into()])
        .build_existing()
        .unwrap()
}

fn full_state(account: &Account) -> FullAccountState {
    let slots = account
        .storage()
        .slots()
        .iter()
        .map(|slot| {
            let content = match slot.content() {
                miden_protocol::account::StorageSlotContent::Value(value) => {
                    StorageSlotContent::SingleValue(word(*value))
                },
                miden_protocol::account::StorageSlotContent::Map(map) => {
                    let entries = map.entries();
                    StorageSlotContent::MapEntries(
                        entries.map(|(key, value)| (word((*key).into()), word(*value))).collect(),
                    )
                },
            };
            StorageSlot { name: slot.name().as_str().to_string(), content }
        })
        .collect();
    let asset = |asset: miden_protocol::asset::Asset| Asset {
        key: word(asset.to_key_word()),
        value: word(asset.to_value_word()),
    };
    FullAccountState {
        nonce: account.nonce().as_canonical_u64(),
        code_commitment: word(account.code().commitment()),
        code: account.code().to_bytes(),
        slots,
        assets: account.vault().assets().map(asset).collect(),
    }
}

fn partial_delta(account: &Account) -> ProtocolDelta {
    let mut map = StorageMapDelta::default();
    map.insert(StorageMapKey::from_index(2u32), protocol_word([5, 6, 7, 8]));
    let storage = AccountStorageDelta::from_raw(BTreeMap::from_iter([
        (StorageSlotName::mock(0), StorageSlotDelta::Map(map)),
        (StorageSlotName::mock(1), StorageSlotDelta::Value(protocol_word([9, 9, 9, 9]))),
    ]));
    let mut vault = AccountVaultDelta::default();
    vault.remove_asset(FungibleAsset::new(faucet(), 300).unwrap().into()).unwrap();
    ProtocolDelta::new(account.id(), storage, vault, Felt::new(1)).unwrap()
}

fn update(account: &Account, details: ProtocolDetails) -> BlockAccountUpdate {
    BlockAccountUpdate::new(account.id(), account.to_commitment(), details)
}

fn received(account: &Account, delta: Option<ProtocolDelta>) -> ReceivedUpdate {
    ReceivedUpdate {
        account_id: account_id(account.id()),
        final_state_commitment: word(account.to_commitment()),
        delta,
    }
}

fn note(note_type: NoteType) -> Note {
    let sender = miden_protocol::account::AccountId::try_from(ACCOUNT_ID_SENDER).unwrap();
    let recipient = NoteRecipient::new(
        protocol_word([1, 0, 0, 1]),
        NoteScript::mock(),
        NoteStorage::new(vec![]).unwrap(),
    );
    let assets = NoteAssets::new(vec![FungibleAsset::mock(200)]).unwrap();
    Note::new(assets, NoteMetadata::new(sender, note_type), recipient)
}

fn body(updates: Vec<BlockAccountUpdate>) -> BlockBody {
    let public = ProtocolNote::Public(PublicOutputNote::new(note(NoteType::Public)).unwrap());
    let header = note(NoteType::Private).header().clone();
    let private = ProtocolNote::Private(PrivateNoteHeader::new(header).unwrap());
    BlockBody::new_unchecked(
        updates,
        vec![vec![(0, public)], vec![], vec![(3, private)]],
        vec![Nullifier::from_raw(protocol_word([4, 3, 2, 1]))],
        OrderedTransactionHeaders::new_unchecked(vec![]),
    )
}

fn header() -> BlockHeader {
    BlockHeader::mock(7, None, None, &[], protocol_word([8, 8, 8, 8]))
}

fn signed(updates: Vec<BlockAccountUpdate>) -> SignedBlock {
    let header = header();
    let signature = random_secret_key().sign(header.commitment());
    SignedBlock::new_unchecked(header, body(updates), signature)
}

#[test]
fn received_blocks_are_read_with_all_parts() {
    let account = account();
    let details = ProtocolDetails::Delta(ProtocolDelta::try_from(account.clone()).unwrap());
    let block = signed(vec![update(&account, details), update(&account, ProtocolDetails::Private)]);
    let read = read_signed_block(&block.to_bytes()).unwrap();

    let header = block.header();
    assert_eq!(read.sealed, read_header(header));
    assert_eq!(read.sealed.header.block_num, BlockNumber::from(7));
    assert_eq!(read.sealed.header.commitment, word(header.commitment()));
    assert_eq!(read.sealed.header.prev_block_commitment, word(header.prev_block_commitment()));
    assert_eq!(read.sealed.header.chain_commitment, word(header.chain_commitment()));
    assert_eq!(read.sealed.header.account_root, word(header.account_root()));
    assert_eq!(read.sealed.header.nullifier_root, word(header.nullifier_root()));
    assert_eq!(read.sealed.header.note_root, word(header.note_root()));
    assert_eq!(read.sealed.header.tx_commitment, word(header.tx_commitment()));
    assert_eq!(read.sealed.version, header.version());
    assert_eq!(read.sealed.timestamp, header.timestamp());
    assert_eq!(read.sealed.tx_kernel_commitment, Word(8, 8, 8, 8));
    assert_eq!(read.sealed.validator_key, header.validator_key().to_bytes());
    assert_eq!(read.sealed.fee_parameters, header.fee_parameters().to_bytes());
    assert_eq!(read.signature, block.signature().to_bytes());

    let body = &read.body;
    assert_eq!(body.transactions_commitment, word(block.body().transaction_commitment()));
    assert_eq!(body.created_nullifiers, vec![Word(4, 3, 2, 1)]);
    assert_eq!(body.updated_accounts.len(), 2);
    assert_eq!(body.updated_accounts[0].account_id, account_id(account.id()));
    assert_eq!(
        body.updated_accounts[0].final_state_commitment,
        word(account.to_commitment())
    );
    assert_eq!(
        body.updated_accounts[0].details,
        AccountUpdateDetails::FullState(full_state(&account))
    );
    assert_eq!(body.updated_accounts[1].details, AccountUpdateDetails::Private);

    let public = PublicOutputNote::new(note(NoteType::Public)).unwrap();
    let note_header = |note: &Note| NoteHeader {
        note_id: word(note.id().as_word()),
        metadata: note.metadata().to_bytes(),
    };
    assert_eq!(
        body.output_notes,
        vec![
            (
                BlockNoteIndex { batch_idx: 0, note_idx_in_batch: 0 },
                OutputNote::Public {
                    header: note_header(public.as_note()),
                    details: NoteDetails::from(public.as_note()).to_bytes(),
                    nullifier: word(public.as_note().nullifier().as_word()),
                }
            ),
            (
                BlockNoteIndex { batch_idx: 2, note_idx_in_batch: 3 },
                OutputNote::Private { header: note_header(&note(NoteType::Private)) }
            ),
        ]
    );
    let again = read_block(header, block.body(), block.signature().to_bytes()).unwrap();
    assert_eq!(again, read);
}

#[test]
fn bytes_that_encode_no_block_are_refused() {
    assert_eq!(read_signed_block(&vec![]), Err(ReadBlockError::Undecodable));
    let mut bytes = signed(vec![]).to_bytes();
    bytes.pop();
    assert_eq!(read_signed_block(&bytes), Err(ReadBlockError::Undecodable));
    let mut bytes = vec![1];
    bytes.extend(AccountCode::mock().mast().to_bytes());
    bytes.push(0);
    assert_eq!(read_signed_block(&bytes), Err(ReadBlockError::ShortCode));
}

#[test]
fn changes_of_existing_accounts_are_read() {
    let account = account();
    let read = read_account_update(&received(&account, Some(partial_delta(&account)))).unwrap();
    let AccountUpdateDetails::Delta(delta) = read.details else {
        panic!("the change holds no code");
    };
    let name = |index| StorageSlotName::mock(index).as_str().to_string();
    assert_eq!(delta.nonce_delta, 1);
    assert_eq!(delta.storage.values, vec![(name(1), Word(9, 9, 9, 9))]);
    assert_eq!(delta.storage.maps.len(), 1);
    assert_eq!(delta.storage.maps[0].slot_name, name(0));
    assert_eq!(
        delta.storage.maps[0].entries,
        vec![(word(StorageMapKey::from_index(2u32).into()), Word(5, 6, 7, 8))]
    );
    let key = word(FungibleAsset::new(faucet(), 300).unwrap().vault_key().into());
    assert_eq!(delta.vault.fungible, vec![(key, -300)]);
    assert!(delta.vault.non_fungible.is_empty());
}

#[test]
fn changes_that_make_up_no_account_are_refused() {
    let account = account();
    let code = Some(account.code().clone());
    let refused = |delta: ProtocolDelta| {
        let update = update(&account, ProtocolDetails::Delta(delta.clone()));
        assert_eq!(read_body(&body(vec![update])), Err(DatabaseError::AccountError));
        assert_eq!(
            read_account_update(&received(&account, Some(delta))),
            Err(DatabaseError::AccountError)
        );
    };

    // An asset is taken out of an empty vault.
    refused(partial_delta(&account).with_code(code.clone()));

    let slots = |count: usize| {
        let slots = (0..count).map(|index| {
            (StorageSlotName::mock(index), StorageSlotDelta::Value(protocol_word([1, 1, 1, 1])))
        });
        let storage = AccountStorageDelta::from_raw(slots.collect());
        ProtocolDelta::new(account.id(), storage, AccountVaultDelta::default(), Felt::new(1))
            .unwrap()
            .with_code(code.clone())
    };
    refused(slots(256));
    let most = read_account_update(&received(&account, Some(slots(255)))).unwrap();
    assert!(matches!(most.details, AccountUpdateDetails::FullState(state) if state.slots.len() == 255));

    let key = FungibleAsset::new(faucet(), 1).unwrap().vault_key();
    let fungible = FungibleAssetDelta::new(BTreeMap::from_iter([(key, i64::MAX)])).unwrap();
    let vault = AccountVaultDelta::new(fungible, NonFungibleAssetDelta::default());
    let delta =
        ProtocolDelta::new(account.id(), AccountStorageDelta::new(), vault, Felt::new(1)).unwrap();
    refused(delta.with_code(code.clone()));

    let empty = ProtocolDelta::new(
        account.id(),
        AccountStorageDelta::new(),
        AccountVaultDelta::default(),
        Felt::new(0),
    );
    refused(empty.unwrap().with_code(code));
}

#[test]
fn notes_are_placed_batch_by_batch() {
    let note = |num| OutputNote::Private {
        header: NoteHeader { note_id: Word(num, 0, 0, 0), metadata: vec![] },
    };
    let placed = place_notes(vec![vec![(1, note(1)), (4, note(2))], vec![], vec![(1, note(3))]]);
    let index = |batch_idx, note_idx_in_batch| BlockNoteIndex { batch_idx, note_idx_in_batch };
    assert_eq!(
        placed,
        vec![(index(0, 1), note(1)), (index(0, 4), note(2)), (index(2, 1), note(3))]
    );
}
