use miden_node_store::account_id::{AccountId, AccountStorageMode};
use miden_node_store::account_state_forest::forest::AccountStateForest;
use miden_node_store::block_number::BlockNumber;
use miden_node_store::db::delta::{MapDelta, StorageDelta, VaultDelta};
use miden_node_store::db::updates::{AccountDelta, AccountUpdateDetails, BlockAccountUpdate};
use miden_node_store::errors::{DataCorruption, DatabaseError, GetAccountError};
use miden_node_store::state::account::{
    apply_all_storage_maps_response_budget, estimate_storage_map_details_field_len,
    expand_account_storage_request, protobuf_bytes_field_len, response_size,
    storage_map_details_field_len, AccountDetailRequest, AccountHeader, AccountStorageHeader, AccountStorageMapDetails,
    AccountStorageRequest, AccountVaultDetails, Asset, ResponseFrame, SlotData,
    StorageMapEntries, StorageMapRequest, StorageSlotHeader, StorageSlotType,
    MAX_STORAGE_SLOTS, RESPONSE_HEADROOM_BYTES, STORAGE_MAP_LIMIT_EXCEEDED_FIELD_MAX_LEN,
};
use miden_node_store::state::account_details::{
    account_witness_block, assemble_account_details, check_account_details_request,
    check_account_request, get_account_witness, plan_account_details, AccountDetailsPlan,
    AllEntriesQuery, MapKeysQuery,
};
use miden_node_store::state::details_reader::{
    get_storage_map_details_from_forest, raw_keys_to_cache, DetailsReader,
};
use miden_node_store::word::Word;
use miden_protocol::account::{StorageMapKey, StorageSlotName};
use miden_protocol::testing::account_id::AccountIdBuilder;

const EMPTY_WORD: Word = Word(0, 0, 0, 0);

/// The sizes of a response around its storage maps.
const FRAME: ResponseFrame =
    ResponseFrame { outer_len: 400, details_len: 150, storage_len: 150 };

const MAX_RESPONSE_PAYLOAD_BYTES: usize = 4 * 1024 * 1024;

fn slot(index: usize) -> String {
    StorageSlotName::mock(index).as_str().to_string()
}

fn slot_header(name: String, slot_type: StorageSlotType) -> StorageSlotHeader {
    StorageSlotHeader { name, slot_type, value: EMPTY_WORD }
}

fn storage_header() -> AccountStorageHeader {
    AccountStorageHeader {
        slots: vec![
            slot_header(slot(0), StorageSlotType::ValueSlot),
            slot_header(slot(1), StorageSlotType::MapSlot),
            slot_header(slot(2), StorageSlotType::MapSlot),
        ],
    }
}

fn account_id() -> AccountId {
    let id = AccountIdBuilder::new().build_with_seed([42; 32]);
    AccountId { prefix: id.prefix().as_u64(), suffix: id.suffix().as_canonical_u64() }
}

fn account_with_mode(
    storage_mode: miden_protocol::account::AccountStorageMode,
) -> AccountId {
    let id = AccountIdBuilder::new().storage_mode(storage_mode).build_with_seed([7; 32]);
    AccountId { prefix: id.prefix().as_u64(), suffix: id.suffix().as_canonical_u64() }
}

fn account_header() -> AccountHeader {
    AccountHeader {
        id: account_id(),
        nonce: 0,
        vault_root: Word(1, 1, 1, 1),
        storage_commitment: EMPTY_WORD,
        code_commitment: Word(2, 2, 2, 2),
    }
}

fn map_key(index: u32) -> Word {
    let word: miden_protocol::Word = StorageMapKey::from_index(index).into();
    let [a, b, c, d] = word.into_elements().map(|element| element.as_canonical_u64());
    Word(a, b, c, d)
}

fn map_details(slot_name: String, value: Word) -> AccountStorageMapDetails {
    AccountStorageMapDetails {
        slot_name,
        entries: StorageMapEntries::AllEntries(vec![(map_key(1), value)]),
    }
}

fn map_details_with_entries(slot_name: String, entry_count: u8) -> AccountStorageMapDetails {
    AccountStorageMapDetails {
        slot_name,
        entries: StorageMapEntries::AllEntries(
            (1..=entry_count)
                .map(|index| (map_key(u32::from(index)), Word(u64::from(index), 0, 0, 0)))
                .collect(),
        ),
    }
}

fn encoded_len(maps: &[AccountStorageMapDetails]) -> usize {
    response_size(FRAME, maps.iter().map(storage_map_details_field_len).sum()).unwrap()
}

fn marker_only_budget(slot_names: &[String]) -> usize {
    let markers: Vec<_> =
        slot_names.iter().cloned().map(AccountStorageMapDetails::limit_exceeded).collect();
    encoded_len(&markers)
}

// STORAGE REQUESTS
// ================================================================================================

#[test]
fn all_storage_maps_expands_only_map_slots() {
    let requests =
        expand_account_storage_request(AccountStorageRequest::AllStorageMaps, &storage_header());

    assert_eq!(requests.len(), 2);
    assert_eq!(requests[0].slot_name, slot(1));
    assert_eq!(requests[1].slot_name, slot(2));
    assert!(requests.iter().all(|request| request.slot_data == SlotData::All));
}

#[test]
fn explicit_storage_maps_are_preserved() {
    let explicit = vec![StorageMapRequest { slot_name: slot(2), slot_data: SlotData::All }];

    let requests = expand_account_storage_request(
        AccountStorageRequest::Explicit(explicit.clone()),
        &storage_header(),
    );

    assert_eq!(requests, explicit);
    assert_eq!(requests[0].slot_name, slot(2));
}

#[test]
fn absent_storage_slot_data_expands_to_no_requests() {
    let requests =
        expand_account_storage_request(AccountStorageRequest::NoMaps, &storage_header());

    assert!(requests.is_empty());
}

// SIZES
// ================================================================================================

#[test]
fn limit_exceeded_max_size_covers_max_slot_name() {
    let max_slot_name = StorageSlotName::new(format!("a::{}", "a".repeat(252))).unwrap();
    let details =
        AccountStorageMapDetails::limit_exceeded(max_slot_name.as_str().to_string());

    assert!(STORAGE_MAP_LIMIT_EXCEEDED_FIELD_MAX_LEN >= storage_map_details_field_len(&details));
    assert_eq!(storage_map_details_field_len(&details), 263);
}

#[test]
fn all_entries_size_estimate_covers_actual_protobuf_size() {
    let details = map_details(slot(1), Word(1, 0, 0, 0));
    let actual = storage_map_details_field_len(&details);

    assert!(estimate_storage_map_details_field_len(&details) >= actual);
}

#[test]
fn fields_have_a_key_and_a_length() {
    assert_eq!(protobuf_bytes_field_len(1, 0), 2);
    assert_eq!(protobuf_bytes_field_len(1, 127), 129);
    assert_eq!(protobuf_bytes_field_len(1, 128), 131);
    assert_eq!(protobuf_bytes_field_len(16, 5), 8);
    assert_eq!(protobuf_bytes_field_len(3, 16_384), 16_388);
}

// RESPONSE BUDGET
// ================================================================================================

#[test]
fn all_storage_maps_budget_marks_maps_as_limit_exceeded_when_budget_is_exhausted() {
    let slot_1 = slot(1);
    let slot_2 = slot(2);
    let budget = marker_only_budget(&[slot_1.clone(), slot_2.clone()]);
    let details = apply_all_storage_maps_response_budget(
        account_header(),
        None,
        AccountVaultDetails::empty(),
        storage_header(),
        vec![
            map_details_with_entries(slot_1.clone(), 8),
            map_details_with_entries(slot_2.clone(), 8),
        ],
        vec![slot_1.clone(), slot_2.clone()],
        FRAME,
        budget,
    );

    assert_eq!(details.storage_details.map_details.len(), 2);
    assert_eq!(details.storage_details.map_details[0].slot_name, slot_1);
    assert_eq!(details.storage_details.map_details[0].entries, StorageMapEntries::LimitExceeded);
    assert_eq!(details.storage_details.map_details[1].slot_name, slot_2);
    assert_eq!(details.storage_details.map_details[1].entries, StorageMapEntries::LimitExceeded);
}

#[test]
fn all_storage_maps_budget_stays_under_hard_cap_with_many_limit_exceeded_maps() {
    let mut slot_names: Vec<_> = (1..10).map(StorageSlotName::mock).collect();
    slot_names.sort();
    let slot_names: Vec<String> =
        slot_names.iter().map(|name| name.as_str().to_string()).collect();
    let storage_header = AccountStorageHeader {
        slots: slot_names
            .iter()
            .map(|name| slot_header(name.clone(), StorageSlotType::MapSlot))
            .collect(),
    };
    let hard_cap = marker_only_budget(&slot_names);

    let details = apply_all_storage_maps_response_budget(
        account_header(),
        None,
        AccountVaultDetails::empty(),
        storage_header,
        slot_names.iter().map(|name| map_details_with_entries(name.clone(), 8)).collect(),
        slot_names.clone(),
        FRAME,
        hard_cap,
    );

    let maps = &details.storage_details.map_details;
    assert_eq!(maps.len(), slot_names.len());
    assert!(maps.iter().all(|details| details.entries == StorageMapEntries::LimitExceeded));
    assert!(encoded_len(maps) <= hard_cap);
}

#[test]
fn all_storage_maps_budget_keeps_entries_that_fit() {
    let slot_1 = slot(1);
    let details = apply_all_storage_maps_response_budget(
        account_header(),
        None,
        AccountVaultDetails::empty(),
        storage_header(),
        vec![map_details(slot_1.clone(), Word(1, 0, 0, 0))],
        vec![slot_1.clone()],
        FRAME,
        usize::MAX,
    );

    assert_eq!(details.storage_details.map_details.len(), 1);
    assert_eq!(details.storage_details.map_details[0].slot_name, slot_1);
    assert!(matches!(
        details.storage_details.map_details[0].entries,
        StorageMapEntries::AllEntries(_)
    ));
}

#[test]
fn a_map_that_fits_is_kept_beside_one_that_does_not() {
    let large = map_details_with_entries(slot(1), 200);
    let small = map_details_with_entries(slot(2), 1);
    let markers = 2 * STORAGE_MAP_LIMIT_EXCEEDED_FIELD_MAX_LEN;
    let details = apply_all_storage_maps_response_budget(
        account_header(),
        Some(vec![1, 2]),
        AccountVaultDetails::empty(),
        storage_header(),
        vec![large, small.clone()],
        vec![slot(1), slot(2)],
        FRAME,
        response_size(FRAME, 0).unwrap() + markers + 10,
    );

    assert_eq!(
        details.storage_details.map_details,
        vec![AccountStorageMapDetails::limit_exceeded(slot(1)), small]
    );
    assert_eq!(details.account_code, Some(vec![1, 2]));
    assert_eq!(details.account_header, account_header());
    assert_eq!(details.storage_details.header, storage_header());
}

/// The budget of one small map, with the given limit.
fn budget_one_map(limit: usize) -> Vec<AccountStorageMapDetails> {
    apply_all_storage_maps_response_budget(
        account_header(),
        None,
        AccountVaultDetails::empty(),
        storage_header(),
        vec![map_details(slot(1), Word(1, 0, 0, 0))],
        vec![slot(1)],
        FRAME,
        limit,
    )
    .storage_details
    .map_details
}

#[test]
fn a_small_map_is_marked_where_only_its_mark_fits() {
    let limit = marker_only_budget(&[slot(1)]);
    let maps = budget_one_map(limit);
    assert_eq!(maps, vec![AccountStorageMapDetails::limit_exceeded(slot(1))]);
    assert!(encoded_len(&maps) <= limit);
}

#[test]
fn a_small_map_is_kept_where_it_fits() {
    let map = map_details(slot(1), Word(1, 0, 0, 0));
    let estimate = estimate_storage_map_details_field_len(&map);
    let limit = response_size(FRAME, estimate).unwrap();
    assert_eq!(budget_one_map(limit), vec![map.clone()]);
    assert_eq!(
        budget_one_map(limit - 1),
        vec![AccountStorageMapDetails::limit_exceeded(slot(1))]
    );
    assert!(encoded_len(&[map]) <= limit);
}

#[test]
fn responses_count_the_lengths_of_their_messages() {
    assert_eq!(response_size(FRAME, 0), Some(400 + 2 + 150 + 2 + 150));
    let frame = ResponseFrame { outer_len: 1, details_len: 2, storage_len: 3 };
    assert_eq!(response_size(frame, 0), Some(8));
    assert_eq!(response_size(frame, 125), Some(1 + 2 + 2 + 2 + 128));
    assert_eq!(response_size(frame, usize::MAX), None);
}

#[test]
fn marks_fit_into_the_room_beyond_the_limit() {
    let limit = MAX_RESPONSE_PAYLOAD_BYTES
        - MAX_STORAGE_SLOTS * STORAGE_MAP_LIMIT_EXCEEDED_FIELD_MAX_LEN
        - RESPONSE_HEADROOM_BYTES;
    let inner = response_size(ResponseFrame { outer_len: 0, ..FRAME }, 0).unwrap();
    let frame = ResponseFrame { outer_len: limit - inner, ..FRAME };
    assert_eq!(response_size(frame, 0), Some(limit));
    let names: Vec<String> = (0..MAX_STORAGE_SLOTS).map(slot).collect();
    let maps = names.iter().map(|name| map_details_with_entries(name.clone(), 3)).collect();
    let details = apply_all_storage_maps_response_budget(
        account_header(),
        None,
        AccountVaultDetails::empty(),
        storage_header(),
        maps,
        names.clone(),
        frame,
        limit,
    );
    let kept = details.storage_details.map_details;
    let marks: Vec<_> = names.into_iter().map(AccountStorageMapDetails::limit_exceeded).collect();
    assert_eq!(kept, marks);
    let maps_len = kept.iter().map(storage_map_details_field_len).sum();
    let size = response_size(frame, maps_len).unwrap();
    assert!(limit < size && size <= MAX_RESPONSE_PAYLOAD_BYTES);
}

// ACCOUNT REQUESTS
// ================================================================================================

fn block(number: u32) -> BlockNumber {
    BlockNumber::from(number)
}

#[test]
fn details_exist_of_public_accounts_only() {
    let public = account_with_mode(miden_protocol::account::AccountStorageMode::Public);
    let private = account_with_mode(miden_protocol::account::AccountStorageMode::Private);
    assert_eq!(public.storage_mode(), Some(AccountStorageMode::Public));
    assert_eq!(private.storage_mode(), Some(AccountStorageMode::Private));
    assert_eq!(check_account_request(public, true), Ok(()));
    assert_eq!(check_account_request(private, false), Ok(()));
    assert_eq!(
        check_account_request(private, true),
        Err(GetAccountError::AccountNotPublic(private))
    );
    assert_eq!(check_account_details_request(public, block(3), block(3)), Ok(()));
    assert_eq!(
        check_account_details_request(public, block(4), block(3)),
        Err(GetAccountError::UnknownBlock(block(4)))
    );
    assert_eq!(
        check_account_details_request(private, block(4), block(3)),
        Err(GetAccountError::AccountNotPublic(private))
    );
}

#[test]
fn witnesses_are_of_the_requested_block() {
    assert_eq!(account_witness_block(Some(block(3)), block(9)), block(3));
    assert_eq!(account_witness_block(None, block(9)), block(9));
    assert_eq!(get_account_witness(block(3), Some("witness"), block(9)), Ok((block(3), "witness")));
    assert_eq!(
        get_account_witness::<u8>(block(3), None, block(9)),
        Err(GetAccountError::BlockPruned(block(3)))
    );
    assert_eq!(
        get_account_witness::<u8>(block(10), None, block(9)),
        Err(GetAccountError::UnknownBlock(block(10)))
    );
}

#[test]
fn only_what_the_caller_lacks_is_queried() {
    let header = account_header();
    let keys = vec![map_key(4), map_key(5)];
    let request = AccountDetailRequest {
        code_commitment: Some(EMPTY_WORD),
        asset_vault_commitment: Some(header.vault_root),
        storage_request: AccountStorageRequest::Explicit(vec![
            StorageMapRequest { slot_name: slot(2), slot_data: SlotData::All },
            StorageMapRequest { slot_name: slot(1), slot_data: SlotData::MapKeys(keys.clone()) },
        ]),
    };
    let plan = plan_account_details(
        account_id(),
        block(3),
        Some((header, storage_header())),
        request.clone(),
    )
    .unwrap();
    assert_eq!(
        plan,
        AccountDetailsPlan {
            account_header: header,
            storage_header: storage_header(),
            code_query: Some(header.code_commitment),
            vault_query: false,
            slot_names: vec![slot(2), slot(1)],
            map_keys_queries: vec![MapKeysQuery { index: 1, slot_name: slot(1), keys }],
            all_entries_queries: vec![AllEntriesQuery { index: 0, slot_name: slot(2) }],
            apply_response_budget: false,
        }
    );
    assert_eq!(
        plan_account_details(account_id(), block(3), None, request),
        Err(GetAccountError::AccountNotFound(account_id(), block(3)))
    );
}

#[test]
fn answers_are_put_together_in_the_order_of_the_request() {
    let header = account_header();
    let request = AccountDetailRequest {
        code_commitment: None,
        asset_vault_commitment: Some(EMPTY_WORD),
        storage_request: AccountStorageRequest::AllStorageMaps,
    };
    let plan = plan_account_details(
        account_id(),
        block(3),
        Some((header, storage_header())),
        request,
    )
    .unwrap();
    assert!(plan.vault_query);
    assert!(plan.apply_response_budget);
    let vault = AccountVaultDetails::Assets(vec![Asset { key: map_key(1), value: map_key(2) }]);
    let maps = vec![map_details(slot(1), map_key(3)), map_details(slot(2), map_key(4))];
    let answers: Vec<_> = maps.iter().cloned().map(Some).collect();

    let details = assemble_account_details(
        account_id(),
        block(3),
        plan.clone(),
        Some(vec![9]),
        vault.clone(),
        answers,
        FRAME,
        MAX_RESPONSE_PAYLOAD_BYTES,
    )
    .unwrap();
    assert_eq!(details.account_header, header);
    assert_eq!(details.account_code, None, "the code was not asked for");
    assert_eq!(details.vault_details, vault);
    assert_eq!(details.storage_details.map_details, maps);

    assert_eq!(
        assemble_account_details(
            account_id(),
            block(3),
            plan,
            None,
            vault,
            vec![Some(maps[0].clone()), None],
            FRAME,
            MAX_RESPONSE_PAYLOAD_BYTES,
        ),
        Err(GetAccountError::DatabaseError(DatabaseError::StorageRootNotFound {
            account_id: account_id(),
            slot_name: slot(2),
            block_num: block(3),
        }))
    );
}

fn forest_with_account() -> AccountStateForest {
    let mut forest = AccountStateForest::new();
    let update = BlockAccountUpdate {
        account_id: account_id(),
        final_state_commitment: Word(1, 2, 3, 4),
        details: AccountUpdateDetails::Delta(AccountDelta {
            storage: StorageDelta {
                values: vec![],
                maps: [1, 2]
                    .map(|index| MapDelta {
                        slot_name: slot(index),
                        entries: vec![(map_key(1), map_key(3))],
                    })
                    .to_vec(),
            },
            vault: VaultDelta { fungible: vec![], non_fungible: vec![] },
            nonce_delta: 1,
        }),
    };
    forest.update_account(block(2), &update).unwrap();
    forest
}

fn explicit_plan(requests: Vec<StorageMapRequest>, vault: Option<Word>) -> AccountDetailsPlan {
    plan_account_details(
        account_id(),
        block(3),
        Some((account_header(), storage_header())),
        AccountDetailRequest {
            code_commitment: None,
            asset_vault_commitment: vault,
            storage_request: AccountStorageRequest::Explicit(requests),
        },
    )
    .unwrap()
}

#[test]
fn queries_are_answered_from_the_forest() {
    let mut forest = forest_with_account();
    let requests = vec![
        StorageMapRequest { slot_name: slot(2), slot_data: SlotData::All },
        StorageMapRequest { slot_name: slot(1), slot_data: SlotData::MapKeys(vec![map_key(1)]) },
    ];
    let plan = explicit_plan(requests, None);
    let mut reader =
        DetailsReader::new(&forest, account_id(), block(3), &plan, 1000).unwrap();
    assert_eq!(reader.vault, AccountVaultDetails::Assets(vec![]));
    assert_eq!(reader.maps[0], None);
    assert!(matches!(
        &reader.maps[1],
        Some(AccountStorageMapDetails { slot_name, entries: StorageMapEntries::EntriesWithProofs(_) })
            if *slot_name == slot(1)
    ));

    forest.clear_storage_map_key_cache();
    assert_eq!(
        reader.answer_all_entries(&forest, account_id(), block(3), &plan, 1000),
        Ok(false),
        "the forest does not know the keys"
    );
    let rebuilt = map_details(slot(2), map_key(3));
    assert_eq!(raw_keys_to_cache(&rebuilt), vec![map_key(1)]);
    reader.add_rebuilt(&mut forest, &plan, rebuilt.clone());
    assert_eq!(reader.answered, 1);
    assert_eq!(reader.maps[0], Some(rebuilt.clone()));
    let details = assemble_account_details(
        account_id(),
        block(3),
        plan.clone(),
        None,
        reader.vault.clone(),
        reader.maps.clone(),
        FRAME,
        MAX_RESPONSE_PAYLOAD_BYTES,
    )
    .unwrap();
    assert_eq!(
        details.storage_details.map_details,
        reader.maps.into_iter().flatten().collect::<Vec<_>>()
    );

    let mut again = DetailsReader::new(&forest, account_id(), block(3), &plan, 1000).unwrap();
    assert_eq!(
        again.answer_all_entries(&forest, account_id(), block(3), &plan, 1000),
        Ok(true),
        "the forest has learned the keys"
    );
    assert_eq!(again.maps[0], Some(rebuilt));
    assert_eq!(
        get_storage_map_details_from_forest(&forest, account_id(), &slot(2), block(3), 0),
        Ok(Some(AccountStorageMapDetails::limit_exceeded(slot(2))))
    );
    assert!(raw_keys_to_cache(&AccountStorageMapDetails::limit_exceeded(slot(1))).is_empty());
}

#[test]
fn maps_that_the_forest_does_not_know_are_reported() {
    let forest = forest_with_account();
    let not_found = DatabaseError::StorageRootNotFound {
        account_id: account_id(),
        slot_name: slot(7),
        block_num: block(3),
    };
    let failed = Err(GetAccountError::DatabaseError(not_found.clone()));
    let request = |slot_data| vec![StorageMapRequest { slot_name: slot(7), slot_data }];

    let plan = explicit_plan(request(SlotData::MapKeys(vec![map_key(1)])), None);
    assert_eq!(DetailsReader::new(&forest, account_id(), block(3), &plan, 1000), failed);

    let plan = explicit_plan(request(SlotData::All), None);
    let mut reader =
        DetailsReader::new(&forest, account_id(), block(3), &plan, 1000).unwrap();
    assert_eq!(
        reader.answer_all_entries(&forest, account_id(), block(3), &plan, 1000),
        failed.map(|_| true)
    );
    assert_eq!(
        get_storage_map_details_from_forest(&forest, account_id(), &slot(7), block(3), 1000),
        Err(not_found)
    );

    let plan = explicit_plan(request(SlotData::MapKeys(vec![])), Some(EMPTY_WORD));
    assert_eq!(
        DetailsReader::new(&forest, account_id(), block(3), &plan, 1000),
        Err(GetAccountError::DatabaseError(DatabaseError::DataCorrupted(
            DataCorruption::VaultNotReconstructed(account_id(), block(3))
        ))),
        "the forest holds no vault of the account"
    );
}
