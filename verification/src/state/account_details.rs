//! The steps of an account request between the queries it makes: what is checked first, which
//! queries follow from the request, and how their answers make up the response.

use vstd::prelude::*;

use crate::account_id::AccountId;
use crate::block_number::BlockNumber;
use crate::errors::{DatabaseError, GetAccountError};
use crate::state::account::{
    apply_all_storage_maps_response_budget, are_slot_names, expand_account_storage_request,
    is_budgeted, is_measurable, map_slots, maps_field_len, markers_len, requests_all_of,
    response_len, AccountDetailRequest, AccountDetails, AccountHeader, AccountStorageDetails,
    AccountStorageHeader, AccountStorageMapDetails, AccountStorageRequest, AccountVaultDetails,
    ResponseFrame, SlotData, StorageMapRequest, MAX_STORAGE_SLOTS, RESPONSE_HEADROOM_BYTES,
    STORAGE_MAP_LIMIT_EXCEEDED_FIELD_MAX_LEN,
};
use crate::word::Word;

verus! {

// WITNESS
// ================================================================================================

/// Checks an account request before any query: details exist only of public accounts.
pub fn check_account_request(account_id: AccountId, details_requested: bool) -> (r: Result<
    (),
    GetAccountError,
>)
    ensures
        r == (if details_requested && !account_id.is_public() {
            Err::<(), GetAccountError>(GetAccountError::AccountNotPublic(account_id))
        } else {
            Ok(())
        }),
{
    if details_requested && !account_id.is_public() {
        return Err(GetAccountError::AccountNotPublic(account_id));
    }
    Ok(())
}

/// The block at which the account tree is opened: the requested one, or the latest.
pub fn account_witness_block(
    requested: Option<BlockNumber>,
    latest_block: BlockNumber,
) -> (r: BlockNumber)
    ensures
        r == (match requested {
            Some(block_num) => block_num,
            None => latest_block,
        }),
{
    match requested {
        Some(block_num) => block_num,
        None => latest_block,
    }
}

/// Takes the witness that the account tree holds for a block, `None` if the tree does not keep the
/// block. A missing block is unknown if it lies past the latest block, and pruned otherwise.
pub fn get_account_witness<W>(
    block_num: BlockNumber,
    witness: Option<W>,
    latest_block: BlockNumber,
) -> (r: Result<(BlockNumber, W), GetAccountError>)
    ensures
        match witness {
            Some(witness) => r == Ok::<(BlockNumber, W), GetAccountError>((block_num, witness)),
            None => r == Err::<(BlockNumber, W), GetAccountError>(
                if block_num@ > latest_block@ {
                    GetAccountError::UnknownBlock(block_num)
                } else {
                    GetAccountError::BlockPruned(block_num)
                },
            ),
        },
{
    match witness {
        Some(witness) => Ok((block_num, witness)),
        None => if block_num.0 > latest_block.0 {
            Err(GetAccountError::UnknownBlock(block_num))
        } else {
            Err(GetAccountError::BlockPruned(block_num))
        },
    }
}

// QUERY PLAN
// ================================================================================================

/// A query of the forest for the proofs of single keys of a storage map.
#[derive(Clone, Debug, PartialEq, Eq)]
pub struct MapKeysQuery {
    /// The position of the map in the response.
    pub index: usize,
    pub slot_name: String,
    pub keys: Vec<Word>,
}

/// A query for all entries of a storage map.
#[derive(Clone, Debug, PartialEq, Eq)]
pub struct AllEntriesQuery {
    /// The position of the map in the response.
    pub index: usize,
    pub slot_name: String,
}

/// The queries that an account request makes once the headers of the account are known.
#[derive(Clone, Debug, PartialEq, Eq)]
pub struct AccountDetailsPlan {
    pub account_header: AccountHeader,
    pub storage_header: AccountStorageHeader,
    /// The commitment whose code is queried, if it is.
    pub code_query: Option<Word>,
    /// Whether the assets of the vault are queried.
    pub vault_query: bool,
    /// The slot names of the storage maps, in the order of the response.
    pub slot_names: Vec<String>,
    pub map_keys_queries: Vec<MapKeysQuery>,
    pub all_entries_queries: Vec<AllEntriesQuery>,
    /// Whether the storage maps are subject to the payload budget.
    pub apply_response_budget: bool,
}

/// The slot names of requests, in order.
pub open spec fn request_slot_names(requests: Seq<StorageMapRequest>) -> Seq<String> {
    requests.map_values(|request: StorageMapRequest| request.slot_name)
}

/// The queries for single keys among requests, in order, each with the position of its request.
pub open spec fn map_keys_queries_of(requests: Seq<StorageMapRequest>) -> Seq<MapKeysQuery>
    decreases requests.len(),
{
    if requests.len() == 0 {
        Seq::empty()
    } else {
        let before = map_keys_queries_of(requests.drop_last());
        let request = requests.last();
        match request.slot_data {
            SlotData::MapKeys(keys) => before.push(
                MapKeysQuery {
                    index: (requests.len() - 1) as usize,
                    slot_name: request.slot_name,
                    keys,
                },
            ),
            SlotData::All => before,
        }
    }
}

/// The queries for all entries among requests, in order, each with the position of its request.
pub open spec fn all_entries_queries_of(requests: Seq<StorageMapRequest>) -> Seq<AllEntriesQuery>
    decreases requests.len(),
{
    if requests.len() == 0 {
        Seq::empty()
    } else {
        let before = all_entries_queries_of(requests.drop_last());
        let request = requests.last();
        match request.slot_data {
            SlotData::MapKeys(_) => before,
            SlotData::All => before.push(
                AllEntriesQuery {
                    index: (requests.len() - 1) as usize,
                    slot_name: request.slot_name,
                },
            ),
        }
    }
}

/// Whether `plan` holds the storage queries that `requests` ask for.
pub open spec fn plans_requests(plan: AccountDetailsPlan, requests: Seq<StorageMapRequest>) -> bool {
    &&& plan.slot_names@ == request_slot_names(requests)
    &&& plan.map_keys_queries@ == map_keys_queries_of(requests)
    &&& plan.all_entries_queries@ == all_entries_queries_of(requests)
}

/// What a request for `requested`, the commitment that the caller has, if any, has to be answered
/// with: nothing if it is not asked for or already known.
pub open spec fn is_stale(requested: Option<Word>, current: Word) -> bool {
    requested matches Some(commitment) && commitment != current
}

/// Checks a detail request before the headers of the account are queried.
pub fn check_account_details_request(
    account_id: AccountId,
    block_num: BlockNumber,
    latest_block: BlockNumber,
) -> (r: Result<(), GetAccountError>)
    ensures
        r == (if !account_id.is_public() {
            Err::<(), GetAccountError>(GetAccountError::AccountNotPublic(account_id))
        } else if block_num@ > latest_block@ {
            Err(GetAccountError::UnknownBlock(block_num))
        } else {
            Ok(())
        }),
{
    if !account_id.is_public() {
        return Err(GetAccountError::AccountNotPublic(account_id));
    }
    if block_num.0 > latest_block.0 {
        return Err(GetAccountError::UnknownBlock(block_num));
    }
    Ok(())
}

/// Plans the queries of a detail request.
///
/// `headers` are the headers of the account at the block, `None` if the account did not exist.
/// Code and vault are queried only if the caller gave a commitment that differs from the account's.
pub fn plan_account_details(
    account_id: AccountId,
    block_num: BlockNumber,
    headers: Option<(AccountHeader, AccountStorageHeader)>,
    detail_request: AccountDetailRequest,
) -> (r: Result<AccountDetailsPlan, GetAccountError>)
    ensures
        headers is None ==> r == Err::<AccountDetailsPlan, GetAccountError>(
            GetAccountError::AccountNotFound(account_id, block_num),
        ),
        headers matches Some((account_header, storage_header)) ==> {
            &&& r matches Ok(plan)
            &&& plan.account_header == account_header
            &&& plan.storage_header == storage_header
            &&& plan.code_query == (if is_stale(
                detail_request.code_commitment,
                account_header.code_commitment,
            ) {
                Some(account_header.code_commitment)
            } else {
                None
            })
            &&& plan.vault_query == is_stale(
                detail_request.asset_vault_commitment,
                account_header.vault_root,
            )
            &&& plan.code_query == (match detail_request.code_commitment {
                Some(known) if known != account_header.code_commitment => Some(
                    account_header.code_commitment,
                ),
                _ => None,
            })
            &&& plan.vault_query == (match detail_request.asset_vault_commitment {
                Some(known) => known != account_header.vault_root,
                None => false,
            })
            &&& plan.apply_response_budget == (detail_request.storage_request is AllStorageMaps)
            &&& match detail_request.storage_request {
                AccountStorageRequest::NoMaps => plans_requests(plan, Seq::empty()),
                AccountStorageRequest::Explicit(requests) => plans_requests(plan, requests@),
                AccountStorageRequest::AllStorageMaps => exists|requests: Seq<StorageMapRequest>|
                    {
                        &&& requests_all_of(requests, map_slots(storage_header.slots@))
                        &&& #[trigger] plans_requests(plan, requests)
                    },
            }
        },
{
    let AccountDetailRequest { code_commitment, asset_vault_commitment, storage_request } =
        detail_request;
    let (account_header, storage_header) = match headers {
        Some(headers) => headers,
        None => return Err(GetAccountError::AccountNotFound(account_id, block_num)),
    };
    let apply_response_budget = matches!(storage_request, AccountStorageRequest::AllStorageMaps);
    let storage_requests = expand_account_storage_request(storage_request, &storage_header);
    let ghost requests = storage_requests@;

    let code_query: Option<Word> = match code_commitment {
        Some(commitment) => if commitment == account_header.code_commitment {
            None
        } else {
            Some(account_header.code_commitment)
        },
        None => None,
    };
    let vault_query: bool = match asset_vault_commitment {
        Some(commitment) => commitment != account_header.vault_root,
        None => false,
    };

    let mut slot_names: Vec<String> = Vec::new();
    let mut map_keys_queries: Vec<MapKeysQuery> = Vec::new();
    let mut all_entries_queries: Vec<AllEntriesQuery> = Vec::new();
    let request_count: usize = storage_requests.len();
    let mut index: usize = 0;
    for request in requests_iter: storage_requests
        invariant
            requests_iter.seq() == requests,
            request_count == requests.len(),
            index == requests_iter.index(),
            slot_names@ == request_slot_names(requests.take(index as int)),
            map_keys_queries@ == map_keys_queries_of(requests.take(index as int)),
            all_entries_queries@ == all_entries_queries_of(requests.take(index as int)),
    {
        proof {
            let upto = requests.take(index + 1);
            assert(request == requests[index as int]);
            assert(upto.drop_last() =~= requests.take(index as int));
            assert(upto.last() == request);
            assert(request_slot_names(upto) =~= request_slot_names(
                requests.take(index as int),
            ).push(request.slot_name));
        }
        let StorageMapRequest { slot_name, slot_data } = request;
        slot_names.push(slot_name.clone());
        match slot_data {
            SlotData::MapKeys(keys) => {
                map_keys_queries.push(MapKeysQuery { index, slot_name, keys });
            },
            SlotData::All => {
                all_entries_queries.push(AllEntriesQuery { index, slot_name });
            },
        }
        index = index + 1;
    }
    assert(requests.take(index as int) =~= requests);

    let plan = AccountDetailsPlan {
        account_header,
        storage_header,
        code_query,
        vault_query,
        slot_names,
        map_keys_queries,
        all_entries_queries,
        apply_response_budget,
    };
    assert(plans_requests(plan, requests));
    Ok(plan)
}

/// Every requested map is queried exactly once: the positions of the two kinds of queries are
/// distinct and together are all positions of the requests.
pub proof fn lemma_queries_partition_requests(requests: Seq<StorageMapRequest>, i: int)
    requires
        0 <= i < requests.len() <= usize::MAX,
    ensures
        requests[i].slot_data is MapKeys <==> exists|k: int|
            0 <= k < map_keys_queries_of(requests).len() && #[trigger] map_keys_queries_of(
                requests,
            )[k].index == i,
        requests[i].slot_data is All <==> exists|k: int|
            0 <= k < all_entries_queries_of(requests).len() && #[trigger] all_entries_queries_of(
                requests,
            )[k].index == i,
    decreases requests.len(),
{
    let last = requests.len() - 1;
    let before = requests.drop_last();
    let keys = map_keys_queries_of(requests);
    let all = all_entries_queries_of(requests);
    let keys_before = map_keys_queries_of(before);
    let all_before = all_entries_queries_of(before);
    lemma_query_positions(before);
    if i < last {
        lemma_queries_partition_requests(before, i);
        assert(before[i] == requests[i]);
        if requests[i].slot_data is MapKeys {
            let k = choose|k: int| 0 <= k < keys_before.len() && #[trigger] keys_before[k].index == i;
            assert(keys[k] == keys_before[k]);
        } else {
            let k = choose|k: int| 0 <= k < all_before.len() && #[trigger] all_before[k].index == i;
            assert(all[k] == all_before[k]);
        }
        assert forall|k: int| 0 <= k < keys.len() && #[trigger] keys[k].index == i implies exists|
            j: int,
        | 0 <= j < keys_before.len() && #[trigger] keys_before[j].index == i by {
            assert(k < keys_before.len());
            assert(keys_before[k].index == i);
        }
        assert forall|k: int| 0 <= k < all.len() && #[trigger] all[k].index == i implies exists|
            j: int,
        | 0 <= j < all_before.len() && #[trigger] all_before[j].index == i by {
            assert(k < all_before.len());
            assert(all_before[k].index == i);
        }
    } else if requests[i].slot_data is MapKeys {
        assert(keys[keys_before.len() as int].index == i);
        assert forall|k: int| 0 <= k < all.len() implies #[trigger] all[k].index != i by {
            assert(all[k] == all_before[k]);
        }
    } else {
        assert(all[all_before.len() as int].index == i);
        assert forall|k: int| 0 <= k < keys.len() implies #[trigger] keys[k].index != i by {
            assert(keys[k] == keys_before[k]);
        }
    }
}

/// The queries are in the order of the requests, each with the position and the slot name of its
/// request.
pub proof fn lemma_query_positions(requests: Seq<StorageMapRequest>)
    requires
        requests.len() <= usize::MAX,
    ensures
        forall|k: int|
            0 <= k < map_keys_queries_of(requests).len() ==> {
                let query = #[trigger] map_keys_queries_of(requests)[k];
                query.index < requests.len() && requests[query.index as int].slot_name
                    == query.slot_name
            },
        forall|j: int, k: int|
            0 <= j < k < map_keys_queries_of(requests).len() ==> (
            #[trigger] map_keys_queries_of(requests)[j]).index < (
            #[trigger] map_keys_queries_of(requests)[k]).index,
        forall|k: int|
            0 <= k < all_entries_queries_of(requests).len() ==> {
                let query = #[trigger] all_entries_queries_of(requests)[k];
                query.index < requests.len() && requests[query.index as int].slot_name
                    == query.slot_name
            },
    decreases requests.len(),
{
    if requests.len() > 0 {
        let before = requests.drop_last();
        let (keys, keys_before) = (map_keys_queries_of(requests), map_keys_queries_of(before));
        let (all, all_before) = (all_entries_queries_of(requests), all_entries_queries_of(before));
        lemma_query_positions(before);
        assert forall|k: int| 0 <= k < keys.len() implies {
            let query = #[trigger] keys[k];
            query.index < requests.len() && requests[query.index as int].slot_name
                == query.slot_name
        } by {
            if k < keys_before.len() {
                assert(keys[k] == keys_before[k]);
            }
        }
        assert forall|j: int, k: int| 0 <= j < k < keys.len() implies (#[trigger] keys[j]).index < (
        #[trigger] keys[k]).index by {
            assert(keys[j] == keys_before[j]);
            if k < keys_before.len() {
                assert(keys[k] == keys_before[k]);
            }
        }
        assert forall|k: int| 0 <= k < all.len() implies {
            let query = #[trigger] all[k];
            query.index < requests.len() && requests[query.index as int].slot_name
                == query.slot_name
        } by {
            if k < all_before.len() {
                assert(all[k] == all_before[k]);
            }
        }
    }
}

// RESPONSE
// ================================================================================================

/// The payload limit of responses with all storage maps: what the limit leaves once a mark for
/// each possible slot and some headroom are set aside.
pub open spec fn all_storage_maps_payload_limit(max_response_payload_bytes: nat) -> int {
    max_response_payload_bytes - MAX_STORAGE_SLOTS * STORAGE_MAP_LIMIT_EXCEEDED_FIELD_MAX_LEN
        - RESPONSE_HEADROOM_BYTES
}

/// The position of the first missing answer, or the number of answers if none is missing.
pub open spec fn first_missing(answers: Seq<Option<AccountStorageMapDetails>>) -> nat
    decreases answers.len(),
{
    if answers.len() == 0 {
        0
    } else if answers[0] is None {
        0
    } else {
        1 + first_missing(answers.drop_first())
    }
}

/// The answers before the first missing one are all there.
pub proof fn lemma_first_missing(answers: Seq<Option<AccountStorageMapDetails>>, n: nat)
    requires
        n <= answers.len(),
        forall|j: int| 0 <= j < n ==> (#[trigger] answers[j]) is Some,
        n < answers.len() ==> answers[n as int] is None,
    ensures
        first_missing(answers) == n,
    decreases n,
{
    if n > 0 {
        let rest = answers.drop_first();
        assert forall|j: int| 0 <= j < n - 1 implies (#[trigger] rest[j]) is Some by {
            assert(rest[j] == answers[j + 1]);
        }
        lemma_first_missing(rest, (n - 1) as nat);
    }
}

/// Whether `details` holds what `plan` and the answers to its queries say.
pub open spec fn answers_plan(
    details: AccountDetails,
    plan: AccountDetailsPlan,
    account_code: Option<Vec<u8>>,
    vault: AccountVaultDetails,
    maps: Seq<AccountStorageMapDetails>,
    frame: ResponseFrame,
    max_response_payload_bytes: nat,
) -> bool {
    &&& details.account_header == plan.account_header
    &&& details.storage_details.header == plan.storage_header
    &&& details.account_code == (if plan.code_query is Some {
        account_code
    } else {
        None
    })
    &&& details.vault_details == vault
    &&& if plan.apply_response_budget {
        let limit = all_storage_maps_payload_limit(max_response_payload_bytes) as nat;
        let kept = details.storage_details.map_details@;
        &&& is_budgeted(kept, maps, plan.slot_names@, frame, limit)
        &&& response_len(frame, markers_len(plan.slot_names@)) <= limit ==> response_len(
            frame,
            maps_field_len(kept),
        ) <= limit
    } else {
        details.storage_details.map_details@ == maps
    }
}

/// Puts the answers to the queries of a plan together.
///
/// `account_code` answers the code query, `vault` the vault query. `maps` holds the answers to the
/// storage queries by their positions. `frame` holds the sizes of the response around the storage
/// maps.
pub fn assemble_account_details(
    account_id: AccountId,
    block_num: BlockNumber,
    plan: AccountDetailsPlan,
    account_code: Option<Vec<u8>>,
    vault: AccountVaultDetails,
    maps: Vec<Option<AccountStorageMapDetails>>,
    frame: ResponseFrame,
    max_response_payload_bytes: usize,
) -> (r: Result<AccountDetails, GetAccountError>)
    requires
        maps@.len() == plan.slot_names@.len(),
        plan.apply_response_budget ==> {
            &&& plan.slot_names@.len() * STORAGE_MAP_LIMIT_EXCEEDED_FIELD_MAX_LEN <= usize::MAX
            &&& are_slot_names(plan.slot_names@)
            &&& all_storage_maps_payload_limit(max_response_payload_bytes as nat) >= 0
            &&& forall|i: int|
                0 <= i < maps@.len() ==> ((#[trigger] maps@[i]) matches Some(details)
                    ==> is_measurable(details))
        },
    ensures
        if first_missing(maps@) < maps@.len() {
            r == Err::<AccountDetails, GetAccountError>(
                GetAccountError::DatabaseError(
                    DatabaseError::StorageRootNotFound {
                        account_id,
                        slot_name: plan.slot_names@[first_missing(maps@) as int],
                        block_num,
                    },
                ),
            )
        } else {
            &&& r matches Ok(details)
            &&& answers_plan(
                details,
                plan,
                account_code,
                vault,
                maps@.map_values(|answer: Option<AccountStorageMapDetails>| answer.unwrap()),
                frame,
                max_response_payload_bytes as nat,
            )
        },
        r is Ok <==> forall|i: int| 0 <= i < maps@.len() ==> (#[trigger] maps@[i]) is Some,
        r matches Ok(details) ==> {
            &&& details.account_header == plan.account_header
            &&& details.storage_details.header == plan.storage_header
            &&& plan.code_query is Some ==> details.account_code == account_code
            &&& plan.code_query is None ==> details.account_code is None
            &&& details.vault_details == vault
            &&& details.storage_details.map_details@.len() == maps@.len()
            &&& !plan.apply_response_budget ==> forall|i: int|
                0 <= i < maps@.len() ==> Some(#[trigger] details.storage_details.map_details@[i])
                    == maps@[i]
            &&& plan.apply_response_budget ==> forall|i: int|
                0 <= i < maps@.len() ==> Some(#[trigger] details.storage_details.map_details@[i])
                    == maps@[i] || (details.storage_details.map_details@[i].slot_name
                    == plan.slot_names@[i]
                    && details.storage_details.map_details@[i].entries is LimitExceeded)
        },
        r matches Err(error) ==> exists|i: int|
            {
                &&& 0 <= i < maps@.len()
                &&& (#[trigger] maps@[i]) is None
                &&& forall|j: int| 0 <= j < i ==> (#[trigger] maps@[j]) is Some
                &&& error == GetAccountError::DatabaseError(
                    DatabaseError::StorageRootNotFound {
                        account_id,
                        slot_name: plan.slot_names@[i],
                        block_num,
                    },
                )
            },
{
    let account_code: Option<Vec<u8>> = match plan.code_query {
        Some(_) => account_code,
        None => None,
    };
    let ghost answers = maps@;
    let ghost unwrapped = answers.map_values(
        |answer: Option<AccountStorageMapDetails>| answer.unwrap(),
    );
    let map_count: usize = maps.len();
    let mut map_details: Vec<AccountStorageMapDetails> = Vec::new();
    let mut i: usize = 0;
    for answer in answers_iter: maps
        invariant
            answers_iter.seq() == answers,
            answers.len() == plan.slot_names@.len(),
            map_count == answers.len(),
            unwrapped == answers.map_values(
                |answer: Option<AccountStorageMapDetails>| answer.unwrap(),
            ),
            i == answers_iter.index(),
            forall|j: int| 0 <= j < i ==> (#[trigger] answers[j]) is Some,
            map_details@ =~= unwrapped.take(i as int),
    {
        assert(answer == answers[i as int]);
        match answer {
            Some(details) => map_details.push(details),
            None => {
                proof {
                    lemma_first_missing(answers, i as nat);
                }
                return Err(
                    GetAccountError::DatabaseError(
                        DatabaseError::StorageRootNotFound {
                            account_id,
                            slot_name: plan.slot_names[i].clone(),
                            block_num,
                        },
                    ),
                );
            },
        }
        i = i + 1;
    }
    proof {
        lemma_first_missing(answers, answers.len());
        assert(unwrapped.take(i as int) =~= unwrapped);
        assert forall|j: int|
            plan.apply_response_budget && 0 <= j < map_details@.len() implies is_measurable(
            #[trigger] map_details@[j],
        ) by {
            assert(answers[j] == Some(map_details@[j]));
        }
    }

    if plan.apply_response_budget {
        let limit: usize = max_response_payload_bytes - MAX_STORAGE_SLOTS
            * STORAGE_MAP_LIMIT_EXCEEDED_FIELD_MAX_LEN - RESPONSE_HEADROOM_BYTES;
        return Ok(
            apply_all_storage_maps_response_budget(
                plan.account_header,
                account_code,
                vault,
                plan.storage_header,
                map_details,
                plan.slot_names,
                frame,
                limit,
            ),
        );
    }
    Ok(
        AccountDetails {
            account_header: plan.account_header,
            account_code,
            vault_details: vault,
            storage_details: AccountStorageDetails { header: plan.storage_header, map_details },
        },
    )
}

/// The first missing answer is missing, and all answers before it are there.
pub proof fn lemma_first_missing_is_missing(answers: Seq<Option<AccountStorageMapDetails>>)
    ensures
        first_missing(answers) <= answers.len(),
        first_missing(answers) < answers.len() ==> answers[first_missing(answers) as int] is None,
        forall|j: int| 0 <= j < first_missing(answers) ==> (#[trigger] answers[j]) is Some,
    decreases answers.len(),
{
    if answers.len() > 0 && answers[0] is Some {
        let rest = answers.drop_first();
        lemma_first_missing_is_missing(rest);
        assert forall|j: int| 0 <= j < first_missing(answers) implies (#[trigger] answers[j]) is Some by {
            if j > 0 {
                assert(rest[j - 1] == answers[j]);
            }
        }
    }
}

/// A plan queries what is requested: for each request with keys the proofs of these keys, for each other
/// request all entries, each at the place of the request in the response.
pub proof fn lemma_plans_query_what_is_requested(
    plan: AccountDetailsPlan,
    requests: Seq<StorageMapRequest>,
)
    requires
        plans_requests(plan, requests),
        requests.len() <= usize::MAX,
    ensures
        plan.slot_names@.len() == requests.len(),
        forall|i: int|
            0 <= i < requests.len() ==> #[trigger] plan.slot_names@[i] == requests[i].slot_name,
        plan.map_keys_queries@.len() + plan.all_entries_queries@.len() == requests.len(),
        forall|k: int|
            0 <= k < plan.map_keys_queries@.len() ==> {
                let query = #[trigger] plan.map_keys_queries@[k];
                &&& query.index < requests.len()
                &&& requests[query.index as int].slot_name == query.slot_name
                &&& requests[query.index as int].slot_data == SlotData::MapKeys(query.keys)
            },
        forall|k: int|
            0 <= k < plan.all_entries_queries@.len() ==> {
                let query = #[trigger] plan.all_entries_queries@[k];
                &&& query.index < requests.len()
                &&& requests[query.index as int].slot_name == query.slot_name
                &&& requests[query.index as int].slot_data is All
            },
{
    lemma_queries_of_requests(requests);
}

proof fn lemma_queries_of_requests(requests: Seq<StorageMapRequest>)
    requires
        requests.len() <= usize::MAX,
    ensures
        map_keys_queries_of(requests).len() + all_entries_queries_of(requests).len()
            == requests.len(),
        forall|k: int|
            0 <= k < map_keys_queries_of(requests).len() ==> {
                let query = #[trigger] map_keys_queries_of(requests)[k];
                &&& query.index < requests.len()
                &&& requests[query.index as int].slot_name == query.slot_name
                &&& requests[query.index as int].slot_data == SlotData::MapKeys(query.keys)
            },
        forall|k: int|
            0 <= k < all_entries_queries_of(requests).len() ==> {
                let query = #[trigger] all_entries_queries_of(requests)[k];
                &&& query.index < requests.len()
                &&& requests[query.index as int].slot_name == query.slot_name
                &&& requests[query.index as int].slot_data is All
            },
    decreases requests.len(),
{
    if requests.len() > 0 {
        let before = requests.drop_last();
        lemma_queries_of_requests(before);
        let (keys_before, all_before) = (
            map_keys_queries_of(before),
            all_entries_queries_of(before),
        );
        assert forall|k: int| 0 <= k < map_keys_queries_of(requests).len() implies {
            let query = #[trigger] map_keys_queries_of(requests)[k];
            &&& query.index < requests.len()
            &&& requests[query.index as int].slot_name == query.slot_name
            &&& requests[query.index as int].slot_data == SlotData::MapKeys(query.keys)
        } by {
            if k < keys_before.len() {
                let query = keys_before[k];
                assert(map_keys_queries_of(requests)[k] == query);
                assert(before[query.index as int] == requests[query.index as int]);
            }
        }
        assert forall|k: int| 0 <= k < all_entries_queries_of(requests).len() implies {
            let query = #[trigger] all_entries_queries_of(requests)[k];
            &&& query.index < requests.len()
            &&& requests[query.index as int].slot_name == query.slot_name
            &&& requests[query.index as int].slot_data is All
        } by {
            if k < all_before.len() {
                let query = all_before[k];
                assert(all_entries_queries_of(requests)[k] == query);
                assert(before[query.index as int] == requests[query.index as int]);
            }
        }
    }
}

/// Of the payload limit, room for the marks of 256 slots and 8192 bytes are set aside.
pub proof fn lemma_room_that_is_set_aside(max_response_payload_bytes: nat)
    ensures
        all_storage_maps_payload_limit(max_response_payload_bytes) == max_response_payload_bytes
            - 256 * 263 - 8192,
{
}

} // verus!
