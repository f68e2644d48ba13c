//! The endpoints for the builder of network transactions.

use vstd::prelude::*;
use vstd::string::*;

use crate::account_id::AccountId;
use crate::account_state_forest::forest::AccountStateForest;
use crate::account_state_forest::model::{
    are_proofs, changed_since, map_lineage, tree_at, vault_lineage,
};
use crate::block_number::BlockNumber;
use crate::protocol::{check_slot_name, check_vault_key, is_slot_name, is_vault_key};
use crate::server::api::{
    digest_word, internal_error, invalid_argument, read_digest, Code, ConversionError, Digest,
    Status,
};
use crate::server::rpc_api::{paginate, Paginated};
use crate::smt_forest::{is_proof, map_key_hash_of};
use crate::state::apply_block::{BlockHeader, InnerState};
use crate::state::chain::{get_current_blockchain_data, MmrError};
use crate::state::trees::{are_canonical, chain_peaks_of};
use crate::word::Word;
use crate::word_set::{lemma_words_are_held_once, WordSet};

verus! {

// CHAIN
// ================================================================================================

/// The latest header with the peaks of the chain before it. A requester who has the latest block
/// gets neither.
#[derive(Clone, Debug, PartialEq, Eq)]
pub struct CurrentBlockchainData {
    pub current_peaks: Vec<Word>,
    pub current_block_header: Option<BlockHeader>,
}

/// Answers a request for the latest header, which was read from the database.
pub fn current_blockchain_data(
    inner: &InnerState,
    block_num: Option<BlockNumber>,
    latest_header: BlockHeader,
) -> (r: Result<CurrentBlockchainData, MmrError>)
    requires
        inner@.is_valid(),
    ensures
        if block_num == Some(inner@.tip()) {
            r matches Ok(data) && data.current_peaks@.len() == 0 && data.current_block_header is None
        } else if latest_header.block_num@ <= inner@.blocks.len() {
            r matches Ok(data) && data.current_block_header == Some(latest_header)
                && data.current_peaks@ == chain_peaks_of(
                inner@.blocks.take(latest_header.block_num@),
            )
        } else {
            r == Err::<CurrentBlockchainData, MmrError>(MmrError(latest_header.block_num))
        },
{
    match get_current_blockchain_data(inner, block_num, latest_header) {
        Err(error) => Err(error),
        Ok(Some((header, current_peaks))) => Ok(
            CurrentBlockchainData { current_peaks, current_block_header: Some(header) },
        ),
        Ok(None) => Ok(
            CurrentBlockchainData { current_peaks: Vec::new(), current_block_header: None },
        ),
    }
}

// NOTES
// ================================================================================================

/// A page of a query: where it starts, and how many items it holds.
#[derive(Clone, Copy, Debug, PartialEq, Eq)]
pub struct NotePage {
    pub token: Option<u64>,
    pub size: usize,
}

/// Reads the page that a request asks for, which must not be empty.
pub fn read_page(token: Option<u64>, page_size: u64) -> (r: Result<NotePage, Status>)
    requires
        page_size <= usize::MAX,
    ensures
        if page_size == 0 {
            r matches Err(status) && status.code == Code::InvalidArgument && status.message@
                == "invalid page_size"@
        } else {
            r == Ok::<NotePage, Status>(NotePage { token, size: page_size as usize })
        },
{
    if page_size == 0 {
        return Err(invalid_argument("invalid page_size"));
    }
    Ok(NotePage { token, size: page_size as usize })
}

// NETWORK ACCOUNTS
// ================================================================================================

/// Answers a request for network accounts with those of all blocks up to the given one. The answer
/// never names a block past the chain tip, which is read again for the answer.
pub fn network_account_ids(
    account_ids: Vec<AccountId>,
    last_block_included: BlockNumber,
    chain_tip: BlockNumber,
    chain_tip_now: BlockNumber,
) -> (r: Paginated<AccountId>)
    ensures
        r.items == account_ids,
        r.chain_tip == chain_tip_now,
        r.block_num == (if last_block_included@ > chain_tip@ {
            chain_tip
        } else {
            last_block_included
        }),
{
    let block_num = if last_block_included.0 > chain_tip.0 {
        chain_tip
    } else {
        last_block_included
    };
    paginate(chain_tip_now, block_num, account_ids)
}

// WITNESSES
// ================================================================================================

/// The number of vault keys that a request may name.
pub const MAX_VAULT_KEYS: usize = 100;

/// Whether digests stand for vault keys.
pub open spec fn are_vault_keys(digests: Seq<Digest>) -> bool {
    forall|i: int|
        0 <= i < digests.len() ==> (digest_word(#[trigger] digests[i]) matches Ok(word)
            && is_vault_key(word))
}

/// The words that vault keys stand for.
pub open spec fn key_set(digests: Seq<Digest>) -> Set<Word> {
    digests.map_values(
        |digest: Digest| Word(digest.d0, digest.d1, digest.d2, digest.d3),
    ).to_set()
}

/// Reads the vault keys of a request, in ascending order and none twice.
pub fn read_vault_keys(digests: &Vec<Digest>) -> (r: Result<WordSet, Status>)
    ensures
        r is Ok <==> digests@.len() <= MAX_VAULT_KEYS && are_vault_keys(digests@),
        r matches Ok(keys) ==> keys.is_valid() && keys@ == key_set(digests@) && are_canonical(
            keys.words@,
        ),
        r matches Err(status) ==> status.code == Code::InvalidArgument,
        digests@.len() > MAX_VAULT_KEYS ==> (r matches Err(status) && status.message@
            == "number of vault keys in request cannot exceed 100"@),
{
    if digests.len() > MAX_VAULT_KEYS {
        return Err(invalid_argument("number of vault keys in request cannot exceed 100"));
    }
    let ghost words = digests@.map_values(
        |digest: Digest| Word(digest.d0, digest.d1, digest.d2, digest.d3),
    );
    let mut keys = WordSet::new();
    let mut i: usize = 0;
    assert(keys@ =~= words.take(0).to_set());
    while i < digests.len()
        invariant
            i <= digests@.len() <= MAX_VAULT_KEYS,
            words == digests@.map_values(
                |digest: Digest| Word(digest.d0, digest.d1, digest.d2, digest.d3),
            ),
            keys.is_valid(),
            keys@ == words.take(i as int).to_set(),
            forall|k: int|
                0 <= k < i ==> (digest_word(#[trigger] digests@[k]) matches Ok(word)
                    && is_vault_key(word)),
        decreases digests@.len() - i,
    {
        let digest = digests[i];
        let word = match read_digest(digest) {
            Ok(word) => word,
            Err(_) => {
                assert(digest_word(digests@[i as int]) is Err);
                return Err(invalid_argument("vault key is not in the modulus range"));
            },
        };
        if !check_vault_key(word) {
            assert(digest_word(digests@[i as int]) == Ok::<Word, ConversionError>(word));
            return Err(invalid_argument("not a vault key"));
        }
        keys.insert(word);
        proof {
            let before = words.take(i as int);
            let after = words.take(i + 1);
            assert(after =~= before.push(word));
            assert forall|x: Word| after.contains(x) <==> before.contains(x) || x == word by {
                if before.contains(x) {
                    let k = choose|k: int| 0 <= k < before.len() && before[k] == x;
                    assert(after[k] == x);
                }
                if x == word {
                    assert(after[i as int] == x);
                }
            }
            assert(keys@ =~= after.to_set());
        }
        i = i + 1;
    }
    assert(words.take(i as int) =~= words);
    proof {
        assert forall|k: int| 0 <= k < keys.words@.len() implies (
        #[trigger] keys.words@[k]).is_canonical() by {
            assert(keys@.contains(keys.words@[k]));
            let j = choose|j: int| 0 <= j < words.len() && words[j] == keys.words@[k];
            assert(digest_word(digests@[j]) is Ok);
        }
    }
    Ok(keys)
}

/// Returns the block that a request names, or the chain tip if it names none.
pub fn requested_block(block_num: Option<u32>, chain_tip: BlockNumber) -> (r: BlockNumber)
    ensures
        r == block_or_tip(block_num, chain_tip),
        block_num matches Some(number) ==> r.0 == number,
        block_num is None ==> r == chain_tip,
{
    match block_num {
        Some(number) => BlockNumber(number),
        None => chain_tip,
    }
}

/// Reads the key and the slot name of a request for a witness of a storage map's entry.
pub fn read_map_key(map_key: Digest, slot_name: &str) -> (r: Result<Word, Status>)
    ensures
        r matches Err(status) ==> status.code == Code::InvalidArgument,
        match digest_word(map_key) {
            Err(_) => r is Err,
            Ok(word) => if is_slot_name(slot_name@) {
                r == Ok::<Word, Status>(word)
            } else {
                r matches Err(status) && status.message@ == "Invalid storage slot name"@
            },
        },
{
    let word = match read_digest(map_key) {
        Ok(word) => word,
        Err(_) => return Err(invalid_argument("map key is not in the modulus range")),
    };
    if !check_slot_name(slot_name) {
        return Err(invalid_argument("Invalid storage slot name"));
    }
    Ok(word)
}

/// The answer to a request for witnesses of vault keys, each an encoded proof.
#[derive(Clone, Debug, PartialEq, Eq)]
pub struct VaultAssetWitnessesResponse {
    pub block_num: BlockNumber,
    pub asset_witnesses: Vec<Vec<u8>>,
}

/// The block that a request names, or the chain tip.
pub open spec fn block_or_tip(block_num: Option<u32>, chain_tip: BlockNumber) -> BlockNumber {
    match block_num {
        Some(number) => BlockNumber(number),
        None => chain_tip,
    }
}

/// Whether all are proofs of the requested keys of a tree, in ascending order of the keys.
pub open spec fn are_key_proofs(
    proofs: Seq<Vec<u8>>,
    contents: vstd::map::Map<Word, Word>,
    keys: WordSet,
    requested: Set<Word>,
    changed: Option<vstd::map::Map<Word, Word>>,
) -> bool {
    keys.is_valid() && keys@ == requested && are_proofs(proofs, contents, keys.words@, changed)
}

/// Answers a request for witnesses of vault keys of an account, in ascending order of the keys. A
/// vault that the forest does not hold at the block is an internal error.
pub fn get_vault_asset_witnesses(
    forest: &AccountStateForest,
    account_id: AccountId,
    vault_keys: &Vec<Digest>,
    block_num: Option<u32>,
    chain_tip: BlockNumber,
) -> (r: Result<VaultAssetWitnessesResponse, Status>)
    requires
        forest.is_valid(),
    ensures
        if vault_keys@.len() > MAX_VAULT_KEYS || !are_vault_keys(vault_keys@) {
            r matches Err(status) && status.code == Code::InvalidArgument
        } else {
            match tree_at(
                forest@.trees,
                vault_lineage(account_id),
                block_or_tip(block_num, chain_tip),
            ) {
                None => r matches Err(status) && status.code == Code::Internal,
                Some(contents) => r matches Ok(response) && response.block_num == block_or_tip(
                    block_num,
                    chain_tip,
                ) && exists|keys: WordSet| #[trigger]
                    are_key_proofs(
                        response.asset_witnesses@,
                        contents,
                        keys,
                        key_set(vault_keys@),
                        changed_since(
                            forest@.trees,
                            vault_lineage(account_id),
                            block_or_tip(block_num, chain_tip),
                        ),
                    ),
            }
        },
{
    let keys = match read_vault_keys(vault_keys) {
        Ok(keys) => keys,
        Err(status) => return Err(status),
    };
    let block = requested_block(block_num, chain_tip);
    match forest.get_vault_asset_witnesses(account_id, block, &keys) {
        Ok(asset_witnesses) => {
            let response = VaultAssetWitnessesResponse { block_num: block, asset_witnesses };
            proof {
                let contents = tree_at(forest@.trees, vault_lineage(account_id), block)->0;
                let changed = changed_since(forest@.trees, vault_lineage(account_id), block);
                assert(are_key_proofs(
                    response.asset_witnesses@,
                    contents,
                    keys,
                    key_set(vault_keys@),
                    changed,
                ));
                assert(exists|k: WordSet| #[trigger]
                    are_key_proofs(
                        response.asset_witnesses@,
                        contents,
                        k,
                        key_set(vault_keys@),
                        changed,
                    ));
            }
            Ok(response)
        },
        Err(_) => Err(internal_error("vault root not found")),
    }
}

/// The answer to a request for the witness of a storage map's entry, an encoded proof.
#[derive(Clone, Debug, PartialEq, Eq)]
pub struct StorageMapWitnessResponse {
    pub key: Word,
    pub witness: Vec<u8>,
    pub block_num: BlockNumber,
}

/// Answers a request for the witness of a storage map's entry. The answer names the chain tip as it is
/// then. A map that the forest does not hold at the block is an internal error.
pub fn get_storage_map_witness(
    forest: &AccountStateForest,
    account_id: AccountId,
    map_key: Digest,
    slot_name: &str,
    block_num: Option<u32>,
    chain_tip: BlockNumber,
    chain_tip_now: BlockNumber,
) -> (r: Result<StorageMapWitnessResponse, Status>)
    requires
        forest.is_valid(),
    ensures
        match digest_word(map_key) {
            Err(_) => r matches Err(status) && status.code == Code::InvalidArgument,
            Ok(key) => if !is_slot_name(slot_name@) {
                r matches Err(status) && status.code == Code::InvalidArgument
            } else {
                match tree_at(
                    forest@.trees,
                    map_lineage(account_id, slot_name@),
                    block_or_tip(block_num, chain_tip),
                ) {
                    None => r matches Err(status) && status.code == Code::Internal,
                    Some(contents) => r matches Ok(response) && response.key == key
                        && response.block_num == chain_tip_now && is_proof(
                        response.witness@,
                        contents,
                        map_key_hash_of(key),
                        changed_since(
                            forest@.trees,
                            map_lineage(account_id, slot_name@),
                            block_or_tip(block_num, chain_tip),
                        ),
                    ),
                }
            },
        },
{
    let key = match read_map_key(map_key, slot_name) {
        Ok(key) => key,
        Err(status) => return Err(status),
    };
    let block = requested_block(block_num, chain_tip);
    match forest.get_storage_map_witness(account_id, slot_name, block, key) {
        Ok(witness) => Ok(StorageMapWitnessResponse { key, witness, block_num: chain_tip_now }),
        Err(_) => Err(internal_error("storage map root not found")),
    }
}

// LAWS
// ================================================================================================

/// The vault keys of a request stand for the words with the same elements. They are vault keys if all
/// of these words are.
pub proof fn lemma_vault_keys_of_requests(digests: Seq<Digest>, keys: Set<Word>)
    requires
        are_vault_keys(digests),
        keys == key_set(digests),
    ensures
        forall|i: int|
            0 <= i < digests.len() ==> {
                let key = Word(
                    (#[trigger] digests[i]).d0,
                    digests[i].d1,
                    digests[i].d2,
                    digests[i].d3,
                );
                keys.contains(key) && key.is_canonical() && is_vault_key(key)
            },
        forall|key: Word| #[trigger]
            keys.contains(key) ==> exists|i: int|
                0 <= i < digests.len() && (#[trigger] digests[i]).d0 == key.0 && digests[i].d1
                    == key.1 && digests[i].d2 == key.2 && digests[i].d3 == key.3,
{
    let words = digests.map_values(
        |digest: Digest| Word(digest.d0, digest.d1, digest.d2, digest.d3),
    );
    assert forall|i: int| 0 <= i < digests.len() implies {
        let key = Word((#[trigger] digests[i]).d0, digests[i].d1, digests[i].d2, digests[i].d3);
        keys.contains(key) && key.is_canonical() && is_vault_key(key)
    } by {
        assert(digest_word(digests[i]) is Ok);
        assert(words[i] == Word(digests[i].d0, digests[i].d1, digests[i].d2, digests[i].d3));
        assert(words.contains(words[i]));
    }
    assert forall|key: Word| #[trigger] keys.contains(key) implies exists|i: int|
        0 <= i < digests.len() && (#[trigger] digests[i]).d0 == key.0 && digests[i].d1 == key.1
            && digests[i].d2 == key.2 && digests[i].d3 == key.3 by {
        let i = choose|i: int| 0 <= i < words.len() && words[i] == key;
        assert(digests[i].d0 == key.0);
    }
}

/// The proofs of a response are those of the requested keys, each key once and in ascending order.
pub proof fn lemma_proofs_of_requested_keys(
    proofs: Seq<Vec<u8>>,
    contents: vstd::map::Map<Word, Word>,
    keys: WordSet,
    requested: Set<Word>,
    changed: Option<vstd::map::Map<Word, Word>>,
)
    requires
        are_key_proofs(proofs, contents, keys, requested, changed),
    ensures
        proofs.len() == keys.words@.len(),
        forall|i: int|
            0 <= i < proofs.len() ==> is_proof(
                (#[trigger] proofs[i])@,
                contents,
                keys.words@[i],
                changed,
            ),
        forall|key: Word| #[trigger] requested.contains(key) <==> keys.words@.contains(key),
        forall|i: int, j: int|
            0 <= i < j < keys.words@.len() ==> #[trigger] keys.words@[i] != #[trigger] keys.words@[j],
{
    assert forall|key: Word| #[trigger] requested.contains(key) <==> keys.words@.contains(key) by {
        assert(keys@.contains(key) <==> keys.words@.contains(key));
    }
    assert forall|i: int, j: int| 0 <= i < j < keys.words@.len() implies #[trigger] keys.words@[i]
        != #[trigger] keys.words@[j] by {
        lemma_words_are_held_once(keys, i, j);
    }
}

} // verus!
