//! What the store has the protocol library compute: parsing and encoding of stored values, and the
//! commitments of account states.

use miden_protocol::account::{
    AccountHeader as ProtocolAccountHeader, AccountStorageHeader as ProtocolStorageHeader,
    StorageMap, StorageMapKey,
    StorageSlotHeader as ProtocolSlotHeader, StorageSlotName as ProtocolSlotName,
    StorageSlotType as ProtocolSlotType,
};
use miden_protocol::asset::{Asset as ProtocolAsset, AssetVault, AssetVaultKey};
use miden_protocol::utils::serde::{Deserializable, Serializable};
use miden_protocol::Felt;
use vstd::bytes::*;
use vstd::prelude::*;

use crate::account_id::{storage_mode_of_prefix, AccountId};
use crate::account_state_forest::model::{entry_keys, hashed_entries};
use crate::db::entries::{has_distinct_keys, lemma_pairs_by_key, pairs_by_key};
use crate::smt_forest::{
    check_leaf_sizes, fits_leaves, has_room, leaf_len, lemma_fits_leaves, map_key_hash,
    map_key_hash_of, smt_root_of, MAX_SMT_LEAF_ENTRIES,
};
use crate::state::account::{
    slot_name_len, AccountHeader, AccountStorageHeader, Asset, SlotHeaderView, StorageSlotHeader,
    StorageSlotType, MAX_SLOT_NAME_LEN,
};
use crate::word::{Word, FIELD_ORDER};

verus! {

// WORDS
// ================================================================================================

/// The canonical form of a field element.
pub open spec fn reduced(element: u64) -> u64 {
    if element >= FIELD_ORDER {
        (element - FIELD_ORDER) as u64
    } else {
        element
    }
}

/// Brings a field element into its canonical form.
pub fn reduce(element: u64) -> (r: u64)
    ensures
        r == reduced(element),
        element < 0xffff_ffff_0000_0001 ==> r == element,
        element >= 0xffff_ffff_0000_0001 ==> r == element - 0xffff_ffff_0000_0001,
{
    if element >= FIELD_ORDER {
        element - FIELD_ORDER
    } else {
        element
    }
}

/// The 32 bytes of a word: its elements in order, each in little-endian form.
pub open spec fn word_bytes(word: Word) -> Seq<u8> {
    spec_u64_to_le_bytes(reduced(word.0)) + spec_u64_to_le_bytes(reduced(word.1))
        + spec_u64_to_le_bytes(reduced(word.2)) + spec_u64_to_le_bytes(reduced(word.3))
}

/// The word that the first 32 bytes stand for, or `None` if there are fewer or an element is not in
/// its canonical form.
pub open spec fn word_of_bytes(bytes: Seq<u8>) -> Option<Word> {
    if bytes.len() < 32 {
        None
    } else {
        let word = Word(
            spec_u64_from_le_bytes(bytes.subrange(0, 8)),
            spec_u64_from_le_bytes(bytes.subrange(8, 16)),
            spec_u64_from_le_bytes(bytes.subrange(16, 24)),
            spec_u64_from_le_bytes(bytes.subrange(24, 32)),
        );
        if word.is_canonical() {
            Some(word)
        } else {
            None
        }
    }
}

/// Encodes a word by `Word::to_bytes`, which writes the canonical form of the four elements, each
/// in little-endian order.
#[verifier::external_body]
pub(crate) fn word_to_bytes(word: Word) -> (r: Vec<u8>)
    ensures
        r@ == word_bytes(word),
{
    miden_protocol::Word::new([word.0, word.1, word.2, word.3].map(Felt::new)).to_bytes()
}

/// Decodes a word by `Word::read_from_bytes`, which reads four little-endian integers from the front
/// of the bytes, and fails if there are too few bytes or an integer is not below the field order.
#[verifier::external_body]
pub(crate) fn word_from_bytes(bytes: &Vec<u8>) -> (r: Option<Word>)
    ensures
        r == word_of_bytes(bytes@),
{
    let word = miden_protocol::Word::read_from_bytes(bytes).ok()?;
    let [a, b, c, d] = word.into_elements().map(|element| element.as_canonical_u64());
    Some(Word(a, b, c, d))
}

/// A word that was written can be read back, whatever follows it.
pub proof fn lemma_word_round_trip(word: Word, rest: Seq<u8>)
    requires
        word.is_canonical(),
    ensures
        word_of_bytes(word_bytes(word) + rest) == Some(word),
{
    lemma_auto_spec_u64_to_from_le_bytes();
    let bytes = word_bytes(word) + rest;
    assert(bytes.subrange(0, 8) =~= spec_u64_to_le_bytes(word.0));
    assert(bytes.subrange(8, 16) =~= spec_u64_to_le_bytes(word.1));
    assert(bytes.subrange(16, 24) =~= spec_u64_to_le_bytes(word.2));
    assert(bytes.subrange(24, 32) =~= spec_u64_to_le_bytes(word.3));
}

// ACCOUNT IDS
// ================================================================================================

/// Whether the identifier is one that the protocol accepts: canonical elements, a known version, a
/// known storage mode, and a suffix whose highest bit and lowest byte are zero.
pub open spec fn is_valid_account_id(id: AccountId) -> bool {
    &&& id.prefix < FIELD_ORDER
    &&& id.prefix % 16 == 0
    &&& storage_mode_of_prefix(id.prefix) is Some
    &&& id.suffix < 0x8000_0000_0000_0000
    &&& id.suffix % 256 == 0
}

/// Returns whether the identifier is one that the protocol accepts.
pub fn check_account_id(id: AccountId) -> (r: bool)
    ensures
        r == is_valid_account_id(id),
        r <==> id.prefix < 0xffff_ffff_0000_0001 && id.prefix % 16 == 0 && (id.prefix / 64) % 4 != 3
            && id.suffix < 0x8000_0000_0000_0000 && id.suffix % 256 == 0,
{
    id.prefix < FIELD_ORDER && id.prefix % 16 == 0 && id.storage_mode().is_some() && id.suffix
        < 0x8000_0000_0000_0000 && id.suffix % 256 == 0
}

/// The 15 bytes of an identifier: the prefix and the upper seven bytes of the suffix, both in
/// big-endian form.
pub open spec fn account_id_bytes(id: AccountId) -> Seq<u8> {
    spec_u64_to_le_bytes(id.prefix).reverse() + spec_u64_to_le_bytes(id.suffix).reverse().take(7)
}

/// The identifier that the first 15 bytes stand for, or `None` if there are fewer or the
/// identifier is not valid.
pub open spec fn account_id_of_bytes(bytes: Seq<u8>) -> Option<AccountId> {
    if bytes.len() < 15 {
        None
    } else {
        let id = AccountId {
            prefix: spec_u64_from_le_bytes(bytes.subrange(0, 8).reverse()),
            suffix: spec_u64_from_le_bytes(bytes.subrange(8, 15).push(0).reverse()),
        };
        if is_valid_account_id(id) {
            Some(id)
        } else {
            None
        }
    }
}

/// Encodes an identifier.
pub fn account_id_to_bytes(id: AccountId) -> (r: Vec<u8>)
    ensures
        r@ == account_id_bytes(id),
        r@.len() == 15,
{
    proof {
        lemma_auto_spec_u64_to_from_le_bytes();
    }
    let prefix = u64_to_le_bytes(id.prefix);
    let suffix = u64_to_le_bytes(id.suffix);
    let mut bytes: Vec<u8> = Vec::new();
    let mut i: usize = 0;
    while i < 8
        invariant
            i <= 8,
            prefix@.len() == 8,
            bytes@ =~= prefix@.reverse().take(i as int),
        decreases 8 - i,
    {
        bytes.push(prefix[7 - i]);
        i = i + 1;
    }
    let mut j: usize = 0;
    while j < 7
        invariant
            j <= 7,
            prefix@.len() == 8,
            suffix@.len() == 8,
            bytes@ =~= prefix@.reverse() + suffix@.reverse().take(j as int),
        decreases 7 - j,
    {
        bytes.push(suffix[7 - j]);
        j = j + 1;
    }
    bytes
}

/// Decodes an identifier by `AccountId::read_from_bytes`, which reads the prefix and the suffix in
/// big-endian form from the front of the bytes, and fails if there are too few bytes or the
/// identifier is not valid.
#[verifier::external_body]
pub(crate) fn account_id_from_bytes(bytes: &Vec<u8>) -> (r: Option<AccountId>)
    ensures
        r == account_id_of_bytes(bytes@),
{
    let id = miden_protocol::account::AccountId::read_from_bytes(bytes).ok()?;
    Some(AccountId { prefix: id.prefix().as_u64(), suffix: id.suffix().as_canonical_u64() })
}

/// An identifier that was written can be read back, whatever follows it.
pub proof fn lemma_account_id_round_trip(id: AccountId, rest: Seq<u8>)
    requires
        is_valid_account_id(id),
    ensures
        account_id_of_bytes(account_id_bytes(id) + rest) == Some(id),
{
    lemma_auto_spec_u64_to_from_le_bytes();
    let bytes = account_id_bytes(id) + rest;
    let suffix = spec_u64_to_le_bytes(id.suffix);
    assert(suffix[0] == 0) by {
        spec_u64_to_le_bytes_to_open(id.suffix);
        let value = id.suffix;
        assert(value % 256 == 0 ==> (value & 0xff) as u8 == 0) by (bit_vector);
    }
    assert(bytes.subrange(0, 8).reverse() =~= spec_u64_to_le_bytes(id.prefix));
    assert(bytes.subrange(8, 15).push(0).reverse() =~= suffix);
}

// ASSETS
// ================================================================================================

/// The identifier of the faucet that issues the asset with the given vault key.
pub open spec fn faucet_of_key(key: Word) -> AccountId {
    AccountId { prefix: key.3, suffix: (key.2 - key.2 % 256) as u64 }
}

/// Whether the identifier is that of a fungible faucet.
pub open spec fn is_fungible_faucet(id: AccountId) -> bool {
    (id.prefix / 16) % 4 == 2
}

/// Whether the identifier is that of a faucet.
pub open spec fn is_faucet(id: AccountId) -> bool {
    (id.prefix / 16) % 4 >= 2
}

/// Whether a word is the vault key of an asset: it names a valid faucet, its flag byte is 0 or 1,
/// and the two elements that tell assets of one faucet apart are zero if the faucet is fungible.
pub open spec fn is_vault_key(key: Word) -> bool {
    &&& key.2 % 256 <= 1
    &&& is_valid_account_id(faucet_of_key(key))
    &&& is_faucet(faucet_of_key(key))
    &&& is_fungible_faucet(faucet_of_key(key)) ==> key.0 == 0 && key.1 == 0
}

/// Checks a vault key by `AssetVaultKey::try_from`, which accepts a word exactly if it is a vault
/// key.
#[verifier::external_body]
pub(crate) fn check_vault_key(key: Word) -> (r: bool)
    requires
        key.is_canonical(),
    ensures
        r == is_vault_key(key),
{
    let word = miden_protocol::Word::new([key.0, key.1, key.2, key.3].map(Felt::new));
    AssetVaultKey::try_from(word).is_ok()
}

/// The largest amount of a fungible asset.
pub const MAX_FUNGIBLE_AMOUNT: u64 = 0x7FFF_FFFF_8000_0000;

/// Whether key and value make up an asset: an amount in the value of a fungible asset, and the
/// first two elements of the value in the key of a non-fungible one.
pub open spec fn is_asset(asset: Asset) -> bool {
    &&& asset.key.is_canonical()
    &&& asset.value.is_canonical()
    &&& is_vault_key(asset.key)
    &&& if is_fungible_faucet(faucet_of_key(asset.key)) {
        &&& asset.value.0 <= MAX_FUNGIBLE_AMOUNT
        &&& asset.value.1 == 0
        &&& asset.value.2 == 0
        &&& asset.value.3 == 0
    } else {
        &&& asset.key.0 == asset.value.0
        &&& asset.key.1 == asset.value.1
    }
}

/// The bytes of an asset: the identifier of the faucet, the amount of a fungible asset in
/// little-endian form or the value of a non-fungible one, and the flag byte.
pub open spec fn asset_bytes(asset: Asset) -> Seq<u8> {
    let faucet = faucet_of_key(asset.key);
    let content = if is_fungible_faucet(faucet) {
        spec_u64_to_le_bytes(asset.value.0)
    } else {
        word_bytes(asset.value)
    };
    account_id_bytes(faucet) + content + seq![(asset.key.2 % 256) as u8]
}

/// The flag byte at a position, or `None` if there is none.
pub open spec fn flag_at(bytes: Seq<u8>, position: int) -> Option<u64> {
    if position < bytes.len() && bytes[position] <= 1 {
        Some(bytes[position] as u64)
    } else {
        None
    }
}

/// The fungible asset of a faucet whose amount and flag follow the identifier of the faucet.
pub open spec fn fungible_of_bytes(faucet: AccountId, bytes: Seq<u8>) -> Option<Asset> {
    match flag_at(bytes, 23) {
        None => None,
        Some(flag) => {
            let amount = spec_u64_from_le_bytes(bytes.subrange(15, 23));
            if amount <= MAX_FUNGIBLE_AMOUNT {
                Some(
                    Asset {
                        key: Word(0, 0, (faucet.suffix + flag) as u64, faucet.prefix),
                        value: Word(amount, 0, 0, 0),
                    },
                )
            } else {
                None
            }
        },
    }
}

/// The non-fungible asset of a faucet whose value and flag follow the identifier of the faucet.
pub open spec fn non_fungible_of_bytes(faucet: AccountId, bytes: Seq<u8>) -> Option<Asset> {
    match (word_of_bytes(bytes.skip(15)), flag_at(bytes, 47)) {
        (Some(value), Some(flag)) => Some(
            Asset {
                key: Word(value.0, value.1, (faucet.suffix + flag) as u64, faucet.prefix),
                value,
            },
        ),
        _ => None,
    }
}

/// The asset that the first bytes stand for, or `None` if they stand for none.
pub open spec fn asset_of_bytes(bytes: Seq<u8>) -> Option<Asset> {
    match account_id_of_bytes(bytes) {
        None => None,
        Some(faucet) => if is_fungible_faucet(faucet) {
            fungible_of_bytes(faucet, bytes)
        } else if is_faucet(faucet) {
            non_fungible_of_bytes(faucet, bytes)
        } else {
            None
        },
    }
}

/// An asset that was written can be read back, whatever follows it.
pub proof fn lemma_asset_round_trip(asset: Asset, rest: Seq<u8>)
    requires
        is_asset(asset),
    ensures
        asset_of_bytes(asset_bytes(asset) + rest) == Some(asset),
{
    let faucet = faucet_of_key(asset.key);
    let flag = seq![(asset.key.2 % 256) as u8];
    let id = account_id_bytes(faucet);
    let bytes = asset_bytes(asset) + rest;
    lemma_auto_spec_u64_to_from_le_bytes();
    assert(id.len() == 15);
    if is_fungible_faucet(faucet) {
        let content = spec_u64_to_le_bytes(asset.value.0);
        assert(bytes =~= id + (content + flag + rest));
        lemma_account_id_round_trip(faucet, content + flag + rest);
        assert(bytes.subrange(15, 23) =~= content);
    } else {
        let content = word_bytes(asset.value);
        assert(bytes =~= id + (content + flag + rest));
        lemma_account_id_round_trip(faucet, content + flag + rest);
        assert(bytes.skip(15) =~= content + (flag + rest));
        lemma_word_round_trip(asset.value, flag + rest);
    }
}

/// What stands for an asset stands for nothing but an asset.
pub proof fn lemma_asset_of_bytes(bytes: Seq<u8>)
    ensures
        asset_of_bytes(bytes) matches Some(asset) ==> is_asset(asset) && faucet_of_key(asset.key)
            == account_id_of_bytes(bytes)->0,
{
}

/// Encodes an asset by `Asset::from_key_value_words` and `Asset::to_bytes`, which writes the faucet,
/// the amount or the value, and the flag.
#[verifier::external_body]
fn encode_asset(asset: Asset) -> (r: Vec<u8>)
    requires
        is_asset(asset),
    ensures
        r@ == asset_bytes(asset),
{
    let [key, value] = [asset.key, asset.value].map(
        |w| miden_protocol::Word::new([w.0, w.1, w.2, w.3].map(Felt::new)),
    );
    ProtocolAsset::from_key_value_words(key, value).expect("key and value of an asset").to_bytes()
}

/// Encodes an asset. What was written can be read back.
pub(crate) fn asset_to_bytes(asset: Asset) -> (r: Vec<u8>)
    requires
        is_asset(asset),
    ensures
        r@ == asset_bytes(asset),
        asset_of_bytes(r@) == Some(asset),
{
    proof {
        lemma_asset_round_trip(asset, Seq::empty());
        assert(asset_bytes(asset) + Seq::empty() =~= asset_bytes(asset));
    }
    encode_asset(asset)
}

/// Decodes an asset by `Asset::read_from_bytes`, which reads it from the front of the bytes, and
/// fails if there are too few bytes, or they hold no identifier of a faucet, an amount that is too
/// large, a value that is not canonical, or another flag than 0 and 1.
#[verifier::external_body]
fn decode_asset(bytes: &Vec<u8>) -> (r: Option<Asset>)
    ensures
        r == asset_of_bytes(bytes@),
{
    let asset = ProtocolAsset::read_from_bytes(bytes).ok()?;
    let [key, value] = [asset.to_key_word(), asset.to_value_word()].map(
        |word|
            {
                let [a, b, c, d] = word.into_elements().map(|e| e.as_canonical_u64());
                Word(a, b, c, d)
            },
    );
    Some(Asset { key, value })
}

/// Decodes an asset.
pub(crate) fn asset_from_bytes(bytes: &Vec<u8>) -> (r: Option<Asset>)
    ensures
        r == asset_of_bytes(bytes@),
        r matches Some(asset) ==> is_asset(asset),
{
    proof {
        lemma_asset_of_bytes(bytes@);
    }
    decode_asset(bytes)
}

// VAULTS
// ================================================================================================

/// The asset vault of the protocol library.
#[verifier::external_type_specification]
#[verifier::external_body]
pub struct ExAssetVault(AssetVault);

/// The values of a vault's assets by their keys.
pub uninterp spec fn vault_contents(vault: AssetVault) -> vstd::map::Map<Word, Word>;

/// The root of a vault with the given contents: the vault is a tree of its assets.
pub open spec fn vault_root_of(contents: vstd::map::Map<Word, Word>) -> Word {
    smt_root_of(contents)
}

/// The keys and values of assets.
pub open spec fn asset_pairs(assets: Seq<Asset>) -> Seq<(Word, Word)> {
    assets.map_values(|asset: Asset| (asset.key, asset.value))
}

/// Whether the values are assets, none of them empty and no two with the same key.
pub open spec fn are_distinct_assets(assets: Seq<Asset>) -> bool {
    &&& forall|i: int|
        0 <= i < assets.len() ==> is_asset(#[trigger] assets[i]) && assets[i].value
            != Word::empty()
    &&& has_distinct_keys(asset_pairs(assets))
}

/// The keys of assets.
pub open spec fn asset_keys(assets: Seq<Asset>) -> Seq<Word> {
    assets.map_values(|asset: Asset| asset.key)
}

/// Whether assets make up a vault: none is empty, no two have the same key, and no leaf of the vault's
/// tree gets too many of them.
pub open spec fn are_vault_assets(assets: Seq<Asset>) -> bool {
    are_distinct_assets(assets) && fits_leaves(asset_keys(assets))
}

/// Builds a vault by `AssetVault::new`, which holds the assets by their keys. It fails exactly if two
/// assets have the same key.
#[verifier::external_body]
fn new_vault(assets: &Vec<Asset>) -> (r: Option<AssetVault>)
    requires
        forall|i: int|
            0 <= i < assets@.len() ==> is_asset(#[trigger] assets@[i]) && assets@[i].value
                != Word::empty(),
        fits_leaves(asset_keys(assets@)),
    ensures
        r is Some <==> has_distinct_keys(asset_pairs(assets@)),
        r matches Some(vault) ==> vault_contents(vault) == pairs_by_key(asset_pairs(assets@)),
{
    let to_word = |w: Word| miden_protocol::Word::new([w.0, w.1, w.2, w.3].map(Felt::new));
    let assets: Option<Vec<ProtocolAsset>> = assets.iter().map(
        |a| ProtocolAsset::from_key_value_words(to_word(a.key), to_word(a.value)).ok(),
    ).collect();
    AssetVault::new(&assets?).ok()
}

/// Builds the vault of assets, or returns `None` if they do not make up one.
pub(crate) fn build_vault(assets: &Vec<Asset>) -> (r: Option<AssetVault>)
    requires
        forall|i: int| 0 <= i < assets@.len() ==> is_asset(#[trigger] assets@[i]),
    ensures
        r is Some <==> are_vault_assets(assets@),
        r matches Some(vault) ==> vault_contents(vault) == pairs_by_key(asset_pairs(assets@)),
{
    let mut keys: Vec<Word> = Vec::new();
    let mut i: usize = 0;
    while i < assets.len()
        invariant
            i <= assets@.len(),
            keys@ =~= asset_keys(assets@).take(i as int),
            forall|k: int|
                0 <= k < i ==> (#[trigger] assets@[k]).value != Word::empty(),
        decreases assets@.len() - i,
    {
        if assets[i].value == Word::empty() {
            assert(assets@[i as int].value == Word::empty());
            return None;
        }
        keys.push(assets[i].key);
        i = i + 1;
    }
    assert(keys@ =~= asset_keys(assets@));
    if !check_leaf_sizes(&keys) {
        return None;
    }
    new_vault(assets)
}

/// The amount that a vault holds under the key of a fungible asset.
pub open spec fn vault_amount(contents: vstd::map::Map<Word, Word>, key: Word) -> nat {
    if contents.contains_key(key) {
        contents[key].0 as nat
    } else {
        0
    }
}

/// The contents once the amount under a key is set, which removes the key if the amount is zero.
pub open spec fn with_amount(
    contents: vstd::map::Map<Word, Word>,
    key: Word,
    amount: nat,
) -> vstd::map::Map<Word, Word> {
    if amount == 0 {
        contents.remove(key)
    } else {
        contents.insert(key, Word(amount as u64, 0, 0, 0))
    }
}

/// What a vault holds once an asset was added, or `None` if it cannot be: the sum of the amounts is
/// too large, or the vault already holds the non-fungible asset.
pub open spec fn contents_with_added(
    contents: vstd::map::Map<Word, Word>,
    asset: Asset,
) -> Option<vstd::map::Map<Word, Word>> {
    if is_fungible_faucet(faucet_of_key(asset.key)) {
        let amount = vault_amount(contents, asset.key) + asset.value.0 as nat;
        if amount <= MAX_FUNGIBLE_AMOUNT {
            Some(with_amount(contents, asset.key, amount))
        } else {
            None
        }
    } else if contents.contains_key(asset.key) {
        None
    } else {
        Some(contents.insert(asset.key, asset.value))
    }
}

/// What a vault holds once an asset was removed, or `None` if it cannot be: the vault does not hold
/// it, or less of it.
pub open spec fn contents_with_removed(
    contents: vstd::map::Map<Word, Word>,
    asset: Asset,
) -> Option<vstd::map::Map<Word, Word>> {
    if !contents.contains_key(asset.key) {
        None
    } else if is_fungible_faucet(faucet_of_key(asset.key)) {
        if asset.value.0 <= contents[asset.key].0 {
            Some(
                with_amount(
                    contents,
                    asset.key,
                    (contents[asset.key].0 - asset.value.0) as nat,
                ),
            )
        } else {
            None
        }
    } else {
        Some(contents.remove(asset.key))
    }
}

/// Adds an asset to a vault by `AssetVault::add_asset`: amounts of a fungible asset add up, a
/// non-fungible asset must not be there yet. Fails also if the leaf of the asset is full.
#[verifier::external_body]
pub(crate) fn vault_add_asset(vault: &mut AssetVault, asset: Asset) -> (r: bool)
    requires
        is_asset(asset),
        asset.value != Word::empty(),
    ensures
        r <==> contents_with_added(vault_contents(*old(vault)), asset) is Some && has_room(
            vault_contents(*old(vault)),
            asset.key,
        ),
        r ==> Some(vault_contents(*final(vault))) == contents_with_added(
            vault_contents(*old(vault)),
            asset,
        ),
{
    let to_word = |w: Word| miden_protocol::Word::new([w.0, w.1, w.2, w.3].map(Felt::new));
    let asset = ProtocolAsset::from_key_value_words(to_word(asset.key), to_word(asset.value));
    vault.add_asset(asset.expect("key and value of an asset")).is_ok()
}

/// Removes an asset from a vault by `AssetVault::remove_asset`, which takes an amount of a fungible
/// asset off what the vault holds.
#[verifier::external_body]
pub(crate) fn vault_remove_asset(vault: &mut AssetVault, asset: Asset) -> (r: bool)
    requires
        is_asset(asset),
        asset.value != Word::empty(),
    ensures
        r <==> contents_with_removed(vault_contents(*old(vault)), asset) is Some,
        r ==> Some(vault_contents(*final(vault))) == contents_with_removed(
            vault_contents(*old(vault)),
            asset,
        ),
{
    let to_word = |w: Word| miden_protocol::Word::new([w.0, w.1, w.2, w.3].map(Felt::new));
    let asset = ProtocolAsset::from_key_value_words(to_word(asset.key), to_word(asset.value));
    vault.remove_asset(asset.expect("key and value of an asset")).is_ok()
}

/// The root of a vault by `AssetVault::root`, which is the root of the tree of its assets.
#[verifier::external_body]
pub(crate) fn vault_root(vault: &AssetVault) -> (r: Word)
    ensures
        r == vault_root_of(vault_contents(*vault)),
{
    let [a, b, c, d] = vault.root().into_elements().map(|element| element.as_canonical_u64());
    Word(a, b, c, d)
}

// STORAGE
// ================================================================================================

/// Whether `StorageSlotName::new` accepts a name.
pub uninterp spec fn is_slot_name(name: Seq<char>) -> bool;

/// Checks a slot name by `StorageSlotName::new`. A valid name takes at most 255 bytes.
#[verifier::external_body]
pub(crate) fn check_slot_name(name: &str) -> (r: bool)
    ensures
        r == is_slot_name(name@),
        r ==> slot_name_len(name@) <= MAX_SLOT_NAME_LEN,
{
    miden_protocol::account::StorageSlotName::new(name).is_ok()
}

/// Whether all words of the entries are canonical and no two keys are equal.
pub open spec fn are_map_entries(entries: Seq<(Word, Word)>) -> bool {
    &&& forall|i: int|
        0 <= i < entries.len() ==> (#[trigger] entries[i]).0.is_canonical()
            && entries[i].1.is_canonical()
    &&& has_distinct_keys(entries)
}

/// The entries of a storage map that hold a value. An empty value stands for none.
pub open spec fn valued_entries(entries: vstd::map::Map<Word, Word>) -> vstd::map::Map<Word, Word> {
    vstd::map::Map::new(
        |key: Word| entries.contains_key(key) && entries[key] != Word::empty(),
        |key: Word| entries[key],
    )
}

/// Whether one of the keys has the given hash.
pub open spec fn has_hash(entries: vstd::map::Map<Word, Word>, hash: Word) -> bool {
    exists|key: Word|
        #![trigger map_key_hash_of(key)]
        entries.contains_key(key) && map_key_hash_of(key) == hash
}

/// The key with the given hash.
pub open spec fn key_with_hash(entries: vstd::map::Map<Word, Word>, hash: Word) -> Word {
    choose|key: Word|
        #![trigger map_key_hash_of(key)]
        entries.contains_key(key) && map_key_hash_of(key) == hash
}

/// The values of a storage map by the hashes of their keys.
pub open spec fn hashed_map(entries: vstd::map::Map<Word, Word>) -> vstd::map::Map<Word, Word> {
    let valued = valued_entries(entries);
    vstd::map::Map::new(
        |hash: Word| has_hash(valued, hash),
        |hash: Word| valued[key_with_hash(valued, hash)],
    )
}

/// The root of a storage map with the given entries: the map is a tree of its values under the hashes
/// of their keys.
pub open spec fn storage_map_root_of(entries: vstd::map::Map<Word, Word>) -> Word {
    smt_root_of(hashed_map(entries))
}

/// Whether no two of the keys have the same hash.
pub open spec fn has_no_collision(keys: Set<Word>) -> bool {
    forall|a: Word, b: Word|
        #![trigger map_key_hash_of(a), map_key_hash_of(b)]
        keys.contains(a) && keys.contains(b) && map_key_hash_of(a) == map_key_hash_of(b) ==> a == b
}

/// Whether a tree can hold the values of a storage map: no two keys have the same hash, and no leaf gets
/// too many of them.
pub open spec fn fits_map(entries: vstd::map::Map<Word, Word>) -> bool {
    &&& has_no_collision(valued_entries(entries).dom())
    &&& forall|element: u64| #[trigger]
        leaf_len(hashed_map(entries), element) <= MAX_SMT_LEAF_ENTRIES
}

/// The root of a storage map by `StorageMap::with_entries`, which builds a tree of the values under the
/// hashes of their keys, and `StorageMap::root`, the root of that tree.
#[verifier::external_body]
fn storage_map_root(entries: &Vec<(Word, Word)>) -> (r: Word)
    requires
        are_map_entries(entries@),
        forall|i: int| 0 <= i < entries@.len() ==> (#[trigger] entries@[i]).1 != Word::empty(),
        has_distinct_keys(hashed_entries(entries@)),
        fits_leaves(entry_keys(hashed_entries(entries@))),
    ensures
        r == smt_root_of(pairs_by_key(hashed_entries(entries@))),
        r.is_canonical(),
{
    let to_word = |w: Word| miden_protocol::Word::new([w.0, w.1, w.2, w.3].map(Felt::new));
    let entries = entries.iter().map(|(k, v)| (StorageMapKey::new(to_word(*k)), to_word(*v)));
    let map = StorageMap::with_entries(entries).expect("entries with distinct keys");
    let root = map.root();
    let [a, b, c, d] = root.into_elements().map(|element| element.as_canonical_u64());
    Word(a, b, c, d)
}

/// The entries that hold a value.
pub open spec fn valued_pairs(entries: Seq<(Word, Word)>) -> Seq<(Word, Word)>
    decreases entries.len(),
{
    if entries.len() == 0 {
        entries
    } else if entries.last().1 == Word::empty() {
        valued_pairs(entries.drop_last())
    } else {
        valued_pairs(entries.drop_last()).push(entries.last())
    }
}

proof fn lemma_valued_pairs(entries: Seq<(Word, Word)>)
    requires
        has_distinct_keys(entries),
    ensures
        has_distinct_keys(valued_pairs(entries)),
        forall|i: int|
            0 <= i < valued_pairs(entries).len() ==> (#[trigger] valued_pairs(entries)[i]).1
                != Word::empty() && entries.contains(valued_pairs(entries)[i]),
        pairs_by_key(valued_pairs(entries)) == valued_entries(pairs_by_key(entries)),
    decreases entries.len(),
{
    let valued = valued_pairs(entries);
    if entries.len() > 0 {
        let before = entries.drop_last();
        let last = entries.last();
        assert(has_distinct_keys(before)) by {
            assert forall|i: int, j: int| 0 <= i < j < before.len() implies (
            #[trigger] before[i]).0 != (#[trigger] before[j]).0 by {
                assert(entries[i].0 != entries[j].0);
            }
        }
        lemma_valued_pairs(before);
        lemma_pairs_by_key(before);
        lemma_pairs_by_key(entries);
        let valued_before = valued_pairs(before);
        assert forall|i: int| 0 <= i < valued.len() implies (#[trigger] valued[i]).1
            != Word::empty() && entries.contains(valued[i]) by {
            if i < valued_before.len() {
                assert(valued[i] == valued_before[i]);
                let k = choose|k: int| 0 <= k < before.len() && before[k] == valued_before[i];
                assert(entries[k] == valued[i]);
            } else {
                assert(entries[entries.len() - 1] == valued[i]);
            }
        }
        assert forall|i: int, j: int| 0 <= i < j < valued.len() implies (#[trigger] valued[i]).0 != (
        #[trigger] valued[j]).0 by {
            if j == valued_before.len() {
                assert(valued[i] == valued_before[i]);
                let k = choose|k: int| 0 <= k < before.len() && before[k] == valued_before[i];
                assert(entries[k].0 != entries[entries.len() - 1].0);
            } else {
                assert(valued[i] == valued_before[i] && valued[j] == valued_before[j]);
            }
        }
        assert(!pairs_by_key(before).contains_key(last.0)) by {
            if pairs_by_key(before).contains_key(last.0) {
                let k = choose|k: int| 0 <= k < before.len() && (#[trigger] before[k]).0 == last.0;
                assert(entries[k].0 != entries[entries.len() - 1].0);
            }
        }
        assert(pairs_by_key(entries) == pairs_by_key(before).insert(last.0, last.1));
        if last.1 != Word::empty() {
            assert(valued.drop_last() =~= valued_before);
            assert(pairs_by_key(valued) == pairs_by_key(valued_before).insert(last.0, last.1));
        }
        assert(pairs_by_key(valued) =~= valued_entries(pairs_by_key(entries)));
    } else {
        assert(pairs_by_key(valued) =~= valued_entries(pairs_by_key(entries)));
    }
}

proof fn lemma_hashed_pairs(entries: Seq<(Word, Word)>, map: vstd::map::Map<Word, Word>)
    requires
        has_distinct_keys(entries),
        pairs_by_key(entries) == valued_entries(map),
    ensures
        has_distinct_keys(hashed_entries(entries)) <==> has_no_collision(valued_entries(map).dom()),
        has_distinct_keys(hashed_entries(entries)) ==> pairs_by_key(hashed_entries(entries))
            == hashed_map(map),
{
    let valued = valued_entries(map);
    let hashed = hashed_entries(entries);
    lemma_pairs_by_key(entries);
    if has_distinct_keys(hashed) {
        assert forall|a: Word, b: Word|
            #![trigger map_key_hash_of(a), map_key_hash_of(b)]
            valued.dom().contains(a) && valued.dom().contains(b) && map_key_hash_of(a)
                == map_key_hash_of(b) implies a == b by {
            assert(pairs_by_key(entries).contains_key(a) && pairs_by_key(entries).contains_key(b));
            let i = choose|i: int| 0 <= i < entries.len() && (#[trigger] entries[i]).0 == a;
            let j = choose|j: int| 0 <= j < entries.len() && (#[trigger] entries[j]).0 == b;
            assert(hashed[i].0 == map_key_hash_of(a) && hashed[j].0 == map_key_hash_of(b));
            if i < j {
                assert(hashed[i].0 != hashed[j].0);
            } else if j < i {
                assert(hashed[j].0 != hashed[i].0);
            }
        }
        lemma_pairs_by_key(hashed);
        let tree = pairs_by_key(hashed);
        assert forall|hash: Word| #[trigger] tree.contains_key(hash) == hashed_map(map).contains_key(
            hash,
        ) && (tree.contains_key(hash) ==> tree[hash] == hashed_map(map)[hash]) by {
            if tree.contains_key(hash) {
                let i = choose|i: int| 0 <= i < hashed.len() && (#[trigger] hashed[i]).0 == hash;
                let key = entries[i].0;
                assert(pairs_by_key(entries).contains_key(key));
                assert(valued.contains_key(key) && map_key_hash_of(key) == hash);
                assert(has_hash(valued, hash));
                let found = key_with_hash(valued, hash);
                assert(valued.dom().contains(found) && map_key_hash_of(found) == hash);
                assert(found == key);
            }
            if hashed_map(map).contains_key(hash) {
                let key = key_with_hash(valued, hash);
                assert(pairs_by_key(entries).contains_key(key));
                let i = choose|i: int| 0 <= i < entries.len() && (#[trigger] entries[i]).0 == key;
                assert(hashed[i].0 == hash);
            }
        }
        assert(tree =~= hashed_map(map));
    } else {
        let (i, j) = choose|i: int, j: int|
            0 <= i < j < hashed.len() && (#[trigger] hashed[i]).0 == (#[trigger] hashed[j]).0;
        assert(entries[i].0 != entries[j].0);
        assert(pairs_by_key(entries).contains_key(entries[i].0));
        assert(pairs_by_key(entries).contains_key(entries[j].0));
        assert(valued.dom().contains(entries[i].0) && valued.dom().contains(entries[j].0));
        assert(map_key_hash_of(entries[i].0) == map_key_hash_of(entries[j].0));
    }
}

fn check_distinct(words: &Vec<Word>) -> (r: bool)
    ensures
        r == forall|i: int, j: int|
            0 <= i < j < words@.len() ==> (#[trigger] words@[i]) != (#[trigger] words@[j]),
{
    let mut i: usize = 0;
    while i < words.len()
        invariant
            i <= words@.len(),
            forall|a: int, b: int|
                0 <= a < i && a < b < words@.len() ==> (#[trigger] words@[a]) != (
                #[trigger] words@[b]),
        decreases words@.len() - i,
    {
        let mut j: usize = i + 1;
        while j < words.len()
            invariant
                i < j <= words@.len(),
                forall|b: int| i < b < j ==> words@[i as int] != #[trigger] words@[b],
            decreases words@.len() - j,
        {
            if words[i] == words[j] {
                assert(words@[i as int] == words@[j as int]);
                return false;
            }
            j = j + 1;
        }
        i = i + 1;
    }
    true
}

/// Returns the root of a storage map, or `None` if no tree can hold its values.
pub(crate) fn map_root(entries: &Vec<(Word, Word)>) -> (r: Option<Word>)
    requires
        are_map_entries(entries@),
    ensures
        r is Some <==> fits_map(pairs_by_key(entries@)),
        r matches Some(root) ==> root == storage_map_root_of(pairs_by_key(entries@))
            && root.is_canonical(),
{
    let ghost map = pairs_by_key(entries@);
    let mut valued: Vec<(Word, Word)> = Vec::new();
    let mut hashes: Vec<Word> = Vec::new();
    let mut i: usize = 0;
    assert(hashes@ =~= entry_keys(hashed_entries(valued@)));
    while i < entries.len()
        invariant
            i <= entries@.len(),
            valued@ == valued_pairs(entries@.take(i as int)),
            hashes@ =~= entry_keys(hashed_entries(valued@)),
        decreases entries@.len() - i,
    {
        proof {
            assert(entries@.take(i + 1).drop_last() =~= entries@.take(i as int));
            assert(entries@.take(i + 1).last() == entries@[i as int]);
        }
        if entries[i].1 != Word::empty() {
            valued.push(entries[i]);
            hashes.push(map_key_hash(entries[i].0));
        }
        i = i + 1;
    }
    assert(entries@.take(i as int) =~= entries@);
    let ghost hashed = hashed_entries(valued@);
    proof {
        lemma_valued_pairs(entries@);
        lemma_hashed_pairs(valued@, map);
        assert forall|k: int| 0 <= k < valued@.len() implies (
        #[trigger] valued@[k]).0.is_canonical() && valued@[k].1.is_canonical() by {
            let j = choose|j: int| 0 <= j < entries@.len() && entries@[j] == valued@[k];
            assert(entries@[j].0.is_canonical());
        }
        assert forall|k: int| 0 <= k < hashes@.len() implies hashes@[k] == (
        #[trigger] hashed[k]).0 by {}
    }
    if !check_distinct(&hashes) {
        assert(!has_distinct_keys(hashed)) by {
            let (a, b) = choose|a: int, b: int|
                0 <= a < b < hashes@.len() && (#[trigger] hashes@[a]) == (#[trigger] hashes@[b]);
            assert(hashed[a].0 == hashed[b].0);
        }
        return None;
    }
    assert(has_distinct_keys(hashed)) by {
        assert forall|a: int, b: int| 0 <= a < b < hashed.len() implies (#[trigger] hashed[a]).0 != (
        #[trigger] hashed[b]).0 by {
            assert(hashes@[a] != hashes@[b]);
        }
    }
    proof {
        lemma_pairs_by_key(hashed);
        assert(hashed_map(map).dom() =~= hashes@.to_set()) by {
            assert forall|hash: Word| hashed_map(map).dom().contains(hash)
                <==> hashes@.to_set().contains(hash) by {
                if hashed_map(map).dom().contains(hash) {
                    assert(pairs_by_key(hashed).contains_key(hash));
                    let k = choose|k: int| 0 <= k < hashed.len() && (#[trigger] hashed[k]).0 == hash;
                    assert(hashes@[k] == hash);
                }
                if hashes@.to_set().contains(hash) {
                    let k = choose|k: int| 0 <= k < hashes@.len() && hashes@[k] == hash;
                    assert(hashed[k].0 == hash);
                    assert(pairs_by_key(hashed).contains_key(hash));
                }
            }
        }
        lemma_fits_leaves(hashes@, hashed_map(map));
    }
    if !check_leaf_sizes(&hashes) {
        return None;
    }
    Some(storage_map_root(&valued))
}

/// Whether `AccountStorageHeader::new` accepts the slots: valid names, in the order of their
/// identifiers, none twice.
pub uninterp spec fn is_storage_header(slots: Seq<SlotHeaderView>) -> bool;

/// The bytes that `AccountStorageHeader::to_bytes` writes for the slots.
pub uninterp spec fn storage_header_bytes(slots: Seq<SlotHeaderView>) -> Seq<u8>;

/// The slots that `AccountStorageHeader::read_from_bytes` reads from bytes, or `None` if it fails.
pub uninterp spec fn storage_header_of_bytes(bytes: Seq<u8>) -> Option<Seq<SlotHeaderView>>;

/// The commitment that `AccountStorageHeader::to_commitment` returns for the slots.
pub uninterp spec fn storage_commitment_of(slots: Seq<SlotHeaderView>) -> Word;

/// Whether all values of the slots are canonical.
pub open spec fn has_canonical_values(slots: Seq<SlotHeaderView>) -> bool {
    forall|i: int| 0 <= i < slots.len() ==> (#[trigger] slots[i]).value.is_canonical()
}

/// Whether all names of the slots are valid and no two are the same.
pub open spec fn has_slot_names(slots: Seq<SlotHeaderView>) -> bool {
    &&& forall|i: int| 0 <= i < slots.len() ==> is_slot_name((#[trigger] slots[i]).name)
    &&& forall|i: int, j: int|
        0 <= i < j < slots.len() ==> (#[trigger] slots[i]).name != (#[trigger] slots[j]).name
}

/// Encodes a storage header by `AccountStorageHeader::new`, which takes only valid names and none
/// twice, and `to_bytes`. What was written can be read back.
#[verifier::external_body]
pub(crate) fn storage_header_to_bytes(header: &AccountStorageHeader) -> (r: Option<Vec<u8>>)
    ensures
        r is Some <==> is_storage_header(header@),
        r is Some ==> has_slot_names(header@),
        r matches Some(bytes) ==> bytes@ == storage_header_bytes(header@),
        r matches Some(bytes) ==> has_canonical_values(header@) ==> storage_header_of_bytes(bytes@)
            == Some(header@),
{
    let slots: Option<Vec<ProtocolSlotHeader>> = header.slots.iter().map(
        |slot|
            {
                let name = ProtocolSlotName::new(slot.name.as_str()).ok()?;
                let slot_type = match slot.slot_type {
                    StorageSlotType::ValueSlot => ProtocolSlotType::Value,
                    StorageSlotType::MapSlot => ProtocolSlotType::Map,
                };
                let Word(a, b, c, d) = slot.value;
                Some(ProtocolSlotHeader::new(name, slot_type, [a, b, c, d].map(Felt::new).into()))
            },
    ).collect();
    Some(ProtocolStorageHeader::new(slots?).ok()?.to_bytes())
}

/// Decodes a storage header by `AccountStorageHeader::read_from_bytes`, which returns nothing but
/// valid headers.
#[verifier::external_body]
pub(crate) fn storage_header_from_bytes(bytes: &Vec<u8>) -> (r: Option<AccountStorageHeader>)
    ensures
        r is Some <==> storage_header_of_bytes(bytes@) is Some,
        r matches Some(header) ==> {
            &&& Some(header@) == storage_header_of_bytes(bytes@)
            &&& is_storage_header(header@)
            &&& has_canonical_values(header@)
        },
{
    let header = ProtocolStorageHeader::read_from_bytes(bytes).ok()?;
    let slots = header.slots().map(
        |slot|
            {
                let slot_type = match slot.slot_type() {
                    ProtocolSlotType::Value => StorageSlotType::ValueSlot,
                    ProtocolSlotType::Map => StorageSlotType::MapSlot,
                };
                let [a, b, c, d] = slot.value().into_elements().map(|e| e.as_canonical_u64());
                let name = String::from(slot.name().as_str());
                StorageSlotHeader { name, slot_type, value: Word(a, b, c, d) }
            },
    );
    Some(AccountStorageHeader { slots: slots.collect() })
}

/// The commitment of a storage header by `AccountStorageHeader::new` and `to_commitment`.
#[verifier::external_body]
pub(crate) fn storage_commitment(header: &AccountStorageHeader) -> (r: Option<Word>)
    ensures
        r is Some <==> is_storage_header(header@),
        r matches Some(commitment) ==> commitment == storage_commitment_of(header@),
{
    let slots: Option<Vec<ProtocolSlotHeader>> = header.slots.iter().map(
        |slot|
            {
                let name = ProtocolSlotName::new(slot.name.as_str()).ok()?;
                let slot_type = match slot.slot_type {
                    StorageSlotType::ValueSlot => ProtocolSlotType::Value,
                    StorageSlotType::MapSlot => ProtocolSlotType::Map,
                };
                let Word(a, b, c, d) = slot.value;
                Some(ProtocolSlotHeader::new(name, slot_type, [a, b, c, d].map(Felt::new).into()))
            },
    ).collect();
    let commitment = ProtocolStorageHeader::new(slots?).ok()?.to_commitment();
    let [a, b, c, d] = commitment.into_elements().map(|element| element.as_canonical_u64());
    Some(Word(a, b, c, d))
}

// ACCOUNTS
// ================================================================================================

/// The commitment that `AccountHeader::to_commitment` returns for a header.
pub uninterp spec fn account_commitment_of(header: AccountHeader) -> Word;

/// The commitment of an account's state by `AccountHeader::to_commitment`.
#[verifier::external_body]
pub(crate) fn account_commitment(header: &AccountHeader) -> (r: Word)
    requires
        is_valid_account_id(header.id),
    ensures
        r == account_commitment_of(*header),
        r.is_canonical(),
{
    let [vault, storage, code] = [
        header.vault_root,
        header.storage_commitment,
        header.code_commitment,
    ].map(|w| miden_protocol::Word::new([w.0, w.1, w.2, w.3].map(Felt::new)));
    let id = miden_protocol::account::AccountId::try_from_elements(
        Felt::new(header.id.suffix),
        Felt::new(header.id.prefix),
    ).expect("valid account identifier");
    let nonce = Felt::new(header.nonce);
    let commitment = ProtocolAccountHeader::new(id, nonce, vault, storage, code).to_commitment();
    let [a, b, c, d] = commitment.into_elements().map(|element| element.as_canonical_u64());
    Word(a, b, c, d)
}

} // verus!
