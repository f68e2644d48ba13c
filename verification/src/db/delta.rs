//! Changes of an account's state by a partial delta, computed from the minimal data that the delta
//! touches: the latest headers, the balances of the faucets it names, and the entries of the maps
//! it changes.

use miden_protocol::asset::AssetVault;
use vstd::prelude::*;

use crate::account_id::AccountId;
use crate::db::accounts::{asset_column, read_asset, read_word, word_column};
use crate::db::conv::{
    collect_results, lemma_collect_prefix_error, lemma_collect_step, raw_sql_to_nonce,
};
use crate::db::entries::{
    has_distinct_keys, insert_entry, lemma_pairs_by_key, lemma_updated_pair, pairs_by_key,
    remove_entry,
};
use crate::errors::{DataCorruption, DatabaseError};
use crate::protocol::{
    are_map_entries, are_vault_assets, asset_pairs, build_vault, check_slot_name,
    contents_with_added, contents_with_removed, faucet_of_key, fits_map, has_canonical_values,
    is_asset, is_fungible_faucet, is_slot_name, is_storage_header, is_vault_key, map_root,
    storage_commitment, storage_header_from_bytes, storage_header_of_bytes, storage_map_root_of,
    vault_add_asset, vault_contents, vault_remove_asset, vault_root, vault_root_of,
    MAX_FUNGIBLE_AMOUNT,
};
use crate::smt_forest::has_room;
use crate::state::account::{AccountStorageHeader, Asset, SlotHeaderView, StorageSlotHeader};
use crate::word::Word;

verus! {

// HEADERS
// ================================================================================================

/// The columns of an account's latest row that a partial delta builds on.
#[derive(Clone, Debug, PartialEq, Eq)]
pub struct AccountStateDeltaRow {
    pub nonce: Option<i64>,
    pub code_commitment: Option<Vec<u8>>,
    pub storage_header: Option<Vec<u8>>,
}

/// The state of an account that a partial delta builds on.
#[derive(Clone, Debug, PartialEq, Eq)]
pub struct AccountStateHeadersForDelta {
    pub nonce: u64,
    pub code_commitment: Word,
    pub storage_header: AccountStorageHeader,
}

/// What the headers hold.
pub struct StateHeadersView {
    pub nonce: u64,
    pub code_commitment: Word,
    pub storage_header: Seq<SlotHeaderView>,
}

impl View for AccountStateHeadersForDelta {
    type V = StateHeadersView;

    open spec fn view(&self) -> StateHeadersView {
        StateHeadersView {
            nonce: self.nonce,
            code_commitment: self.code_commitment,
            storage_header: self.storage_header@,
        }
    }
}

/// The headers that the latest row of an account stands for. A row without a storage header stands
/// for a storage without slots.
pub open spec fn headers_of_row(
    account_id: AccountId,
    row: Option<AccountStateDeltaRow>,
) -> Result<StateHeadersView, DatabaseError> {
    match row {
        None => Err(DatabaseError::AccountNotFoundInDb(account_id)),
        Some(row) => match row.nonce {
            None => Err(DatabaseError::DataCorrupted(DataCorruption::MissingNonce(account_id))),
            Some(nonce) => match row.code_commitment {
                None => Err(
                    DatabaseError::DataCorrupted(
                        DataCorruption::MissingCodeCommitment(account_id),
                    ),
                ),
                Some(code_commitment) => match word_column(code_commitment@) {
                    Err(error) => Err(error),
                    Ok(code_commitment) => match row.storage_header {
                        None => Ok(
                            StateHeadersView {
                                nonce: nonce as u64,
                                code_commitment,
                                storage_header: Seq::empty(),
                            },
                        ),
                        Some(bytes) => match storage_header_of_bytes(bytes@) {
                            None => Err(DatabaseError::DeserializationError),
                            Some(storage_header) => Ok(
                                StateHeadersView {
                                    nonce: nonce as u64,
                                    code_commitment,
                                    storage_header,
                                },
                            ),
                        },
                    },
                },
            },
        },
    }
}

/// Takes the latest row of an account as the state that a partial delta builds on.
pub fn select_minimal_account_state_headers(
    account_id: AccountId,
    row: &Option<AccountStateDeltaRow>,
) -> (r: Result<AccountStateHeadersForDelta, DatabaseError>)
    ensures
        match headers_of_row(account_id, *row) {
            Err(error) => r == Err::<AccountStateHeadersForDelta, DatabaseError>(error),
            Ok(headers) => r matches Ok(found) && found@ == headers,
        },
        r matches Ok(found) ==> has_canonical_values(found.storage_header@),
{
    let row = match row {
        Some(row) => row,
        None => return Err(DatabaseError::AccountNotFoundInDb(account_id)),
    };
    let nonce: u64 = match row.nonce {
        Some(raw) => raw_sql_to_nonce(raw),
        None => return Err(DatabaseError::DataCorrupted(DataCorruption::MissingNonce(account_id))),
    };
    let code_commitment = match &row.code_commitment {
        Some(bytes) => read_word(bytes)?,
        None => return Err(
            DatabaseError::DataCorrupted(DataCorruption::MissingCodeCommitment(account_id)),
        ),
    };
    let storage_header = match &row.storage_header {
        Some(bytes) => match storage_header_from_bytes(bytes) {
            Some(header) => header,
            None => return Err(DatabaseError::DeserializationError),
        },
        None => {
            let slots: Vec<StorageSlotHeader> = Vec::new();
            let header = AccountStorageHeader { slots };
            assert(header@ =~= Seq::empty());
            header
        },
    };
    Ok(AccountStateHeadersForDelta { nonce, code_commitment, storage_header })
}

// BALANCES
// ================================================================================================

/// A row of an asset under its vault key. A row without an asset says that it was removed.
#[derive(Clone, Debug, PartialEq, Eq)]
pub struct VaultAssetRow {
    pub vault_key: Vec<u8>,
    pub asset: Option<Vec<u8>>,
}

/// The assets that rows hold, in order, or the first error of decoding one.
pub open spec fn assets_of_rows(rows: Seq<VaultAssetRow>) -> Result<Seq<Asset>, DatabaseError>
    decreases rows.len(),
{
    if rows.len() == 0 {
        Ok(Seq::empty())
    } else {
        match assets_of_rows(rows.drop_last()) {
            Err(error) => Err(error),
            Ok(assets) => match rows.last().asset {
                None => Ok(assets),
                Some(bytes) => match asset_column(bytes@) {
                    Err(error) => Err(error),
                    Ok(asset) => Ok(assets.push(asset)),
                },
            },
        }
    }
}

proof fn lemma_assets_prefix_error(rows: Seq<VaultAssetRow>, count: int)
    requires
        0 <= count <= rows.len(),
        assets_of_rows(rows.take(count)) is Err,
    ensures
        assets_of_rows(rows) == assets_of_rows(rows.take(count)),
    decreases rows.len() - count,
{
    if count < rows.len() {
        assert(rows.take(count + 1).drop_last() =~= rows.take(count));
        lemma_assets_prefix_error(rows, count + 1);
    } else {
        assert(rows.take(count) =~= rows);
    }
}

/// Takes the latest vault rows of an account as its assets.
pub fn select_latest_vault_assets(rows: &Vec<VaultAssetRow>) -> (r: Result<
    Vec<Asset>,
    DatabaseError,
>)
    ensures
        match assets_of_rows(rows@) {
            Err(error) => r == Err::<Vec<Asset>, DatabaseError>(error),
            Ok(assets) => r matches Ok(found) && found@ == assets,
        },
        r matches Ok(found) ==> forall|i: int|
            0 <= i < found@.len() ==> is_asset(#[trigger] found@[i]),
{
    let mut assets: Vec<Asset> = Vec::new();
    let mut i: usize = 0;
    while i < rows.len()
        invariant
            i <= rows@.len(),
            assets_of_rows(rows@.take(i as int)) == Ok::<Seq<Asset>, DatabaseError>(assets@),
            forall|j: int| 0 <= j < assets@.len() ==> is_asset(#[trigger] assets@[j]),
        decreases rows@.len() - i,
    {
        proof {
            assert(rows@.take(i + 1).drop_last() =~= rows@.take(i as int));
            assert(rows@.take(i + 1).last() == rows@[i as int]);
            if assets_of_rows(rows@.take(i + 1)) is Err {
                lemma_assets_prefix_error(rows@, i + 1);
            }
        }
        if let Some(bytes) = &rows[i].asset {
            let asset = read_asset(bytes)?;
            assets.push(asset);
        }
        i = i + 1;
    }
    assert(rows@.take(i as int) =~= rows@);
    Ok(assets)
}

/// The vault key of the fungible assets of a faucet.
pub open spec fn fungible_vault_key(faucet_id: AccountId) -> Word {
    Word(0, 0, faucet_id.suffix, faucet_id.prefix)
}

/// Returns the faucet of a vault key.
pub fn faucet_id_of_key(key: Word) -> (r: AccountId)
    ensures
        r == faucet_of_key(key),
        r.prefix == key.3,
        r.suffix % 256 == 0,
        r.suffix <= key.2 < r.suffix + 256,
{
    AccountId { prefix: key.3, suffix: key.2 - key.2 % 256 }
}

/// Returns whether the identifier is that of a fungible faucet.
pub fn check_fungible_faucet(id: AccountId) -> (r: bool)
    ensures
        r == is_fungible_faucet(id),
        r == ((id.prefix / 16) % 4 == 2),
{
    (id.prefix / 16) % 4 == 2
}

/// Whether all identifiers are those of fungible faucets.
pub open spec fn are_fungible_faucets(faucet_ids: Seq<AccountId>) -> bool {
    forall|i: int| 0 <= i < faucet_ids.len() ==> is_fungible_faucet(#[trigger] faucet_ids[i])
}

/// The amount of the last of the assets that the faucet issued, or zero.
pub open spec fn balance_of(assets: Seq<Asset>, faucet_id: AccountId) -> u64
    decreases assets.len(),
{
    if assets.len() == 0 {
        0
    } else if is_fungible_faucet(faucet_of_key(assets.last().key)) && faucet_of_key(
        assets.last().key,
    ) == faucet_id {
        assets.last().value.0
    } else {
        balance_of(assets.drop_last(), faucet_id)
    }
}

/// The balances that rows give faucets, in the order of the faucets. Without faucets no row is read.
pub open spec fn balances_of_rows(faucet_ids: Seq<AccountId>, rows: Seq<VaultAssetRow>) -> Result<
    Seq<u64>,
    DatabaseError,
> {
    if faucet_ids.len() == 0 {
        Ok(Seq::empty())
    } else {
        match assets_of_rows(rows) {
            Err(error) => Err(error),
            Ok(assets) => Ok(
                faucet_ids.map_values(|faucet_id: AccountId| balance_of(assets, faucet_id)),
            ),
        }
    }
}

/// Returns the vault keys by which the balances of faucets are queried.
pub fn balance_query_keys(faucet_ids: &Vec<AccountId>) -> (r: Result<Vec<Word>, DatabaseError>)
    ensures
        r is Ok <==> are_fungible_faucets(faucet_ids@),
        r matches Ok(keys) ==> keys@ =~= faucet_ids@.map_values(
            |faucet_id: AccountId| fungible_vault_key(faucet_id),
        ),
        r matches Err(error) ==> exists|i: int|
            {
                &&& 0 <= i < faucet_ids@.len()
                &&& !is_fungible_faucet(#[trigger] faucet_ids@[i])
                &&& are_fungible_faucets(faucet_ids@.take(i))
                &&& error == DatabaseError::DataCorrupted(
                    DataCorruption::InvalidFaucetId(faucet_ids@[i]),
                )
            },
{
    let mut keys: Vec<Word> = Vec::new();
    let mut i: usize = 0;
    while i < faucet_ids.len()
        invariant
            i <= faucet_ids@.len(),
            are_fungible_faucets(faucet_ids@.take(i as int)),
            keys@ =~= faucet_ids@.take(i as int).map_values(
                |faucet_id: AccountId| fungible_vault_key(faucet_id),
            ),
        decreases faucet_ids@.len() - i,
    {
        let faucet_id = faucet_ids[i];
        if !check_fungible_faucet(faucet_id) {
            assert(!is_fungible_faucet(faucet_ids@[i as int]));
            return Err(DatabaseError::DataCorrupted(DataCorruption::InvalidFaucetId(faucet_id)));
        }
        keys.push(Word(0, 0, faucet_id.suffix, faucet_id.prefix));
        i = i + 1;
        assert forall|j: int| 0 <= j < i implies is_fungible_faucet(
            #[trigger] faucet_ids@.take(i as int)[j],
        ) by {
            if j < i - 1 {
                assert(faucet_ids@.take(i - 1)[j] == faucet_ids@.take(i as int)[j]);
            }
        }
    }
    assert(faucet_ids@.take(i as int) =~= faucet_ids@);
    Ok(keys)
}

fn find_balance(assets: &Vec<Asset>, faucet_id: AccountId) -> (r: u64)
    ensures
        r == balance_of(assets@, faucet_id),
{
    let mut i: usize = assets.len();
    assert(assets@.take(i as int) =~= assets@);
    while i > 0
        invariant
            i <= assets@.len(),
            balance_of(assets@, faucet_id) == balance_of(assets@.take(i as int), faucet_id),
        decreases i,
    {
        let ghost upto = assets@.take(i as int);
        i = i - 1;
        assert(upto.drop_last() =~= assets@.take(i as int));
        assert(upto.last() == assets@[i as int]);
        let owner = faucet_id_of_key(assets[i].key);
        if check_fungible_faucet(owner) && owner == faucet_id {
            return assets[i].value.0;
        }
    }
    0
}

/// Takes the latest vault rows under the keys of the faucets as the balances of the faucets, in the
/// order of the faucets: zero where there is no asset.
pub fn select_vault_balances_by_faucet_ids(
    faucet_ids: &Vec<AccountId>,
    rows: &Vec<VaultAssetRow>,
) -> (r: Result<Vec<u64>, DatabaseError>)
    ensures
        !are_fungible_faucets(faucet_ids@) ==> (r matches Err(error) && exists|i: int|
            {
                &&& 0 <= i < faucet_ids@.len()
                &&& !is_fungible_faucet(#[trigger] faucet_ids@[i])
                &&& are_fungible_faucets(faucet_ids@.take(i))
                &&& error == DatabaseError::DataCorrupted(
                    DataCorruption::InvalidFaucetId(faucet_ids@[i]),
                )
            }),
        are_fungible_faucets(faucet_ids@) ==> match balances_of_rows(faucet_ids@, rows@) {
            Err(error) => r == Err::<Vec<u64>, DatabaseError>(error),
            Ok(balances) => r matches Ok(found) && found@ =~= balances,
        },
        r matches Ok(balances) ==> balances@.len() == faucet_ids@.len() && forall|i: int|
            0 <= i < balances@.len() ==> #[trigger] balances@[i] <= MAX_FUNGIBLE_AMOUNT,
{
    if faucet_ids.len() == 0 {
        return Ok(Vec::new());
    }
    let _ = balance_query_keys(faucet_ids)?;
    let assets = select_latest_vault_assets(rows)?;
    let mut balances: Vec<u64> = Vec::new();
    let mut i: usize = 0;
    while i < faucet_ids.len()
        invariant
            i <= faucet_ids@.len(),
            balances@ =~= faucet_ids@.take(i as int).map_values(
                |faucet_id: AccountId| balance_of(assets@, faucet_id),
            ),
            forall|j: int| 0 <= j < assets@.len() ==> is_asset(#[trigger] assets@[j]),
            forall|j: int| 0 <= j < i ==> #[trigger] balances@[j] <= MAX_FUNGIBLE_AMOUNT,
        decreases faucet_ids@.len() - i,
    {
        proof {
            lemma_balance_bound(assets@, faucet_ids@[i as int]);
        }
        balances.push(find_balance(&assets, faucet_ids[i]));
        i = i + 1;
    }
    assert(faucet_ids@.take(i as int) =~= faucet_ids@);
    Ok(balances)
}

proof fn lemma_balance_bound(assets: Seq<Asset>, faucet_id: AccountId)
    requires
        forall|j: int| 0 <= j < assets.len() ==> is_asset(#[trigger] assets[j]),
    ensures
        balance_of(assets, faucet_id) <= MAX_FUNGIBLE_AMOUNT,
    decreases assets.len(),
{
    if assets.len() > 0 {
        assert(is_asset(assets[assets.len() - 1]));
        lemma_balance_bound(assets.drop_last(), faucet_id);
    }
}

// STORAGE MAP ENTRIES
// ================================================================================================

/// A row of a storage map entry without its block.
#[derive(Clone, Debug, PartialEq, Eq)]
pub struct MapEntryRow {
    pub slot_name: String,
    pub key: Vec<u8>,
    pub value: Vec<u8>,
}

/// An entry of a storage map.
pub struct MapEntryView {
    pub slot_name: Seq<char>,
    pub key: Word,
    pub value: Word,
}

impl MapEntryRow {
    /// The entry that the row stands for.
    pub open spec fn decoded(self) -> Result<MapEntryView, DatabaseError> {
        if !is_slot_name(self.slot_name@) {
            Err(DatabaseError::DataCorrupted(DataCorruption::InvalidSlotName(self.slot_name)))
        } else {
            match word_column(self.key@) {
                Err(error) => Err(error),
                Ok(key) => match word_column(self.value@) {
                    Err(error) => Err(error),
                    Ok(value) => Ok(MapEntryView { slot_name: self.slot_name@, key, value }),
                },
            }
        }
    }
}

/// The entries of one storage map.
#[derive(Clone, Debug, PartialEq, Eq)]
pub struct SlotEntries {
    pub slot_name: String,
    pub entries: Vec<(Word, Word)>,
}

/// The slot names with the entries of their maps.
pub open spec fn slot_pairs(slots: Seq<SlotEntries>) -> Seq<
    (Seq<char>, vstd::map::Map<Word, Word>),
> {
    slots.map_values(|slot: SlotEntries| (slot.slot_name@, pairs_by_key(slot.entries@)))
}

/// Whether each slot is there once, with distinct keys.
pub open spec fn are_slot_entries(slots: Seq<SlotEntries>) -> bool {
    &&& has_distinct_keys(slot_pairs(slots))
    &&& forall|i: int|
        0 <= i < slots.len() ==> are_map_entries((#[trigger] slots[i]).entries@)
}

/// The entries of the map of a slot, none if there is no such slot.
pub open spec fn slot_map(
    maps: vstd::map::Map<Seq<char>, vstd::map::Map<Word, Word>>,
    slot_name: Seq<char>,
) -> vstd::map::Map<Word, Word> {
    if maps.contains_key(slot_name) {
        maps[slot_name]
    } else {
        vstd::map::Map::empty()
    }
}

/// The maps that entries make up. Of entries with the same key the last one counts.
pub open spec fn grouped_entries(entries: Seq<MapEntryView>) -> vstd::map::Map<
    Seq<char>,
    vstd::map::Map<Word, Word>,
>
    decreases entries.len(),
{
    if entries.len() == 0 {
        vstd::map::Map::empty()
    } else {
        let maps = grouped_entries(entries.drop_last());
        let entry = entries.last();
        maps.insert(
            entry.slot_name,
            slot_map(maps, entry.slot_name).insert(entry.key, entry.value),
        )
    }
}

/// The maps that rows make up, or the first error of decoding one.
pub open spec fn maps_of_rows(rows: Seq<MapEntryRow>) -> Result<
    vstd::map::Map<Seq<char>, vstd::map::Map<Word, Word>>,
    DatabaseError,
> {
    match collect_results(rows.map_values(|row: MapEntryRow| row.decoded())) {
        Err(error) => Err(error),
        Ok(entries) => Ok(grouped_entries(entries)),
    }
}

fn find_slot(slots: &Vec<SlotEntries>, slot_name: &String) -> (r: Option<usize>)
    ensures
        match r {
            Some(i) => i < slots@.len() && slots@[i as int].slot_name@ == slot_name@,
            None => forall|i: int|
                0 <= i < slots@.len() ==> (#[trigger] slots@[i]).slot_name@ != slot_name@,
        },
{
    let mut i: usize = 0;
    while i < slots.len()
        invariant
            i <= slots@.len(),
            forall|j: int| 0 <= j < i ==> (#[trigger] slots@[j]).slot_name@ != slot_name@,
        decreases slots@.len() - i,
    {
        if slots[i].slot_name == *slot_name {
            return Some(i);
        }
        i = i + 1;
    }
    None
}

fn insert_slot_entry(slots: &mut Vec<SlotEntries>, slot_name: String, key: Word, value: Word)
    requires
        are_slot_entries(old(slots)@),
        key.is_canonical(),
        value.is_canonical(),
    ensures
        are_slot_entries(final(slots)@),
        ({
            let maps = pairs_by_key(slot_pairs(old(slots)@));
            pairs_by_key(slot_pairs(final(slots)@)) == maps.insert(
                slot_name@,
                slot_map(maps, slot_name@).insert(key, value),
            )
        }),
{
    let ghost before = slots@;
    let ghost pairs = slot_pairs(before);
    match find_slot(slots, &slot_name) {
        Some(i) => {
            let mut entries: Vec<(Word, Word)> = Vec::new();
            std::mem::swap(&mut entries, &mut slots[i].entries);
            insert_entry(&mut entries, key, value);
            std::mem::swap(&mut entries, &mut slots[i].entries);
            proof {
                let position = i as int;
                lemma_pairs_by_key(pairs);
                assert(pairs[position].0 == slot_name@);
                assert(slot_pairs(slots@) =~= pairs.update(
                    position,
                    (slot_name@, pairs[position].1.insert(key, value)),
                ));
                lemma_updated_pair(pairs, position, pairs[position].1.insert(key, value));
            }
        },
        None => {
            let mut entries: Vec<(Word, Word)> = Vec::new();
            insert_entry(&mut entries, key, value);
            let ghost name = slot_name@;
            slots.push(SlotEntries { slot_name, entries });
            proof {
                lemma_pairs_by_key(pairs);
                assert(!pairs_by_key(pairs).contains_key(name)) by {
                    if pairs_by_key(pairs).contains_key(name) {
                        let j = choose|j: int|
                            0 <= j < pairs.len() && (#[trigger] pairs[j]).0 == name;
                        assert(before[j].slot_name@ == name);
                    }
                }
                assert(slot_pairs(slots@) =~= pairs.push((name, pairs_by_key(entries@))));
                assert(slot_pairs(slots@).drop_last() =~= pairs);
                assert forall|j: int| 0 <= j < pairs.len() implies (#[trigger] pairs[j]).0
                    != name by {
                    assert(before[j].slot_name@ != name);
                }
                assert(has_distinct_keys(slot_pairs(slots@)));
            }
        },
    }
}

/// Groups the rows of storage map entries by their slots.
pub fn group_storage_map_entries(rows: &Vec<MapEntryRow>) -> (r: Result<
    Vec<SlotEntries>,
    DatabaseError,
>)
    ensures
        match maps_of_rows(rows@) {
            Err(error) => r == Err::<Vec<SlotEntries>, DatabaseError>(error),
            Ok(maps) => r matches Ok(slots) && are_slot_entries(slots@) && pairs_by_key(
                slot_pairs(slots@),
            ) == maps,
        },
{
    let ghost results = rows@.map_values(|row: MapEntryRow| row.decoded());
    let ghost mut decoded: Seq<MapEntryView> = Seq::empty();
    let mut slots: Vec<SlotEntries> = Vec::new();
    assert(slot_pairs(slots@) =~= Seq::empty());
    let mut i: usize = 0;
    while i < rows.len()
        invariant
            i <= rows@.len(),
            results == rows@.map_values(|row: MapEntryRow| row.decoded()),
            collect_results(results.take(i as int)) == Ok::<Seq<MapEntryView>, DatabaseError>(
                decoded,
            ),
            are_slot_entries(slots@),
            pairs_by_key(slot_pairs(slots@)) == grouped_entries(decoded),
        decreases rows@.len() - i,
    {
        proof {
            lemma_collect_step(results, i as int);
            if rows@[i as int].decoded() is Err {
                lemma_collect_prefix_error(results, i + 1);
            }
        }
        if !check_slot_name(rows[i].slot_name.as_str()) {
            return Err(
                DatabaseError::DataCorrupted(
                    DataCorruption::InvalidSlotName(rows[i].slot_name.clone()),
                ),
            );
        }
        let key = read_word(&rows[i].key)?;
        let value = read_word(&rows[i].value)?;
        insert_slot_entry(&mut slots, rows[i].slot_name.clone(), key, value);
        proof {
            let entry = MapEntryView { slot_name: rows@[i as int].slot_name@, key, value };
            let next = decoded.push(entry);
            assert(next.drop_last() =~= decoded);
            decoded = next;
        }
        i = i + 1;
    }
    assert(results.take(i as int) =~= results);
    Ok(slots)
}

// STORAGE DELTA
// ================================================================================================

/// The changed entries of one storage map, by key. An empty value removes its key.
#[derive(Clone, Debug, PartialEq, Eq)]
pub struct MapDelta {
    pub slot_name: String,
    pub entries: Vec<(Word, Word)>,
}

/// The changes of an account's storage: new values of value slots, and changed maps.
#[derive(Clone, Debug, PartialEq, Eq)]
pub struct StorageDelta {
    pub values: Vec<(String, Word)>,
    pub maps: Vec<MapDelta>,
}

/// Whether all words of a storage delta are canonical.
pub open spec fn is_canonical_delta(delta: StorageDelta) -> bool {
    &&& has_canonical_updates(delta.values@)
    &&& forall|i: int, j: int|
        0 <= i < delta.maps@.len() && 0 <= j < delta.maps@[i].entries@.len() ==> (
        #[trigger] delta.maps@[i].entries@[j]).0.is_canonical()
            && delta.maps@[i].entries@[j].1.is_canonical()
}

/// Whether all new values of value slots are canonical.
pub open spec fn has_canonical_updates(values: Seq<(String, Word)>) -> bool {
    forall|i: int| 0 <= i < values.len() ==> (#[trigger] values[i]).1.is_canonical()
}

/// The value that a delta gives a slot, if it does.
pub open spec fn value_update(values: Seq<(String, Word)>, slot_name: Seq<char>) -> Option<Word>
    decreases values.len(),
{
    if values.len() == 0 {
        None
    } else if values.last().0@ == slot_name {
        Some(values.last().1)
    } else {
        value_update(values.drop_last(), slot_name)
    }
}

/// A map once entries of a delta were applied in order: an empty value removes its key.
pub open spec fn map_after(
    map: vstd::map::Map<Word, Word>,
    entries: Seq<(Word, Word)>,
) -> vstd::map::Map<Word, Word>
    decreases entries.len(),
{
    if entries.len() == 0 {
        map
    } else {
        let before = map_after(map, entries.drop_last());
        let (key, value) = entries.last();
        if value == Word::empty() {
            before.remove(key)
        } else {
            before.insert(key, value)
        }
    }
}

/// Whether a tree can hold the map of a slot once a delta has changed it.
pub open spec fn fits_update(
    deltas: Seq<MapDelta>,
    maps: vstd::map::Map<Seq<char>, vstd::map::Map<Word, Word>>,
    slot_name: Seq<char>,
) -> bool
    decreases deltas.len(),
{
    if deltas.len() == 0 {
        true
    } else if deltas.last().slot_name@ == slot_name && deltas.last().entries@.len() > 0 {
        fits_map(map_after(slot_map(maps, slot_name), deltas.last().entries@))
    } else {
        fits_update(deltas.drop_last(), maps, slot_name)
    }
}

/// Whether trees can hold all maps that a delta changes.
pub open spec fn fits_changes(
    slots: Seq<SlotHeaderView>,
    delta: StorageDelta,
    maps: vstd::map::Map<Seq<char>, vstd::map::Map<Word, Word>>,
) -> bool {
    forall|i: int|
        0 <= i < slots.len() && value_update(delta.values@, (#[trigger] slots[i]).name) is None
            ==> fits_update(delta.maps@, maps, slots[i].name)
}

/// The root that a delta gives the map of a slot, if it changes entries of it.
pub open spec fn map_update(
    deltas: Seq<MapDelta>,
    maps: vstd::map::Map<Seq<char>, vstd::map::Map<Word, Word>>,
    slot_name: Seq<char>,
) -> Option<Word>
    decreases deltas.len(),
{
    if deltas.len() == 0 {
        None
    } else if deltas.last().slot_name@ == slot_name && deltas.last().entries@.len() > 0 {
        Some(
            storage_map_root_of(map_after(slot_map(maps, slot_name), deltas.last().entries@)),
        )
    } else {
        map_update(deltas.drop_last(), maps, slot_name)
    }
}

/// A slot once a delta was applied to it: a new value if the delta gives it one, the root of the
/// changed map if the delta changes its map, and the same slot otherwise.
pub open spec fn slot_after(
    slot: SlotHeaderView,
    delta: StorageDelta,
    maps: vstd::map::Map<Seq<char>, vstd::map::Map<Word, Word>>,
) -> SlotHeaderView {
    match value_update(delta.values@, slot.name) {
        Some(value) => SlotHeaderView { value, ..slot },
        None => match map_update(delta.maps@, maps, slot.name) {
            Some(root) => SlotHeaderView { value: root, ..slot },
            None => slot,
        },
    }
}

/// The slots of a header once a delta was applied.
pub open spec fn slots_after(
    slots: Seq<SlotHeaderView>,
    delta: StorageDelta,
    maps: vstd::map::Map<Seq<char>, vstd::map::Map<Word, Word>>,
) -> Seq<SlotHeaderView> {
    slots.map_values(|slot: SlotHeaderView| slot_after(slot, delta, maps))
}

fn find_value_update(values: &Vec<(String, Word)>, slot_name: &String) -> (r: Option<Word>)
    ensures
        r == value_update(values@, slot_name@),
        has_canonical_updates(values@) ==> (r matches Some(value) ==> value.is_canonical()),
{
    let mut i: usize = values.len();
    assert(values@.take(i as int) =~= values@);
    while i > 0
        invariant
            i <= values@.len(),
            value_update(values@, slot_name@) == value_update(
                values@.take(i as int),
                slot_name@,
            ),
        decreases i,
    {
        let ghost upto = values@.take(i as int);
        i = i - 1;
        assert(upto.drop_last() =~= values@.take(i as int));
        assert(upto.last() == values@[i as int]);
        if values[i].0 == *slot_name {
            return Some(values[i].1);
        }
    }
    None
}

/// Returns a copy of the entries of the map of a slot, none if there is no such slot.
pub fn copy_slot_entries(maps: &Vec<SlotEntries>, slot_name: &String) -> (r: Vec<(Word, Word)>)
    requires
        are_slot_entries(maps@),
    ensures
        are_map_entries(r@),
        pairs_by_key(r@) == slot_map(pairs_by_key(slot_pairs(maps@)), slot_name@),
{
    proof {
        lemma_pairs_by_key(slot_pairs(maps@));
    }
    match find_slot(maps, slot_name) {
        Some(i) => {
            assert(slot_pairs(maps@)[i as int].0 == slot_name@);
            copy_entries(&maps[i].entries)
        },
        None => {
            assert(!pairs_by_key(slot_pairs(maps@)).contains_key(slot_name@)) by {
                if pairs_by_key(slot_pairs(maps@)).contains_key(slot_name@) {
                    let j = choose|j: int|
                        0 <= j < slot_pairs(maps@).len() && (#[trigger] slot_pairs(maps@)[j]).0
                            == slot_name@;
                    assert(maps@[j].slot_name@ == slot_name@);
                }
            }
            Vec::new()
        },
    }
}

fn map_root_after(
    maps: &Vec<SlotEntries>,
    slot_name: &String,
    entries: &Vec<(Word, Word)>,
) -> (r: Option<Word>)
    requires
        are_slot_entries(maps@),
        forall|j: int|
            0 <= j < entries@.len() ==> (#[trigger] entries@[j]).0.is_canonical()
                && entries@[j].1.is_canonical(),
    ensures
        ({
            let map = map_after(slot_map(pairs_by_key(slot_pairs(maps@)), slot_name@), entries@);
            &&& r is Some <==> fits_map(map)
            &&& r matches Some(root) ==> root == storage_map_root_of(map) && root.is_canonical()
        }),
{
    let ghost start = slot_map(pairs_by_key(slot_pairs(maps@)), slot_name@);
    let mut changed: Vec<(Word, Word)> = copy_slot_entries(maps, slot_name);
    let mut j: usize = 0;
    while j < entries.len()
        invariant
            j <= entries@.len(),
            are_map_entries(changed@),
            pairs_by_key(changed@) == map_after(start, entries@.take(j as int)),
            forall|k: int|
                0 <= k < entries@.len() ==> (#[trigger] entries@[k]).0.is_canonical()
                    && entries@[k].1.is_canonical(),
        decreases entries@.len() - j,
    {
        proof {
            assert(entries@.take(j + 1).drop_last() =~= entries@.take(j as int));
            assert(entries@.take(j + 1).last() == entries@[j as int]);
        }
        let (key, value) = entries[j];
        if value == Word::empty() {
            remove_entry(&mut changed, key);
        } else {
            insert_entry(&mut changed, key, value);
        }
        j = j + 1;
    }
    assert(entries@.take(j as int) =~= entries@);
    map_root(&changed)
}

fn copy_entries(entries: &Vec<(Word, Word)>) -> (r: Vec<(Word, Word)>)
    ensures
        r@ == entries@,
{
    let mut copy: Vec<(Word, Word)> = Vec::new();
    let mut i: usize = 0;
    while i < entries.len()
        invariant
            i <= entries@.len(),
            copy@ =~= entries@.take(i as int),
        decreases entries@.len() - i,
    {
        copy.push(entries[i]);
        i = i + 1;
    }
    copy
}

fn find_map_update(
    deltas: &Vec<MapDelta>,
    maps: &Vec<SlotEntries>,
    slot_name: &String,
) -> (r: Option<Option<Word>>)
    requires
        are_slot_entries(maps@),
        forall|i: int, j: int|
            0 <= i < deltas@.len() && 0 <= j < deltas@[i].entries@.len() ==> (
            #[trigger] deltas@[i].entries@[j]).0.is_canonical()
                && deltas@[i].entries@[j].1.is_canonical(),
    ensures
        r is Some <==> fits_update(deltas@, pairs_by_key(slot_pairs(maps@)), slot_name@),
        r matches Some(root) ==> root == map_update(
            deltas@,
            pairs_by_key(slot_pairs(maps@)),
            slot_name@,
        ),
        r matches Some(Some(root)) ==> root.is_canonical(),
{
    let ghost contents = pairs_by_key(slot_pairs(maps@));
    let mut i: usize = deltas.len();
    assert(deltas@.take(i as int) =~= deltas@);
    while i > 0
        invariant
            i <= deltas@.len(),
            contents == pairs_by_key(slot_pairs(maps@)),
            map_update(deltas@, contents, slot_name@) == map_update(
                deltas@.take(i as int),
                contents,
                slot_name@,
            ),
            fits_update(deltas@, contents, slot_name@) == fits_update(
                deltas@.take(i as int),
                contents,
                slot_name@,
            ),
            are_slot_entries(maps@),
            forall|k: int, j: int|
                0 <= k < deltas@.len() && 0 <= j < deltas@[k].entries@.len() ==> (
                #[trigger] deltas@[k].entries@[j]).0.is_canonical()
                    && deltas@[k].entries@[j].1.is_canonical(),
        decreases i,
    {
        let ghost upto = deltas@.take(i as int);
        i = i - 1;
        assert(upto.drop_last() =~= deltas@.take(i as int));
        assert(upto.last() == deltas@[i as int]);
        if deltas[i].slot_name == *slot_name && deltas[i].entries.len() > 0 {
            assert forall|j: int| 0 <= j < deltas@[i as int].entries@.len() implies (
            #[trigger] deltas@[i as int].entries@[j]).0.is_canonical()
                && deltas@[i as int].entries@[j].1.is_canonical() by {}
            return match map_root_after(maps, slot_name, &deltas[i].entries) {
                Some(root) => Some(Some(root)),
                None => None,
            };
        }
    }
    Some(None)
}

/// Applies a storage delta to the header of an account's storage. `maps` holds the entries of the
/// maps that the delta changes. Map deltas without entries change nothing. Fails if no tree can hold
/// a changed map, or the slots make up no header.
pub fn apply_storage_delta(
    header: &AccountStorageHeader,
    delta: &StorageDelta,
    maps: &Vec<SlotEntries>,
) -> (r: Result<AccountStorageHeader, DatabaseError>)
    requires
        are_slot_entries(maps@),
        is_canonical_delta(*delta),
    ensures
        ({
            let contents = pairs_by_key(slot_pairs(maps@));
            let slots = slots_after(header@, *delta, contents);
            if fits_changes(header@, *delta, contents) && is_storage_header(slots) {
                r matches Ok(changed) && changed@ == slots
            } else {
                r == Err::<AccountStorageHeader, DatabaseError>(
                    DatabaseError::DataCorrupted(DataCorruption::InvalidStorageHeader),
                )
            }
        }),
        has_canonical_values(header@) ==> (r matches Ok(changed) ==> has_canonical_values(
            changed@,
        )),
{
    let ghost contents = pairs_by_key(slot_pairs(maps@));
    let ghost expected = slots_after(header@, *delta, contents);
    let mut slots: Vec<StorageSlotHeader> = Vec::new();
    let mut i: usize = 0;
    while i < header.slots.len()
        invariant
            i <= header.slots@.len(),
            contents == pairs_by_key(slot_pairs(maps@)),
            expected == slots_after(header@, *delta, contents),
            slots@.map_values(|slot: StorageSlotHeader| slot@) =~= expected.take(i as int),
            are_slot_entries(maps@),
            is_canonical_delta(*delta),
            has_canonical_values(header@) ==> has_canonical_values(expected.take(i as int)),
            forall|k: int|
                0 <= k < i && value_update(delta.values@, (#[trigger] header@[k]).name) is None
                    ==> fits_update(delta.maps@, contents, header@[k].name),
        decreases header.slots@.len() - i,
    {
        let slot = &header.slots[i];
        assert(header@[i as int] == slot@);
        let value: Word = match find_value_update(&delta.values, &slot.name) {
            Some(value) => value,
            None => match find_map_update(&delta.maps, maps, &slot.name) {
                Some(Some(root)) => root,
                Some(None) => slot.value,
                None => {
                    assert(!fits_update(delta.maps@, contents, header@[i as int].name));
                    return Err(
                        DatabaseError::DataCorrupted(DataCorruption::InvalidStorageHeader),
                    );
                },
            },
        };
        let changed = StorageSlotHeader {
            name: slot.name.clone(),
            slot_type: slot.slot_type,
            value,
        };
        assert(changed@ == expected[i as int]);
        proof {
            if has_canonical_values(header@) {
                assert(header@[i as int].value.is_canonical());
                assert forall|k: int| 0 <= k < i + 1 implies (#[trigger] expected.take(
                    i + 1,
                )[k]).value.is_canonical() by {
                    if k < i {
                        assert(expected.take(i as int)[k] == expected.take(i + 1)[k]);
                    }
                }
            }
        }
        let ghost before = slots@;
        slots.push(changed);
        assert(slots@.map_values(|slot: StorageSlotHeader| slot@) =~= before.map_values(
            |slot: StorageSlotHeader| slot@,
        ).push(changed@));
        i = i + 1;
    }
    let changed_header = AccountStorageHeader { slots };
    assert(changed_header@ =~= expected);
    assert(expected.take(i as int) =~= expected);
    match storage_commitment(&changed_header) {
        Some(_) => Ok(changed_header),
        None => Err(DatabaseError::DataCorrupted(DataCorruption::InvalidStorageHeader)),
    }
}

/// A storage delta leaves the names and types of the slots as they are, and changes no slot that it
/// does not name.
pub proof fn lemma_storage_delta_keeps_slots(
    slots: Seq<SlotHeaderView>,
    delta: StorageDelta,
    maps: vstd::map::Map<Seq<char>, vstd::map::Map<Word, Word>>,
    i: int,
)
    requires
        0 <= i < slots.len(),
    ensures
        slots_after(slots, delta, maps).len() == slots.len(),
        slots_after(slots, delta, maps)[i].name == slots[i].name,
        slots_after(slots, delta, maps)[i].slot_type == slots[i].slot_type,
        (forall|k: int|
            0 <= k < delta.values@.len() ==> (#[trigger] delta.values@[k]).0@ != slots[i].name) && (
        forall|k: int|
            0 <= k < delta.maps@.len() ==> (#[trigger] delta.maps@[k]).slot_name@ != slots[i].name)
            ==> slots_after(slots, delta, maps)[i] == slots[i],
{
    let name = slots[i].name;
    if (forall|k: int| 0 <= k < delta.values@.len() ==> (#[trigger] delta.values@[k]).0@ != name)
        && (forall|k: int|
        0 <= k < delta.maps@.len() ==> (#[trigger] delta.maps@[k]).slot_name@ != name) {
        lemma_no_value_update(delta.values@, name);
        lemma_no_map_update(delta.maps@, maps, name);
    }
}

proof fn lemma_no_value_update(values: Seq<(String, Word)>, name: Seq<char>)
    requires
        forall|k: int| 0 <= k < values.len() ==> (#[trigger] values[k]).0@ != name,
    ensures
        value_update(values, name) is None,
    decreases values.len(),
{
    if values.len() > 0 {
        assert(values[values.len() - 1].0@ != name);
        lemma_no_value_update(values.drop_last(), name);
    }
}

proof fn lemma_no_map_update(
    deltas: Seq<MapDelta>,
    maps: vstd::map::Map<Seq<char>, vstd::map::Map<Word, Word>>,
    name: Seq<char>,
)
    requires
        forall|k: int| 0 <= k < deltas.len() ==> (#[trigger] deltas[k]).slot_name@ != name,
    ensures
        map_update(deltas, maps, name) is None,
    decreases deltas.len(),
{
    if deltas.len() > 0 {
        assert(deltas[deltas.len() - 1].slot_name@ != name);
        lemma_no_map_update(deltas.drop_last(), maps, name);
    }
}

// VAULT DELTA
// ================================================================================================

/// The changes of an account's vault: by how much the amount under a key of a fungible asset
/// changes, and which non-fungible assets are added (`true`) or removed.
#[derive(Clone, Debug, PartialEq, Eq)]
pub struct VaultDelta {
    pub fungible: Vec<(Word, i64)>,
    pub non_fungible: Vec<(Asset, bool)>,
}

/// The distance of an integer from zero.
pub open spec fn magnitude(amount: i64) -> u64 {
    if amount < 0 {
        (-amount) as u64
    } else {
        amount as u64
    }
}

/// Returns the distance of an integer from zero.
pub fn unsigned_abs(amount: i64) -> (r: u64)
    ensures
        r == magnitude(amount),
        r == amount || r == -amount,
{
    if amount == i64::MIN {
        0x8000_0000_0000_0000
    } else if amount < 0 {
        (-amount) as u64
    } else {
        amount as u64
    }
}

/// Whether a vault delta speaks of assets: the fungible changes name vault keys of fungible faucets,
/// the others non-fungible assets.
pub open spec fn is_vault_delta(delta: VaultDelta) -> bool {
    &&& forall|i: int|
        0 <= i < delta.fungible@.len() ==> {
            let key = (#[trigger] delta.fungible@[i]).0;
            key.is_canonical() && is_vault_key(key) && is_fungible_faucet(faucet_of_key(key))
        }
    &&& forall|i: int|
        0 <= i < delta.non_fungible@.len() ==> {
            let asset = (#[trigger] delta.non_fungible@[i]).0;
            is_asset(asset) && !is_fungible_faucet(faucet_of_key(asset.key)) && asset.value
                != Word::empty()
        }
}

/// Whether no fungible change exceeds the largest amount.
pub open spec fn has_bounded_amounts(fungible: Seq<(Word, i64)>) -> bool {
    forall|i: int|
        0 <= i < fungible.len() ==> magnitude((#[trigger] fungible[i]).1) <= MAX_FUNGIBLE_AMOUNT
}

/// The asset by which a fungible change changes a vault.
pub open spec fn changed_asset(change: (Word, i64)) -> Asset {
    Asset { key: change.0, value: Word(magnitude(change.1), 0, 0, 0) }
}

/// What a vault holds after fungible changes, or `None` if one of them cannot be applied.
pub open spec fn contents_after_fungible(
    contents: vstd::map::Map<Word, Word>,
    fungible: Seq<(Word, i64)>,
) -> Option<vstd::map::Map<Word, Word>>
    decreases fungible.len(),
{
    if fungible.len() == 0 {
        Some(contents)
    } else {
        match contents_after_fungible(contents, fungible.drop_last()) {
            None => None,
            Some(before) => if fungible.last().1 == 0 {
                Some(before)
            } else if fungible.last().1 > 0 {
                contents_with_added(before, changed_asset(fungible.last()))
            } else {
                contents_with_removed(before, changed_asset(fungible.last()))
            },
        }
    }
}

/// What a vault holds after non-fungible changes, or `None` if one of them cannot be applied.
pub open spec fn contents_after_non_fungible(
    contents: vstd::map::Map<Word, Word>,
    non_fungible: Seq<(Asset, bool)>,
) -> Option<vstd::map::Map<Word, Word>>
    decreases non_fungible.len(),
{
    if non_fungible.len() == 0 {
        Some(contents)
    } else {
        match contents_after_non_fungible(contents, non_fungible.drop_last()) {
            None => None,
            Some(before) => if non_fungible.last().1 {
                contents_with_added(before, non_fungible.last().0)
            } else {
                contents_with_removed(before, non_fungible.last().0)
            },
        }
    }
}

/// What a vault holds after a delta, or `None` if the delta cannot be applied.
pub open spec fn contents_after_delta(
    contents: vstd::map::Map<Word, Word>,
    delta: VaultDelta,
) -> Option<vstd::map::Map<Word, Word>> {
    match contents_after_fungible(contents, delta.fungible@) {
        None => None,
        Some(contents) => contents_after_non_fungible(contents, delta.non_fungible@),
    }
}

/// A fungible change that cannot be applied stops those after it.
pub proof fn lemma_fungible_prefix(
    contents: vstd::map::Map<Word, Word>,
    fungible: Seq<(Word, i64)>,
    count: int,
)
    requires
        0 <= count <= fungible.len(),
        contents_after_fungible(contents, fungible.take(count)) is None,
    ensures
        contents_after_fungible(contents, fungible) is None,
    decreases fungible.len() - count,
{
    if count < fungible.len() {
        assert(fungible.take(count + 1).drop_last() =~= fungible.take(count));
        lemma_fungible_prefix(contents, fungible, count + 1);
    } else {
        assert(fungible.take(count) =~= fungible);
    }
}

/// A non-fungible change that cannot be applied stops those after it.
pub proof fn lemma_non_fungible_prefix(
    contents: vstd::map::Map<Word, Word>,
    non_fungible: Seq<(Asset, bool)>,
    count: int,
)
    requires
        0 <= count <= non_fungible.len(),
        contents_after_non_fungible(contents, non_fungible.take(count)) is None,
    ensures
        contents_after_non_fungible(contents, non_fungible) is None,
    decreases non_fungible.len() - count,
{
    if count < non_fungible.len() {
        assert(non_fungible.take(count + 1).drop_last() =~= non_fungible.take(count));
        lemma_non_fungible_prefix(contents, non_fungible, count + 1);
    } else {
        assert(non_fungible.take(count) =~= non_fungible);
    }
}

/// Whether the vault's tree has room for each added amount when it is added.
pub open spec fn fungible_fits(
    contents: vstd::map::Map<Word, Word>,
    fungible: Seq<(Word, i64)>,
) -> bool
    decreases fungible.len(),
{
    fungible.len() > 0 ==> {
        &&& fungible_fits(contents, fungible.drop_last())
        &&& fungible.last().1 > 0 ==> (contents_after_fungible(
            contents,
            fungible.drop_last(),
        ) matches Some(before) ==> has_room(before, fungible.last().0))
    }
}

/// Whether the vault's tree has room for each added non-fungible asset when it is added.
pub open spec fn non_fungible_fits(
    contents: vstd::map::Map<Word, Word>,
    non_fungible: Seq<(Asset, bool)>,
) -> bool
    decreases non_fungible.len(),
{
    non_fungible.len() > 0 ==> {
        &&& non_fungible_fits(contents, non_fungible.drop_last())
        &&& non_fungible.last().1 ==> (contents_after_non_fungible(
            contents,
            non_fungible.drop_last(),
        ) matches Some(before) ==> has_room(before, non_fungible.last().0.key))
    }
}

/// Whether the vault's tree has room for the assets that a delta adds.
pub open spec fn delta_fits(contents: vstd::map::Map<Word, Word>, delta: VaultDelta) -> bool {
    &&& fungible_fits(contents, delta.fungible@)
    &&& contents_after_fungible(contents, delta.fungible@) matches Some(after)
        ==> non_fungible_fits(after, delta.non_fungible@)
}

proof fn lemma_fungible_fits_prefix(
    contents: vstd::map::Map<Word, Word>,
    fungible: Seq<(Word, i64)>,
    count: int,
)
    requires
        0 <= count <= fungible.len(),
        !fungible_fits(contents, fungible.take(count)),
    ensures
        !fungible_fits(contents, fungible),
    decreases fungible.len() - count,
{
    if count < fungible.len() {
        assert(fungible.take(count + 1).drop_last() =~= fungible.take(count));
        lemma_fungible_fits_prefix(contents, fungible, count + 1);
    } else {
        assert(fungible.take(count) =~= fungible);
    }
}

proof fn lemma_non_fungible_fits_prefix(
    contents: vstd::map::Map<Word, Word>,
    non_fungible: Seq<(Asset, bool)>,
    count: int,
)
    requires
        0 <= count <= non_fungible.len(),
        !non_fungible_fits(contents, non_fungible.take(count)),
    ensures
        !non_fungible_fits(contents, non_fungible),
    decreases non_fungible.len() - count,
{
    if count < non_fungible.len() {
        assert(non_fungible.take(count + 1).drop_last() =~= non_fungible.take(count));
        lemma_non_fungible_fits_prefix(contents, non_fungible, count + 1);
    } else {
        assert(non_fungible.take(count) =~= non_fungible);
    }
}

fn apply_fungible_changes(vault: &mut AssetVault, fungible: &Vec<(Word, i64)>) -> (r: bool)
    requires
        has_bounded_amounts(fungible@),
        forall|i: int|
            0 <= i < fungible@.len() ==> {
                let key = (#[trigger] fungible@[i]).0;
                key.is_canonical() && is_vault_key(key) && is_fungible_faucet(faucet_of_key(key))
            },
    ensures
        r ==> Some(vault_contents(*final(vault))) == contents_after_fungible(
            vault_contents(*old(vault)),
            fungible@,
        ),
        r ==> fungible_fits(vault_contents(*old(vault)), fungible@),
        !r ==> contents_after_fungible(vault_contents(*old(vault)), fungible@) is None
            || !fungible_fits(vault_contents(*old(vault)), fungible@),
{
    let ghost start = vault_contents(*vault);
    let mut i: usize = 0;
    while i < fungible.len()
        invariant
            i <= fungible@.len(),
            start == vault_contents(*old(vault)),
            has_bounded_amounts(fungible@),
            forall|k: int|
                0 <= k < fungible@.len() ==> {
                    let key = (#[trigger] fungible@[k]).0;
                    key.is_canonical() && is_vault_key(key) && is_fungible_faucet(
                        faucet_of_key(key),
                    )
                },
            Some(vault_contents(*vault)) == contents_after_fungible(start, fungible@.take(i as int)),
            fungible_fits(start, fungible@.take(i as int)),
        decreases fungible@.len() - i,
    {
        let (key, amount) = fungible[i];
        let asset = Asset { key, value: Word(unsigned_abs(amount), 0, 0, 0) };
        let ghost before = vault_contents(*vault);
        proof {
            assert(fungible@[i as int] == (key, amount));
            assert(asset == changed_asset(fungible@[i as int]));
            assert(fungible@.take(i + 1).drop_last() =~= fungible@.take(i as int));
            assert(fungible@.take(i + 1).last() == fungible@[i as int]);
            if contents_after_fungible(start, fungible@.take(i + 1)) is None {
                lemma_fungible_prefix(start, fungible@, i + 1);
            }
            if !fungible_fits(start, fungible@.take(i + 1)) {
                lemma_fungible_fits_prefix(start, fungible@, i + 1);
            }
        }
        if amount > 0 {
            if !vault_add_asset(vault, asset) {
                return false;
            }
        } else if amount < 0 {
            if !vault_remove_asset(vault, asset) {
                return false;
            }
        }
        i = i + 1;
    }
    assert(fungible@.take(i as int) =~= fungible@);
    true
}

fn apply_non_fungible_changes(vault: &mut AssetVault, non_fungible: &Vec<(Asset, bool)>) -> (r: bool)
    requires
        forall|i: int|
            0 <= i < non_fungible@.len() ==> is_asset((#[trigger] non_fungible@[i]).0)
                && non_fungible@[i].0.value != Word::empty(),
    ensures
        r ==> Some(vault_contents(*final(vault))) == contents_after_non_fungible(
            vault_contents(*old(vault)),
            non_fungible@,
        ),
        r ==> non_fungible_fits(vault_contents(*old(vault)), non_fungible@),
        !r ==> contents_after_non_fungible(vault_contents(*old(vault)), non_fungible@) is None
            || !non_fungible_fits(vault_contents(*old(vault)), non_fungible@),
{
    let ghost start = vault_contents(*vault);
    let mut i: usize = 0;
    while i < non_fungible.len()
        invariant
            i <= non_fungible@.len(),
            start == vault_contents(*old(vault)),
            forall|k: int|
                0 <= k < non_fungible@.len() ==> is_asset((#[trigger] non_fungible@[k]).0)
                    && non_fungible@[k].0.value != Word::empty(),
            Some(vault_contents(*vault)) == contents_after_non_fungible(
                start,
                non_fungible@.take(i as int),
            ),
            non_fungible_fits(start, non_fungible@.take(i as int)),
        decreases non_fungible@.len() - i,
    {
        let (asset, added) = non_fungible[i];
        let ghost before = vault_contents(*vault);
        proof {
            assert(non_fungible@[i as int] == (asset, added));
            assert(non_fungible@.take(i + 1).drop_last() =~= non_fungible@.take(i as int));
            assert(non_fungible@.take(i + 1).last() == non_fungible@[i as int]);
            if contents_after_non_fungible(start, non_fungible@.take(i + 1)) is None {
                lemma_non_fungible_prefix(start, non_fungible@, i + 1);
            }
            if !non_fungible_fits(start, non_fungible@.take(i + 1)) {
                lemma_non_fungible_fits_prefix(start, non_fungible@, i + 1);
            }
        }
        if added {
            if !vault_add_asset(vault, asset) {
                return false;
            }
        } else {
            if !vault_remove_asset(vault, asset) {
                return false;
            }
        }
        i = i + 1;
    }
    assert(non_fungible@.take(i as int) =~= non_fungible@);
    true
}

/// The root of a vault with the given assets after a delta, or a failure if the assets do not make up
/// a vault, or the delta cannot be applied to it.
pub open spec fn vault_root_after(assets: Seq<Asset>, delta: VaultDelta) -> Result<
    Word,
    DatabaseError,
> {
    let contents = pairs_by_key(asset_pairs(assets));
    match contents_after_delta(contents, delta) {
        Some(after) => if are_vault_assets(assets) && delta_fits(contents, delta) {
            Ok(vault_root_of(after))
        } else {
            Err(DatabaseError::AssetVaultError)
        },
        None => Err(DatabaseError::AssetVaultError),
    }
}

/// Returns the root of the vault that holds the assets once the delta was applied to it. Fails if
/// the assets do not make up a vault, or the delta cannot be applied to it.
pub fn vault_root_after_delta(assets: &Vec<Asset>, delta: &VaultDelta) -> (r: Result<
    Word,
    DatabaseError,
>)
    requires
        forall|i: int| 0 <= i < assets@.len() ==> is_asset(#[trigger] assets@[i]),
        is_vault_delta(*delta),
        has_bounded_amounts(delta.fungible@),
    ensures
        r == vault_root_after(assets@, *delta),
{
    let mut vault = match build_vault(assets) {
        Some(vault) => vault,
        None => return Err(DatabaseError::AssetVaultError),
    };
    if !apply_fungible_changes(&mut vault, &delta.fungible) {
        return Err(DatabaseError::AssetVaultError);
    }
    if !apply_non_fungible_changes(&mut vault, &delta.non_fungible) {
        return Err(DatabaseError::AssetVaultError);
    }
    Ok(vault_root(&vault))
}

} // verus!
