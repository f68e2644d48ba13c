//! Laws on changes of accounts: what a change does to the assets, the slots and the maps of an account,
//! and what rows of the database stand for.

use vstd::prelude::*;

use crate::account_id::AccountId;
use crate::db::accounts::{asset_column, word_column};
use crate::db::delta::{
    assets_of_rows, balance_of, balances_of_rows, contents_after_delta, contents_after_fungible,
    contents_after_non_fungible, fungible_vault_key, grouped_entries, headers_of_row, map_after,
    map_update, slot_after, slot_map, slots_after, value_update, AccountStateDeltaRow, MapDelta,
    MapEntryView, StateHeadersView, StorageDelta, VaultAssetRow, VaultDelta,
};
use crate::errors::{DataCorruption, DatabaseError};
use crate::protocol::{
    faucet_of_key, is_fungible_faucet, storage_header_of_bytes, storage_map_root_of,
};
use crate::state::account::{Asset, SlotHeaderView};
use crate::word::Word;

verus! {

// MAPS
// ================================================================================================

/// Of the changes of a key the last one counts: the map holds its value afterwards, or no value if that
/// is empty. Keys that no change names have the values that they had.
pub proof fn lemma_changed_entries(map: vstd::map::Map<Word, Word>, entries: Seq<(Word, Word)>)
    ensures
        forall|i: int|
            0 <= i < entries.len() && (forall|j: int|
                i < j < entries.len() ==> (#[trigger] entries[j]).0 != entries[i].0) ==> {
                let (key, value) = #[trigger] entries[i];
                if value == Word(0, 0, 0, 0) {
                    !map_after(map, entries).contains_key(key)
                } else {
                    &&& map_after(map, entries).contains_key(key)
                    &&& map_after(map, entries)[key] == value
                }
            },
        forall|key: Word|
            (forall|i: int| 0 <= i < entries.len() ==> (#[trigger] entries[i]).0 != key) ==> (
            #[trigger] map_after(map, entries).contains_key(key) <==> map.contains_key(key)) && (
            map.contains_key(key) ==> map_after(map, entries)[key] == map[key]),
    decreases entries.len(),
{
    if entries.len() > 0 {
        let before = entries.drop_last();
        let after = map_after(map, entries);
        lemma_changed_entries(map, before);
        assert forall|i: int|
            0 <= i < entries.len() && (forall|j: int|
                i < j < entries.len() ==> (#[trigger] entries[j]).0 != entries[i].0) implies {
            let (key, value) = #[trigger] entries[i];
            if value == Word(0, 0, 0, 0) {
                !after.contains_key(key)
            } else {
                &&& after.contains_key(key)
                &&& after[key] == value
            }
        } by {
            if i < before.len() {
                assert(before[i] == entries[i]);
                assert(entries[entries.len() - 1].0 != entries[i].0);
                assert forall|j: int| i < j < before.len() implies (#[trigger] before[j]).0
                    != before[i].0 by {
                    assert(entries[j].0 != entries[i].0);
                }
            }
        }
        assert forall|key: Word|
            (forall|i: int| 0 <= i < entries.len() ==> (#[trigger] entries[i]).0 != key) implies (
        #[trigger] after.contains_key(key) <==> map.contains_key(key)) && (map.contains_key(key)
            ==> after[key] == map[key]) by {
            assert(entries[entries.len() - 1].0 != key);
            assert forall|i: int| 0 <= i < before.len() implies (#[trigger] before[i]).0 != key by {
                assert(entries[i].0 != key);
            }
            assert(map_after(map, before).contains_key(key) <==> map.contains_key(key));
        }
    }
}

// SLOTS
// ================================================================================================

proof fn lemma_value_update(values: Seq<(String, Word)>, name: Seq<char>, i: int)
    requires
        0 <= i < values.len(),
        values[i].0@ == name,
        forall|j: int| i < j < values.len() ==> (#[trigger] values[j]).0@ != name,
    ensures
        value_update(values, name) == Some(values[i].1),
    decreases values.len(),
{
    if i < values.len() - 1 {
        let before = values.drop_last();
        assert(values[values.len() - 1].0@ != name);
        assert forall|j: int| i < j < before.len() implies (#[trigger] before[j]).0@ != name by {
            assert(values[j].0@ != name);
        }
        lemma_value_update(before, name, i);
    }
}

proof fn lemma_no_value(values: Seq<(String, Word)>, name: Seq<char>)
    requires
        forall|j: int| 0 <= j < values.len() ==> (#[trigger] values[j]).0@ != name,
    ensures
        value_update(values, name) is None,
    decreases values.len(),
{
    if values.len() > 0 {
        let before = values.drop_last();
        assert(values[values.len() - 1].0@ != name);
        assert forall|j: int| 0 <= j < before.len() implies (#[trigger] before[j]).0@ != name by {
            assert(values[j].0@ != name);
        }
        lemma_no_value(before, name);
    }
}

proof fn lemma_map_update(
    deltas: Seq<MapDelta>,
    maps: vstd::map::Map<Seq<char>, vstd::map::Map<Word, Word>>,
    name: Seq<char>,
    i: int,
)
    requires
        0 <= i < deltas.len(),
        deltas[i].slot_name@ == name,
        deltas[i].entries@.len() > 0,
        forall|j: int| i < j < deltas.len() ==> (#[trigger] deltas[j]).slot_name@ != name,
    ensures
        map_update(deltas, maps, name) == Some(
            storage_map_root_of(map_after(slot_map(maps, name), deltas[i].entries@)),
        ),
    decreases deltas.len(),
{
    if i < deltas.len() - 1 {
        let before = deltas.drop_last();
        assert(deltas[deltas.len() - 1].slot_name@ != name);
        assert forall|j: int| i < j < before.len() implies (
        #[trigger] before[j]).slot_name@ != name by {
            assert(deltas[j].slot_name@ != name);
        }
        lemma_map_update(before, maps, name, i);
    }
}

/// A slot has the value that the change of the storage gives it. If it gives it none, but changes
/// entries of its map, the slot has the root of the map with the changed entries.
pub proof fn lemma_changed_slots(
    slots: Seq<SlotHeaderView>,
    delta: StorageDelta,
    maps: vstd::map::Map<Seq<char>, vstd::map::Map<Word, Word>>,
    i: int,
)
    requires
        0 <= i < slots.len(),
    ensures
        forall|k: int|
            0 <= k < delta.values@.len() && (#[trigger] delta.values@[k]).0@ == slots[i].name && (
            forall|j: int|
                k < j < delta.values@.len() ==> (#[trigger] delta.values@[j]).0@ != slots[i].name)
                ==> slots_after(slots, delta, maps)[i].value == delta.values@[k].1,
        (forall|k: int|
            0 <= k < delta.values@.len() ==> (#[trigger] delta.values@[k]).0@ != slots[i].name)
            ==> forall|k: int|
            0 <= k < delta.maps@.len() && (#[trigger] delta.maps@[k]).slot_name@ == slots[i].name
                && delta.maps@[k].entries@.len() > 0 && (forall|j: int|
                k < j < delta.maps@.len() ==> (#[trigger] delta.maps@[j]).slot_name@
                    != slots[i].name) ==> slots_after(slots, delta, maps)[i].value
                == storage_map_root_of(
                map_after(
                    if maps.contains_key(slots[i].name) {
                        maps[slots[i].name]
                    } else {
                        vstd::map::Map::empty()
                    },
                    delta.maps@[k].entries@,
                ),
            ),
{
    let name = slots[i].name;
    assert(slots_after(slots, delta, maps)[i] == slot_after(slots[i], delta, maps));
    assert forall|k: int|
        0 <= k < delta.values@.len() && (#[trigger] delta.values@[k]).0@ == name && (forall|j: int|
            k < j < delta.values@.len() ==> (
            #[trigger] delta.values@[j]).0@ != name) implies slots_after(slots, delta, maps)[i].value
        == delta.values@[k].1 by {
        lemma_value_update(delta.values@, name, k);
    }
    if forall|k: int| 0 <= k < delta.values@.len() ==> (#[trigger] delta.values@[k]).0@ != name {
        lemma_no_value(delta.values@, name);
        assert forall|k: int|
            0 <= k < delta.maps@.len() && (#[trigger] delta.maps@[k]).slot_name@ == name
                && delta.maps@[k].entries@.len() > 0 && (forall|j: int|
                k < j < delta.maps@.len() ==> (
                #[trigger] delta.maps@[j]).slot_name@ != name) implies slots_after(
            slots,
            delta,
            maps,
        )[i].value == storage_map_root_of(
            map_after(slot_map(maps, name), delta.maps@[k].entries@),
        ) by {
            lemma_map_update(delta.maps@, maps, name, k);
        }
    }
}

// VAULTS
// ================================================================================================

/// The amount of a fungible asset among the contents of a vault.
pub open spec fn amount_under(contents: vstd::map::Map<Word, Word>, key: Word) -> int {
    if contents.contains_key(key) {
        contents[key].0 as int
    } else {
        0
    }
}

/// Changes of fungible assets add up: the amount under each key changes by what the change says, and a
/// key whose amount becomes zero is removed. The changes cannot be applied exactly if an amount would
/// become negative or too large, or if an amount is taken of an asset that is not there.
#[verifier::spinoff_prover]
pub proof fn lemma_fungible_changes(
    contents: vstd::map::Map<Word, Word>,
    fungible: Seq<(Word, i64)>,
)
    requires
        forall|i: int, j: int|
            0 <= i < j < fungible.len() ==> (#[trigger] fungible[i]).0 != (#[trigger] fungible[j]).0,
        forall|i: int|
            0 <= i < fungible.len() ==> is_fungible_faucet(
                faucet_of_key((#[trigger] fungible[i]).0),
            ),
    ensures
        contents_after_fungible(contents, fungible) is Some <==> forall|i: int|
            0 <= i < fungible.len() ==> {
                let (key, change) = #[trigger] fungible[i];
                &&& change > 0 ==> amount_under(contents, key) + change <= 0x7FFF_FFFF_8000_0000
                &&& change < 0 ==> contents.contains_key(key) && amount_under(contents, key)
                    + change >= 0
            },
        contents_after_fungible(contents, fungible) matches Some(after) ==> forall|i: int|
            0 <= i < fungible.len() && (#[trigger] fungible[i]).1 != 0 ==> {
                let (key, change) = fungible[i];
                &&& amount_under(after, key) == amount_under(contents, key) + change
                &&& after.contains_key(key) <==> amount_under(contents, key) + change != 0
                &&& after.contains_key(key) ==> after[key].1 == 0 && after[key].2 == 0
                    && after[key].3 == 0
            },
    decreases fungible.len(),
{
    if fungible.len() > 0 {
        let before = fungible.drop_last();
        let last = fungible.len() - 1;
        let (last_key, last_change) = fungible.last();
        assert forall|i: int, j: int| 0 <= i < j < before.len() implies (#[trigger] before[i]).0 != (
        #[trigger] before[j]).0 by {
            assert(fungible[i].0 != fungible[j].0);
        }
        assert forall|i: int| 0 <= i < before.len() implies is_fungible_faucet(
            faucet_of_key((#[trigger] before[i]).0),
        ) by {
            assert(is_fungible_faucet(faucet_of_key(fungible[i].0)));
        }
        assert(is_fungible_faucet(faucet_of_key(fungible[last].0)));
        lemma_fungible_changes(contents, before);
        match contents_after_fungible(contents, before) {
            None => {
                let i = choose|i: int|
                    0 <= i < before.len() && !{
                        let (key, change) = #[trigger] before[i];
                        &&& change > 0 ==> amount_under(contents, key) + change
                            <= 0x7FFF_FFFF_8000_0000
                        &&& change < 0 ==> contents.contains_key(key) && amount_under(contents, key)
                            + change >= 0
                    };
                assert(fungible[i] == before[i]);
            },
            Some(middle) => {
                assert forall|i: int| 0 <= i < before.len() implies {
                    let (key, change) = #[trigger] fungible[i];
                    &&& change > 0 ==> amount_under(contents, key) + change <= 0x7FFF_FFFF_8000_0000
                    &&& change < 0 ==> contents.contains_key(key) && amount_under(contents, key)
                        + change >= 0
                } by {
                    assert(before[i] == fungible[i]);
                }
                assert forall|i: int| 0 <= i < before.len() implies (#[trigger] before[i]).0
                    != last_key || before[i].1 == 0 by {
                    assert(fungible[i].0 != fungible[last].0);
                }
                lemma_other_amounts(contents, before, last_key);
                assert(amount_under(middle, last_key) == amount_under(contents, last_key));
                assert(fungible[last] == (last_key, last_change));
                if contents_after_fungible(contents, fungible) is Some {
                    let after = contents_after_fungible(contents, fungible)->0;
                    assert forall|i: int|
                        0 <= i < fungible.len() && (#[trigger] fungible[i]).1 != 0 implies {
                        let (key, change) = fungible[i];
                        &&& amount_under(after, key) == amount_under(contents, key) + change
                        &&& after.contains_key(key) <==> amount_under(contents, key) + change != 0
                        &&& after.contains_key(key) ==> after[key].1 == 0 && after[key].2 == 0
                            && after[key].3 == 0
                    } by {
                        if i < last {
                            assert(before[i] == fungible[i]);
                            assert(fungible[i].0 != fungible[last].0);
                        }
                    }
                }
            },
        }
    }
}

/// An asset that no change names, or only changes of nothing, is as it was.
pub proof fn lemma_other_amounts(
    contents: vstd::map::Map<Word, Word>,
    fungible: Seq<(Word, i64)>,
    key: Word,
)
    requires
        contents_after_fungible(contents, fungible) is Some,
        forall|i: int|
            0 <= i < fungible.len() ==> (#[trigger] fungible[i]).0 != key || fungible[i].1 == 0,
    ensures
        contents_after_fungible(contents, fungible)->0.contains_key(key) <==> contents.contains_key(
            key,
        ),
        contents.contains_key(key) ==> contents_after_fungible(contents, fungible)->0[key]
            == contents[key],
    decreases fungible.len(),
{
    if fungible.len() > 0 {
        let before = fungible.drop_last();
        assert(fungible[fungible.len() - 1].0 != key || fungible[fungible.len() - 1].1 == 0);
        assert forall|i: int| 0 <= i < before.len() implies (#[trigger] before[i]).0 != key
            || before[i].1 == 0 by {
            assert(fungible[i].0 != key || fungible[i].1 == 0);
        }
        lemma_other_amounts(contents, before, key);
    }
}

/// Changes of non-fungible assets add and remove the assets that they name, and no others. They cannot
/// be applied exactly if an asset that is added is there, or one that is removed is not.
pub proof fn lemma_non_fungible_changes(
    contents: vstd::map::Map<Word, Word>,
    non_fungible: Seq<(Asset, bool)>,
)
    requires
        forall|i: int, j: int|
            0 <= i < j < non_fungible.len() ==> (#[trigger] non_fungible[i]).0.key != (
            #[trigger] non_fungible[j]).0.key,
        forall|i: int|
            0 <= i < non_fungible.len() ==> !is_fungible_faucet(
                faucet_of_key((#[trigger] non_fungible[i]).0.key),
            ),
    ensures
        contents_after_non_fungible(contents, non_fungible) is Some <==> forall|i: int|
            0 <= i < non_fungible.len() ==> (#[trigger] non_fungible[i]).1
                != contents.contains_key(non_fungible[i].0.key),
        contents_after_non_fungible(contents, non_fungible) matches Some(after) ==> forall|i: int|
            0 <= i < non_fungible.len() ==> {
                let (asset, added) = #[trigger] non_fungible[i];
                &&& after.contains_key(asset.key) == added
                &&& added ==> after[asset.key] == asset.value
            },
        contents_after_non_fungible(contents, non_fungible) is Some ==> forall|key: Word|
            (forall|i: int|
                0 <= i < non_fungible.len() ==> (#[trigger] non_fungible[i]).0.key != key) ==> (
            #[trigger] contents_after_non_fungible(contents, non_fungible)->0.contains_key(key)
                <==> contents.contains_key(key)) && (contents.contains_key(key)
                ==> contents_after_non_fungible(contents, non_fungible)->0[key] == contents[key]),
    decreases non_fungible.len(),
{
    if non_fungible.len() > 0 {
        let before = non_fungible.drop_last();
        let last = non_fungible.len() - 1;
        let (last_asset, last_added) = non_fungible.last();
        assert forall|i: int, j: int| 0 <= i < j < before.len() implies (
        #[trigger] before[i]).0.key != (#[trigger] before[j]).0.key by {
            assert(non_fungible[i].0.key != non_fungible[j].0.key);
        }
        assert forall|i: int| 0 <= i < before.len() implies !is_fungible_faucet(
            faucet_of_key((#[trigger] before[i]).0.key),
        ) by {
            assert(!is_fungible_faucet(faucet_of_key(non_fungible[i].0.key)));
        }
        assert(!is_fungible_faucet(faucet_of_key(non_fungible[last].0.key)));
        lemma_non_fungible_changes(contents, before);
        match contents_after_non_fungible(contents, before) {
            None => {
                let i = choose|i: int|
                    0 <= i < before.len() && (#[trigger] before[i]).1 == contents.contains_key(
                        before[i].0.key,
                    );
                assert(non_fungible[i] == before[i]);
            },
            Some(middle) => {
                assert forall|i: int| 0 <= i < before.len() implies (#[trigger] non_fungible[i]).1
                    != contents.contains_key(non_fungible[i].0.key) by {
                    assert(before[i] == non_fungible[i]);
                }
                assert(middle.contains_key(last_asset.key) <==> contents.contains_key(
                    last_asset.key,
                )) by {
                    assert forall|i: int| 0 <= i < before.len() implies (
                    #[trigger] before[i]).0.key != last_asset.key by {
                        assert(non_fungible[i].0.key != non_fungible[last].0.key);
                    }
                }
                assert(non_fungible[last] == (last_asset, last_added));
                if contents_after_non_fungible(contents, non_fungible) is Some {
                    let after = contents_after_non_fungible(contents, non_fungible)->0;
                    assert forall|i: int| 0 <= i < non_fungible.len() implies {
                        let (asset, added) = #[trigger] non_fungible[i];
                        &&& after.contains_key(asset.key) == added
                        &&& added ==> after[asset.key] == asset.value
                    } by {
                        if i < last {
                            assert(before[i] == non_fungible[i]);
                            assert(non_fungible[i].0.key != non_fungible[last].0.key);
                        }
                    }
                    assert forall|key: Word|
                        (forall|i: int|
                            0 <= i < non_fungible.len() ==> (#[trigger] non_fungible[i]).0.key
                                != key) implies (#[trigger] after.contains_key(key)
                        <==> contents.contains_key(key)) && (contents.contains_key(key)
                        ==> after[key] == contents[key]) by {
                        assert(non_fungible[last].0.key != key);
                        assert forall|i: int| 0 <= i < before.len() implies (
                        #[trigger] before[i]).0.key != key by {
                            assert(non_fungible[i].0.key != key);
                        }
                        assert(middle.contains_key(key) <==> contents.contains_key(key));
                    }
                }
            },
        }
    }
}

/// A change of a vault applies its fungible changes first, and its non-fungible ones to what results.
pub proof fn lemma_vault_changes_are_all_applied(
    contents: vstd::map::Map<Word, Word>,
    delta: VaultDelta,
)
    ensures
        contents_after_delta(contents, delta) is None <==> (contents_after_fungible(
            contents,
            delta.fungible@,
        ) is None || contents_after_non_fungible(
            contents_after_fungible(contents, delta.fungible@)->0,
            delta.non_fungible@,
        ) is None),
        contents_after_fungible(contents, delta.fungible@) matches Some(middle)
            ==> contents_after_delta(contents, delta) == contents_after_non_fungible(
            middle,
            delta.non_fungible@,
        ),
        delta.fungible@.len() == 0 && delta.non_fungible@.len() == 0 ==> contents_after_delta(
            contents,
            delta,
        ) == Some(contents),
{
}

// BALANCES
// ================================================================================================

/// The assets of an account are those of all its rows that hold one, in order. Rows of removed assets
/// are left out.
pub proof fn lemma_assets_of_rows(rows: Seq<VaultAssetRow>)
    ensures
        assets_of_rows(rows) matches Ok(assets) ==> {
            &&& assets.len() <= rows.len()
            &&& forall|i: int|
                0 <= i < rows.len() && (#[trigger] rows[i]).asset is Some ==> (asset_column(
                    rows[i].asset->0@,
                ) matches Ok(asset) && assets.contains(asset))
            &&& forall|asset: Asset| #[trigger]
                assets.contains(asset) ==> exists|i: int|
                    0 <= i < rows.len() && (#[trigger] rows[i]).asset is Some && asset_column(
                        rows[i].asset->0@,
                    ) == Ok::<Asset, DatabaseError>(asset)
        },
        assets_of_rows(rows) matches Err(error) ==> exists|i: int|
            0 <= i < rows.len() && (#[trigger] rows[i]).asset is Some && asset_column(
                rows[i].asset->0@,
            ) == Err::<Asset, DatabaseError>(error),
    decreases rows.len(),
{
    if rows.len() > 0 {
        let before = rows.drop_last();
        let last = rows.len() - 1;
        lemma_assets_of_rows(before);
        match assets_of_rows(before) {
            Err(error) => {
                let i = choose|i: int|
                    0 <= i < before.len() && (#[trigger] before[i]).asset is Some && asset_column(
                        before[i].asset->0@,
                    ) == Err::<Asset, DatabaseError>(error);
                assert(rows[i] == before[i]);
            },
            Ok(found) => {
                assert(rows[last] == rows.last());
                if let Ok(assets) = assets_of_rows(rows) {
                    assert forall|i: int|
                        0 <= i < rows.len() && (#[trigger] rows[i]).asset is Some implies (
                    asset_column(rows[i].asset->0@) matches Ok(asset) && assets.contains(asset)) by {
                        if i < last {
                            assert(before[i] == rows[i]);
                            let asset = asset_column(rows[i].asset->0@)->Ok_0;
                            let k = choose|k: int| 0 <= k < found.len() && found[k] == asset;
                            assert(assets[k] == asset);
                        } else {
                            assert(assets[found.len() as int] == asset_column(
                                rows[i].asset->0@,
                            )->Ok_0);
                        }
                    }
                    assert forall|asset: Asset| #[trigger] assets.contains(asset) implies exists|
                        i: int,
                    |
                        0 <= i < rows.len() && (#[trigger] rows[i]).asset is Some && asset_column(
                            rows[i].asset->0@,
                        ) == Ok::<Asset, DatabaseError>(asset) by {
                        let k = choose|k: int| 0 <= k < assets.len() && assets[k] == asset;
                        if k < found.len() {
                            assert(found[k] == asset);
                            assert(found.contains(asset));
                            let i = choose|i: int|
                                0 <= i < before.len() && (#[trigger] before[i]).asset is Some
                                    && asset_column(before[i].asset->0@) == Ok::<
                                    Asset,
                                    DatabaseError,
                                >(asset);
                            assert(rows[i] == before[i]);
                        }
                    }
                }
            },
        }
    }
}

/// The balance of a faucet is the amount of its asset, or zero if there is none.
pub proof fn lemma_balances(assets: Seq<Asset>, faucet_id: AccountId)
    requires
        is_fungible_faucet(faucet_id),
    ensures
        forall|i: int|
            0 <= i < assets.len() && faucet_of_key((#[trigger] assets[i]).key) == faucet_id && (
            forall|j: int|
                i < j < assets.len() ==> faucet_of_key((#[trigger] assets[j]).key) != faucet_id)
                ==> balance_of(assets, faucet_id) == assets[i].value.0,
        (forall|i: int|
            0 <= i < assets.len() ==> faucet_of_key((#[trigger] assets[i]).key) != faucet_id)
            ==> balance_of(assets, faucet_id) == 0,
    decreases assets.len(),
{
    if assets.len() > 0 {
        let before = assets.drop_last();
        let last = assets.len() - 1;
        lemma_balances(before, faucet_id);
        assert forall|i: int|
            0 <= i < assets.len() && faucet_of_key((#[trigger] assets[i]).key) == faucet_id && (
            forall|j: int|
                i < j < assets.len() ==> faucet_of_key(
                    (#[trigger] assets[j]).key,
                ) != faucet_id) implies balance_of(assets, faucet_id) == assets[i].value.0 by {
            if i < last {
                assert(faucet_of_key(assets[last].key) != faucet_id);
                assert(before[i] == assets[i]);
                assert forall|j: int| i < j < before.len() implies faucet_of_key(
                    (#[trigger] before[j]).key,
                ) != faucet_id by {
                    assert(faucet_of_key(assets[j].key) != faucet_id);
                }
            }
        }
        if forall|i: int|
            0 <= i < assets.len() ==> faucet_of_key((#[trigger] assets[i]).key) != faucet_id {
            assert(faucet_of_key(assets[last].key) != faucet_id);
            assert forall|j: int| 0 <= j < before.len() implies faucet_of_key(
                (#[trigger] before[j]).key,
            ) != faucet_id by {
                assert(faucet_of_key(assets[j].key) != faucet_id);
            }
        }
    }
}

/// Balances are given for all faucets, in their order, from the assets of the rows.
pub proof fn lemma_balances_of_all_faucets(
    faucet_ids: Seq<AccountId>,
    rows: Seq<VaultAssetRow>,
)
    ensures
        balances_of_rows(faucet_ids, rows) matches Ok(balances) ==> balances.len()
            == faucet_ids.len(),
        faucet_ids.len() > 0 ==> (balances_of_rows(faucet_ids, rows) is Ok <==> assets_of_rows(
            rows,
        ) is Ok),
        balances_of_rows(faucet_ids, rows) matches Ok(balances) ==> forall|i: int|
            0 <= i < faucet_ids.len() ==> #[trigger] balances[i] == balance_of(
                assets_of_rows(rows)->Ok_0,
                faucet_ids[i],
            ),
        forall|i: int|
            0 <= i < faucet_ids.len() ==> fungible_vault_key(#[trigger] faucet_ids[i]) == Word(
                0,
                0,
                faucet_ids[i].suffix,
                faucet_ids[i].prefix,
            ),
{
}

// ROWS
// ================================================================================================

/// The map of a slot holds the values of all its rows under their keys. Of rows with the same key the last
/// one counts.
pub proof fn lemma_grouped_entry(entries: Seq<MapEntryView>, i: int)
    requires
        0 <= i < entries.len(),
        forall|j: int|
            i < j < entries.len() ==> (#[trigger] entries[j]).slot_name != entries[i].slot_name
                || entries[j].key != entries[i].key,
    ensures
        grouped_entries(entries).contains_key(entries[i].slot_name),
        grouped_entries(entries)[entries[i].slot_name].contains_key(entries[i].key),
        grouped_entries(entries)[entries[i].slot_name][entries[i].key] == entries[i].value,
    decreases entries.len(),
{
    let last = entries.len() - 1;
    if i < last {
        let before = entries.drop_last();
        assert(before[i] == entries[i]);
        assert(entries[last].slot_name != entries[i].slot_name || entries[last].key
            != entries[i].key);
        assert forall|j: int| i < j < before.len() implies (#[trigger] before[j]).slot_name
            != before[i].slot_name || before[j].key != before[i].key by {
            assert(entries[j].slot_name != entries[i].slot_name || entries[j].key
                != entries[i].key);
        }
        lemma_grouped_entry(before, i);
    }
}

/// The map of a slot holds nothing but what its rows hold: there is a row of the slot for each key.
pub proof fn lemma_grouped_keys(entries: Seq<MapEntryView>, name: Seq<char>, key: Word)
    requires
        grouped_entries(entries).contains_key(name),
        grouped_entries(entries)[name].contains_key(key),
    ensures
        exists|i: int|
            0 <= i < entries.len() && (#[trigger] entries[i]).slot_name == name && entries[i].key
                == key,
    decreases entries.len(),
{
    if entries.len() > 0 {
        let before = entries.drop_last();
        let last = entries.len() - 1;
        if entries[last].slot_name != name || entries[last].key != key {
            lemma_grouped_keys(before, name, key);
            let i = choose|i: int|
                0 <= i < before.len() && (#[trigger] before[i]).slot_name == name && before[i].key
                    == key;
            assert(entries[i] == before[i]);
        }
    }
}

/// There is no map of a slot without a row of the slot.
pub proof fn lemma_grouped_slots(entries: Seq<MapEntryView>, name: Seq<char>)
    requires
        grouped_entries(entries).contains_key(name),
    ensures
        exists|i: int| 0 <= i < entries.len() && (#[trigger] entries[i]).slot_name == name,
    decreases entries.len(),
{
    if entries.len() > 0 {
        let before = entries.drop_last();
        let last = entries.len() - 1;
        if entries[last].slot_name != name {
            lemma_grouped_slots(before, name);
            let i = choose|i: int|
                0 <= i < before.len() && (#[trigger] before[i]).slot_name == name;
            assert(entries[i] == before[i]);
        }
    }
}

/// The latest row of an account is read as it is: its nonce, its code commitment and its storage header.
/// A row that lacks the nonce or the code commitment is refused.
pub proof fn lemma_headers_of_rows(account_id: AccountId, row: AccountStateDeltaRow)
    ensures
        headers_of_row(account_id, None) == Err::<StateHeadersView, DatabaseError>(
            DatabaseError::AccountNotFoundInDb(account_id),
        ),
        row.nonce is None ==> headers_of_row(account_id, Some(row)) == Err::<StateHeadersView, DatabaseError>(
            DatabaseError::DataCorrupted(DataCorruption::MissingNonce(account_id)),
        ),
        row.nonce is Some && row.code_commitment is None ==> headers_of_row(account_id, Some(row))
            == Err::<StateHeadersView, DatabaseError>(
            DatabaseError::DataCorrupted(DataCorruption::MissingCodeCommitment(account_id)),
        ),
        headers_of_row(account_id, Some(row)) matches Ok(headers) ==> {
            &&& row.nonce is Some && headers.nonce == row.nonce->0 as u64
            &&& row.code_commitment is Some && word_column(row.code_commitment->0@) == Ok::<
                Word,
                DatabaseError,
            >(headers.code_commitment)
            &&& row.storage_header is None ==> headers.storage_header.len() == 0
            &&& row.storage_header matches Some(bytes) ==> storage_header_of_bytes(bytes@) == Some(
                headers.storage_header,
            )
        },
        row.nonce is Some && row.code_commitment is Some && word_column(row.code_commitment->0@) is Ok
            && (row.storage_header matches Some(bytes) ==> storage_header_of_bytes(bytes@) is Some)
            ==> headers_of_row(account_id, Some(row)) is Ok,
{
}

} // verus!
