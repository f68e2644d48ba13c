//! The account state forest and the database hold the same: an update of an account that is applied
//! to both leaves them with the same vault and the same storage maps, and so with the same roots.
//!
//! Trees are found by the hashes of their names, and entries by the hashes of their keys. What is
//! said here holds as long as no two of the names or keys in question have the same hash.

use vstd::prelude::*;

use crate::account_id::AccountId;
use crate::account_state_forest::laws::{
    lemma_changed_maps_keep_others, lemma_hashed_changes, lemma_new_contents,
    lemma_new_maps_keep_others, lemma_update_keeps_other_trees, names_map, names_slot, touches,
};
use crate::account_state_forest::model::{
    hashed_entries, is_empty_vault_delta, latest_contents, map_lineage, vault_lineage, with_account,
    with_changed_maps, with_changed_vault, with_changes, with_new_maps, with_new_tree, Trees,
};
use crate::block_number::BlockNumber;
use crate::db::consistency::{
    are_account_tables, are_latest_assets, are_latest_entries, is_delta_of, is_stored,
    lemma_changed_account_is_stored, lemma_new_account_is_stored, lemma_other_accounts_are_kept,
};
use crate::db::delta::{map_after, slot_map, MapDelta};
use crate::db::entries::pairs_by_key;
use crate::db::stored::{
    latest_rows, lemma_empty_values_are_removed, lemma_map_with_both, lemma_map_with_pairs,
    lemma_map_without_entries, map_with_entries, stored_maps,
};
use crate::db::stored_assets::stored_vault;
use crate::db::tables::{are_reads_of, are_written, AccountTables};
use crate::db::updates::{
    delta_entries, entry_views, is_account_update, slot_header, AccountDelta, AccountReads,
    AccountUpdateDetails, BlockAccountUpdate, FullAccountState, PartialStateView, StorageSlot,
    StorageSlotContent,
};
use crate::db::upsert::{is_readable_header, is_written_with_root, AccountWrites};
use crate::errors::DatabaseError;
use crate::protocol::{
    account_id_bytes, asset_pairs, has_no_collision, hashed_map, is_asset, is_valid_account_id,
    lemma_account_id_round_trip, valued_entries,
};
use crate::smt_forest::{smt_root_of, with_version, TreeVersion};
use crate::word::Word;

verus! {

// AGREEMENT
// ================================================================================================

/// Whether the forest and the database hold the same vault and the same maps of an account, under
/// the given slot names.
pub open spec fn agrees(
    trees: Trees,
    tables: AccountTables,
    account_id: AccountId,
    names: Set<Seq<char>>,
) -> bool {
    let id = account_id_bytes(account_id);
    &&& latest_contents(trees, vault_lineage(account_id)) == stored_vault(tables.assets@, id)
    &&& forall|name: Seq<char>| #[trigger]
        names.contains(name) ==> latest_contents(trees, map_lineage(account_id, name))
            == hashed_map(slot_map(stored_maps(tables.storage@, id), name))
}

/// Whether the vault and the maps with the given slot names are different trees of the forest.
pub open spec fn has_own_trees(account_id: AccountId, names: Set<Seq<char>>) -> bool {
    &&& forall|name: Seq<char>| #[trigger]
        names.contains(name) ==> map_lineage(account_id, name) != vault_lineage(account_id)
    &&& forall|a: Seq<char>, b: Seq<char>|
        #![trigger names.contains(a), names.contains(b)]
        names.contains(a) && names.contains(b) && map_lineage(account_id, a) == map_lineage(
            account_id,
            b,
        ) ==> a == b
}

/// Whether all changed entries have slot names and keys among the given ones.
pub open spec fn has_changes_among(
    maps: Seq<MapDelta>,
    names: Set<Seq<char>>,
    keys: Set<Word>,
) -> bool {
    forall|i: int|
        0 <= i < maps.len() ==> names.contains((#[trigger] maps[i]).slot_name@)
            && has_keys_among(maps[i].entries@, keys)
}

/// Whether all entries have keys among the given ones.
pub open spec fn has_keys_among(entries: Seq<(Word, Word)>, keys: Set<Word>) -> bool {
    forall|i: int| 0 <= i < entries.len() ==> keys.contains((#[trigger] entries[i]).0)
}

/// The names of the slots that hold maps.
pub open spec fn map_slot_names(slots: Seq<StorageSlot>) -> Set<Seq<char>> {
    Set::new(
        |name: Seq<char>|
            exists|i: int|
                0 <= i < slots.len() && (#[trigger] slots[i]).name@ == name
                    && slots[i].content is MapEntries,
    )
}

// STEPS
// ================================================================================================

proof fn lemma_same_values(a: vstd::map::Map<Word, Word>, b: vstd::map::Map<Word, Word>)
    requires
        valued_entries(a) == valued_entries(b),
    ensures
        hashed_map(a) == hashed_map(b),
{
    assert(hashed_map(a) =~= hashed_map(b));
}

proof fn lemma_keys_stay_among(
    map: vstd::map::Map<Word, Word>,
    slot_name: Seq<char>,
    entries: Seq<(Word, Word)>,
    keys: Set<Word>,
)
    requires
        map.dom().subset_of(keys),
        has_keys_among(entries, keys),
    ensures
        map_with_entries(map, slot_name, entry_views(slot_name, entries)).dom().subset_of(keys),
    decreases entries.len(),
{
    let views = entry_views(slot_name, entries);
    if entries.len() > 0 {
        let before = entries.drop_last();
        assert forall|i: int| 0 <= i < before.len() implies keys.contains(
            (#[trigger] before[i]).0,
        ) by {
            assert(before[i] == entries[i]);
        }
        lemma_keys_stay_among(map, slot_name, before, keys);
        assert(views.drop_last() =~= entry_views(slot_name, before));
        assert(keys.contains(entries[entries.len() - 1].0));
    }
}

proof fn lemma_latest_after_changes(
    trees: Trees,
    lineage: Seq<u8>,
    block_num: BlockNumber,
    entries: Seq<(Word, Word)>,
    other: Seq<u8>,
)
    ensures
        with_changes(trees, lineage, block_num, entries) matches Some(after) ==> {
            &&& latest_contents(after, lineage) == map_after(
                latest_contents(trees, lineage),
                entries,
            )
            &&& other != lineage ==> latest_contents(after, other) == latest_contents(trees, other)
        },
{
    if let Some(after) = with_changes(trees, lineage, block_num, entries) {
        if trees.contains_key(lineage) {
            let contents = map_after(trees[lineage].last().contents, entries);
            let added = TreeVersion { version: block_num.0 as u64, contents };
            assert(with_version(trees[lineage], added).last() == added);
        }
    }
}

/// Changed maps hold in the forest what they hold in the database.
proof fn lemma_changed_map_agrees(
    trees: Trees,
    account_id: AccountId,
    block_num: BlockNumber,
    maps: Seq<MapDelta>,
    name: Seq<char>,
    stored: vstd::map::Map<Word, Word>,
    names: Set<Seq<char>>,
    keys: Set<Word>,
)
    requires
        latest_contents(trees, map_lineage(account_id, name)) == hashed_map(stored),
        names.contains(name),
        has_own_trees(account_id, names),
        has_changes_among(maps, names, keys),
        has_no_collision(keys),
        stored.dom().subset_of(keys),
    ensures
        with_changed_maps(trees, account_id, block_num, maps) matches Some(after)
            ==> latest_contents(after, map_lineage(account_id, name)) == hashed_map(
            map_with_entries(stored, name, delta_entries(maps)),
        ),
        map_with_entries(stored, name, delta_entries(maps)).dom().subset_of(keys),
    decreases maps.len(),
{
    if maps.len() > 0 {
        let before = maps.drop_last();
        let last = maps.last();
        let entries = last.entries@;
        let views = entry_views(last.slot_name@, entries);
        assert forall|i: int| 0 <= i < before.len() implies names.contains(
            (#[trigger] before[i]).slot_name@,
        ) && has_keys_among(before[i].entries@, keys) by {
            assert(before[i] == maps[i]);
        }
        assert(maps[maps.len() - 1] == last);
        lemma_changed_map_agrees(
            trees,
            account_id,
            block_num,
            before,
            name,
            stored,
            names,
            keys,
        );
        let map = map_with_entries(stored, name, delta_entries(before));
        lemma_map_with_both(stored, name, delta_entries(before), views);
        if last.slot_name@ == name {
            lemma_hashed_changes(map, entries, keys);
            lemma_empty_values_are_removed(map, name, entries);
            lemma_same_values(
                map_with_entries(map, name, entry_views(name, entries)),
                map_after(map, entries),
            );
            lemma_keys_stay_among(map, name, entries, keys);
        } else {
            assert forall|i: int| 0 <= i < views.len() implies (#[trigger] views[i]).slot_name
                != name by {}
            lemma_map_without_entries(map, name, views);
            assert(names.contains(last.slot_name@) && names.contains(name));
        }
        if let Some(here) = with_changed_maps(trees, account_id, block_num, before) {
            if entries.len() > 0 {
                lemma_latest_after_changes(
                    here,
                    map_lineage(account_id, last.slot_name@),
                    block_num,
                    hashed_entries(entries),
                    map_lineage(account_id, name),
                );
            } else {
                assert(views =~= Seq::empty());
            }
        }
    }
}

/// New maps hold in the forest what they hold in the database.
proof fn lemma_new_map_agrees(
    trees: Trees,
    account_id: AccountId,
    block_num: BlockNumber,
    slots: Seq<StorageSlot>,
    position: int,
    entries: Seq<(Word, Word)>,
    names: Set<Seq<char>>,
    keys: Set<Word>,
)
    requires
        0 <= position < slots.len(),
        slots[position].content matches StorageSlotContent::MapEntries(found) && found@ == entries,
        forall|i: int, j: int|
            0 <= i < j < slots.len() ==> (#[trigger] slots[i]).name@ != (#[trigger] slots[j]).name@,
        forall|i: int| 0 <= i < slots.len() ==> names.contains((#[trigger] slots[i]).name@),
        has_own_trees(account_id, names),
        has_keys_among(entries, keys),
        has_no_collision(keys),
    ensures
        with_new_maps(trees, account_id, block_num, slots) matches Some(after) ==> latest_contents(
            after,
            map_lineage(account_id, slots[position].name@),
        ) == hashed_map(pairs_by_key(entries)),
    decreases slots.len(),
{
    let before = slots.drop_last();
    let last = slots.last();
    let name = slots[position].name@;
    let lineage = map_lineage(account_id, name);
    assert(slots[slots.len() - 1] == last);
    if let Some(after) = with_new_maps(trees, account_id, block_num, slots) {
        let here = with_new_maps(trees, account_id, block_num, before)->0;
        if position == slots.len() - 1 {
            let empty = vstd::map::Map::<Word, Word>::empty();
            lemma_hashed_changes(empty, entries, keys);
            lemma_empty_values_are_removed(empty, name, entries);
            lemma_map_with_pairs(name, entries);
            lemma_same_values(pairs_by_key(entries), map_after(empty, entries));
            assert(hashed_map(empty) =~= empty);
        } else {
            assert forall|i: int, j: int| 0 <= i < j < before.len() implies (
            #[trigger] before[i]).name@ != (#[trigger] before[j]).name@ by {
                assert(before[i] == slots[i] && before[j] == slots[j]);
            }
            assert forall|i: int| 0 <= i < before.len() implies names.contains(
                (#[trigger] before[i]).name@,
            ) by {
                assert(before[i] == slots[i]);
            }
            assert(before[position] == slots[position]);
            lemma_new_map_agrees(
                trees,
                account_id,
                block_num,
                before,
                position,
                entries,
                names,
                keys,
            );
            assert(names.contains(last.name@) && names.contains(name));
            assert(map_lineage(account_id, last.name@) != lineage);
        }
    }
}

// LAWS
// ================================================================================================

/// A forest that agrees with the database has the roots that are stored with the account.
pub proof fn lemma_agreement_means_same_roots(
    trees: Trees,
    tables: AccountTables,
    account_id: AccountId,
    names: Set<Seq<char>>,
    state: PartialStateView,
)
    requires
        agrees(trees, tables, account_id, names),
        is_stored(state, tables, account_id),
        forall|i: int|
            0 <= i < state.storage_header.len() && (
            #[trigger] state.storage_header[i]).slot_type is MapSlot ==> names.contains(
                state.storage_header[i].name,
            ),
    ensures
        smt_root_of(latest_contents(trees, vault_lineage(account_id))) == state.vault_root,
        forall|i: int|
            0 <= i < state.storage_header.len() && (
            #[trigger] state.storage_header[i]).slot_type is MapSlot ==> smt_root_of(
                latest_contents(trees, map_lineage(account_id, state.storage_header[i].name)),
            ) == state.storage_header[i].value,
{
}

/// A new account that is added to the forest and to the database is the same in both.
pub proof fn lemma_new_account_agrees(
    trees: Trees,
    tables: AccountTables,
    update: BlockAccountUpdate,
    account: FullAccountState,
    reads: AccountReads,
    block_num: BlockNumber,
    vault_root: Result<Word, DatabaseError>,
    writes: AccountWrites,
    after: AccountTables,
    names: Set<Seq<char>>,
    keys: Set<Word>,
)
    requires
        is_account_update(update),
        update.details == AccountUpdateDetails::FullState(account),
        is_written_with_root(update, reads, block_num, vault_root, Ok(writes@)),
        are_written(tables, writes, after),
        are_account_tables(tables),
        latest_rows(tables.storage@, account_id_bytes(update.account_id)).len() == 0,
        latest_rows(tables.assets@, account_id_bytes(update.account_id)).len() == 0,
        forall|i: int|
            0 <= i < account.slots@.len() ==> names.contains((#[trigger] account.slots@[i]).name@),
        forall|i: int|
            0 <= i < account.slots@.len() ==> ((
            #[trigger] account.slots@[i]).content matches StorageSlotContent::MapEntries(entries)
                ==> has_keys_among(entries@, keys)),
        has_own_trees(update.account_id, names),
        has_no_collision(keys),
    ensures
        with_account(trees, block_num, update) matches Some(trees_after) ==> agrees(
            trees_after,
            after,
            update.account_id,
            map_slot_names(account.slots@),
        ),
{
    let account_id = update.account_id;
    let id = account_id_bytes(account_id);
    let slots = account.slots@;
    lemma_new_account_is_stored(
        tables,
        update,
        account,
        reads,
        block_num,
        vault_root,
        writes,
        after,
    );
    let header = slots.map_values(|slot: StorageSlot| slot_header(slot));
    assert(is_readable_header(header));
    assert forall|i: int, j: int| 0 <= i < j < slots.len() implies (#[trigger] slots[i]).name@ != (
    #[trigger] slots[j]).name@ by {
        assert(header[i].name != header[j].name);
    }
    if let Some(trees_after) = with_account(trees, block_num, update) {
        let vault = vault_lineage(account_id);
        let entries = asset_pairs(account.assets@);
        let with_vault = with_new_tree(trees, vault, block_num, entries)->0;
        assert forall|i: int| 0 <= i < entries.len() implies (#[trigger] entries[i]).1
            != Word::empty() by {
            assert(is_asset(account.assets@[i]) && account.assets@[i].value != Word::empty());
        }
        lemma_new_contents(entries);
        assert(!names_slot(account_id, slots, vault)) by {
            if names_slot(account_id, slots, vault) {
                let i = choose|i: int|
                    0 <= i < slots.len() && map_lineage(account_id, (#[trigger] slots[i]).name@)
                        == vault;
                assert(names.contains(slots[i].name@));
            }
        }
        lemma_new_maps_keep_others(with_vault, account_id, block_num, slots, vault);
        assert forall|name: Seq<char>| #[trigger]
            map_slot_names(slots).contains(name) implies latest_contents(
            trees_after,
            map_lineage(account_id, name),
        ) == hashed_map(slot_map(stored_maps(after.storage@, id), name)) by {
            let i = choose|i: int|
                0 <= i < slots.len() && (#[trigger] slots[i]).name@ == name
                    && slots[i].content is MapEntries;
            lemma_new_map_agrees(
                with_vault,
                account_id,
                block_num,
                slots,
                i,
                slots[i].content->MapEntries_0@,
                names,
                keys,
            );
        }
    }
}

/// A change of an account that is applied to the forest and to the database leaves them the same if
/// they were the same before.
pub proof fn lemma_changed_account_agrees(
    trees: Trees,
    tables: AccountTables,
    update: BlockAccountUpdate,
    delta: AccountDelta,
    reads: AccountReads,
    block_num: BlockNumber,
    vault_root: Result<Word, DatabaseError>,
    writes: AccountWrites,
    after: AccountTables,
    state: PartialStateView,
    names: Set<Seq<char>>,
    keys: Set<Word>,
)
    requires
        is_account_update(update),
        update.details == AccountUpdateDetails::Delta(delta),
        is_written_with_root(update, reads, block_num, vault_root, Ok(writes@)),
        are_reads_of(reads, tables, update),
        are_written(tables, writes, after),
        are_account_tables(tables),
        is_stored(state, tables, update.account_id),
        state.code_commitment.is_canonical(),
        is_delta_of(delta, state.storage_header),
        agrees(trees, tables, update.account_id, names),
        has_changes_among(delta.storage.maps@, names, keys),
        has_own_trees(update.account_id, names),
        has_no_collision(keys),
        forall|name: Seq<char>| #[trigger]
            names.contains(name) ==> slot_map(
                stored_maps(tables.storage@, account_id_bytes(update.account_id)),
                name,
            ).dom().subset_of(keys),
    ensures
        with_account(trees, block_num, update) matches Some(trees_after) ==> agrees(
            trees_after,
            after,
            update.account_id,
            names,
        ),
{
    let account_id = update.account_id;
    let id = account_id_bytes(account_id);
    let maps = delta.storage.maps@;
    lemma_changed_account_is_stored(
        tables,
        update,
        delta,
        reads,
        block_num,
        vault_root,
        writes,
        after,
        state,
    );
    if let Some(trees_after) = with_account(trees, block_num, update) {
        let vault = vault_lineage(account_id);
        let with_vault = with_changed_vault(trees, account_id, block_num, delta.vault)->0;
        let contents = stored_vault(after.assets@, id);
        assert(latest_contents(with_vault, vault) == contents) by {
            if !is_empty_vault_delta(delta.vault) && trees.contains_key(vault) {
                let added = TreeVersion { version: block_num.0 as u64, contents };
                assert(with_version(trees[vault], added).last() == added);
            }
        }
        assert(!names_map(account_id, maps, vault)) by {
            if names_map(account_id, maps, vault) {
                let i = choose|i: int|
                    0 <= i < maps.len() && map_lineage(account_id, (#[trigger] maps[i]).slot_name@)
                        == vault;
                assert(names.contains(maps[i].slot_name@));
            }
        }
        lemma_changed_maps_keep_others(with_vault, account_id, block_num, maps, vault);
        assert forall|name: Seq<char>| #[trigger] names.contains(name) implies latest_contents(
            trees_after,
            map_lineage(account_id, name),
        ) == hashed_map(slot_map(stored_maps(after.storage@, id), name)) by {
            assert(map_lineage(account_id, name) != vault);
            assert(latest_contents(with_vault, map_lineage(account_id, name)) == latest_contents(
                trees,
                map_lineage(account_id, name),
            ));
            lemma_changed_map_agrees(
                with_vault,
                account_id,
                block_num,
                maps,
                name,
                slot_map(stored_maps(tables.storage@, id), name),
                names,
                keys,
            );
        }
    }
}

/// An update of an account leaves the forest and the database the same for every other account,
/// whose trees it does not touch.
pub proof fn lemma_other_account_agrees(
    trees: Trees,
    tables: AccountTables,
    update: BlockAccountUpdate,
    block_num: BlockNumber,
    writes: AccountWrites,
    after: AccountTables,
    other: AccountId,
    names: Set<Seq<char>>,
)
    requires
        are_account_tables(tables),
        are_written(tables, writes, after),
        are_latest_entries(writes.storage@, account_id_bytes(update.account_id)),
        are_latest_assets(writes.assets@, account_id_bytes(update.account_id)),
        is_valid_account_id(update.account_id),
        is_valid_account_id(other),
        other != update.account_id,
        agrees(trees, tables, other, names),
        !touches(update, vault_lineage(other)),
        forall|name: Seq<char>| #[trigger]
            names.contains(name) ==> !touches(update, map_lineage(other, name)),
    ensures
        with_account(trees, block_num, update) matches Some(trees_after) ==> agrees(
            trees_after,
            after,
            other,
            names,
        ),
{
    let id = account_id_bytes(update.account_id);
    let other_id = account_id_bytes(other);
    assert(other_id != id) by {
        lemma_account_id_round_trip(update.account_id, Seq::empty());
        lemma_account_id_round_trip(other, Seq::empty());
        assert(id + Seq::empty() =~= id);
        assert(other_id + Seq::empty() =~= other_id);
    }
    if let Some(trees_after) = with_account(trees, block_num, update) {
        lemma_update_keeps_other_trees(trees, block_num, update, vault_lineage(other));
        lemma_other_accounts_are_kept(
            tables.storage@,
            writes.storage@,
            tables.assets@,
            writes.assets@,
            id,
            other_id,
            Seq::empty(),
        );
        assert forall|name: Seq<char>| #[trigger] names.contains(name) implies latest_contents(
            trees_after,
            map_lineage(other, name),
        ) == hashed_map(slot_map(stored_maps(after.storage@, other_id), name)) by {
            lemma_update_keeps_other_trees(trees, block_num, update, map_lineage(other, name));
            lemma_other_accounts_are_kept(
                tables.storage@,
                writes.storage@,
                tables.assets@,
                writes.assets@,
                id,
                other_id,
                name,
            );
        }
    }
}

} // verus!
