//! What is read back of the rows that were written: the storage maps and the assets of an account as
//! its latest rows hold them.

use vstd::prelude::*;

use crate::db::delta::{
    grouped_entries, map_after, map_update, slot_after, slot_map, value_update, MapDelta,
    MapEntryView, StorageDelta,
};
use crate::db::entries::pairs_by_key;
use crate::db::history::{
    has_one_latest_row, lemma_contains_split, lemma_write_keeps_history, rows_after_write,
    HistoryRow,
};
use crate::db::tables::rows_after_writes;
use crate::db::updates::{
    all_slot_entries, delta_entries, entry_views, slot_entries, slot_header, StorageSlot,
    StorageSlotContent,
};
use crate::db::upsert::AccountStorageMapRowInsert;
use crate::protocol::{is_slot_name, storage_map_root_of, valued_entries, word_bytes, word_of_bytes};
use crate::state::account::SlotHeaderView;
use crate::word::Word;

verus! {

// LATEST ROWS
// ================================================================================================

/// Whether a row is a latest one of an account.
pub open spec fn is_latest_of<R: HistoryRow>(row: R, account_id: Seq<u8>) -> bool {
    row.latest() && row.subject().account_id == account_id
}

/// The latest rows of an account, in the order of the table.
pub open spec fn latest_rows<R: HistoryRow>(rows: Seq<R>, account_id: Seq<u8>) -> Seq<R> {
    rows.filter(|row: R| is_latest_of(row, account_id))
}

/// Whether no two rows have the same subject.
pub open spec fn has_distinct_subjects<R: HistoryRow>(rows: Seq<R>) -> bool {
    forall|i: int, j: int|
        0 <= i < j < rows.len() ==> (#[trigger] rows[i]).subject() != (#[trigger] rows[j]).subject()
}

/// The latest rows of an account are those rows of the table, each of another subject.
pub proof fn lemma_latest_rows<R: HistoryRow>(rows: Seq<R>, account_id: Seq<u8>)
    ensures
        forall|row: R| #[trigger]
            latest_rows(rows, account_id).contains(row) <==> rows.contains(row) && is_latest_of(
                row,
                account_id,
            ),
        has_one_latest_row(rows) ==> has_distinct_subjects(latest_rows(rows, account_id)),
    decreases rows.len(),
{
    reveal(Seq::filter);
    if rows.len() > 0 {
        let before = rows.drop_last();
        let found = latest_rows(before, account_id);
        let row = rows.last();
        lemma_latest_rows(before, account_id);
        assert forall|other: R| #[trigger] latest_rows(rows, account_id).contains(other)
            <==> rows.contains(other) && is_latest_of(other, account_id) by {
            lemma_contains_split(rows, other);
            if is_latest_of(row, account_id) {
                lemma_contains_split(found.push(row), other);
                assert(found.push(row).drop_last() =~= found);
            }
            assert(found.contains(other) <==> before.contains(other) && is_latest_of(
                other,
                account_id,
            ));
        }
        if has_one_latest_row(rows) {
            assert(has_one_latest_row(before));
            if is_latest_of(row, account_id) {
                assert(latest_rows(rows, account_id) =~= found.push(row));
                assert forall|i: int| 0 <= i < found.len() implies (#[trigger] found[i]).subject()
                    != row.subject() by {
                    assert(found.contains(found[i]));
                    let j = choose|j: int| 0 <= j < before.len() && before[j] == found[i];
                    assert(rows[j] == found[i]);
                    assert(rows[rows.len() - 1] == row);
                }
            }
        }
    }
}

/// Writing a latest row of an account replaces the latest row of its subject, and leaves the latest
/// rows of all other subjects.
pub proof fn lemma_latest_rows_after_write<R: HistoryRow>(rows: Seq<R>, row: R, account_id: Seq<u8>)
    requires
        has_one_latest_row(rows),
        row.latest(),
    ensures
        has_one_latest_row(rows_after_write(rows, row)),
        forall|other: R| #[trigger]
            latest_rows(rows_after_write(rows, row), account_id).contains(other) <==> {
                ||| other == row && row.subject().account_id == account_id
                ||| latest_rows(rows, account_id).contains(other) && other.subject()
                    != row.subject()
            },
{
    let after = rows_after_write(rows, row);
    lemma_write_keeps_history(rows, row);
    lemma_latest_rows(rows, account_id);
    lemma_latest_rows(after, account_id);
    assert(after[rows.len() as int] == row);
    assert forall|other: R| #[trigger] latest_rows(after, account_id).contains(other) implies {
        ||| other == row && row.subject().account_id == account_id
        ||| latest_rows(rows, account_id).contains(other) && other.subject() != row.subject()
    } by {
        let i = choose|i: int| 0 <= i < after.len() && after[i] == other;
        if i < rows.len() {
            rows[i].lemma_superseded();
            assert(rows[i] == other);
            assert(rows.contains(other));
        }
    }
    assert forall|other: R|
        latest_rows(rows, account_id).contains(other) && other.subject()
            != row.subject() implies #[trigger] latest_rows(after, account_id).contains(other) by {
        let i = choose|i: int| 0 <= i < rows.len() && rows[i] == other;
        assert(after[i] == other);
    }
}

// STORAGE MAPS
// ================================================================================================

/// The entry that a row of a storage map holds.
pub open spec fn entry_of_row(row: AccountStorageMapRowInsert) -> MapEntryView {
    MapEntryView {
        slot_name: row.slot_name@,
        key: word_of_bytes(row.key@)->Some_0,
        value: word_of_bytes(row.value@)->Some_0,
    }
}

/// Whether a row is that of an entry.
pub open spec fn holds_entry(row: AccountStorageMapRowInsert) -> bool {
    &&& is_slot_name(row.slot_name@)
    &&& word_of_bytes(row.key@) is Some
    &&& row.key@ == word_bytes(entry_of_row(row).key)
    &&& word_of_bytes(row.value@) is Some
}

/// Whether all rows are those of entries, with one latest row each.
pub open spec fn is_storage_table(rows: Seq<AccountStorageMapRowInsert>) -> bool {
    &&& has_one_latest_row(rows)
    &&& forall|i: int| 0 <= i < rows.len() ==> holds_entry(#[trigger] rows[i])
}

/// The entries that rows hold.
pub open spec fn entries_of_rows(rows: Seq<AccountStorageMapRowInsert>) -> Seq<MapEntryView> {
    rows.map_values(|row: AccountStorageMapRowInsert| entry_of_row(row))
}

/// The storage maps of an account, as its latest rows hold them.
pub open spec fn stored_maps(rows: Seq<AccountStorageMapRowInsert>, account_id: Seq<u8>) -> vstd::map::Map<
    Seq<char>,
    vstd::map::Map<Word, Word>,
> {
    grouped_entries(entries_of_rows(latest_rows(rows, account_id)))
}

/// Whether entries hold a value under a key of a slot.
pub open spec fn has_entry(
    entries: Seq<MapEntryView>,
    slot_name: Seq<char>,
    key: Word,
    value: Word,
) -> bool {
    exists|i: int|
        0 <= i < entries.len() && #[trigger] entries[i] == (MapEntryView { slot_name, key, value })
}

/// Whether no two entries have the same key in the same slot.
pub open spec fn has_distinct_entries(entries: Seq<MapEntryView>) -> bool {
    forall|i: int, j: int|
        0 <= i < j < entries.len() ==> (#[trigger] entries[i]).slot_name != (
        #[trigger] entries[j]).slot_name || entries[i].key != entries[j].key
}

/// The maps that entries with distinct keys make up hold exactly these entries.
pub proof fn lemma_grouped_entries(entries: Seq<MapEntryView>, slot_name: Seq<char>, key: Word)
    requires
        has_distinct_entries(entries),
    ensures
        forall|value: Word|
            #![trigger has_entry(entries, slot_name, key, value)]
            has_entry(entries, slot_name, key, value) <==> slot_map(
                grouped_entries(entries),
                slot_name,
            ).contains_key(key) && slot_map(grouped_entries(entries), slot_name)[key] == value,
    decreases entries.len(),
{
    if entries.len() > 0 {
        let before = entries.drop_last();
        let entry = entries.last();
        assert(has_distinct_entries(before));
        lemma_grouped_entries(before, slot_name, key);
        assert forall|value: Word|
            #![trigger has_entry(entries, slot_name, key, value)]
            has_entry(entries, slot_name, key, value) <==> slot_map(
                grouped_entries(entries),
                slot_name,
            ).contains_key(key) && slot_map(grouped_entries(entries), slot_name)[key] == value by {
            if has_entry(entries, slot_name, key, value) {
                let i = choose|i: int|
                    0 <= i < entries.len() && #[trigger] entries[i] == (MapEntryView {
                        slot_name,
                        key,
                        value,
                    });
                if i < before.len() {
                    assert(before[i] == entries[i]);
                    assert(has_entry(before, slot_name, key, value));
                    assert(entries[entries.len() - 1] == entry);
                }
            }
            if has_entry(before, slot_name, key, value) {
                let i = choose|i: int|
                    0 <= i < before.len() && #[trigger] before[i] == (MapEntryView {
                        slot_name,
                        key,
                        value,
                    });
                assert(entries[i] == before[i]);
                assert(entries[entries.len() - 1] == entry);
            }
            if entry.slot_name == slot_name && entry.key == key {
                assert(entries[entries.len() - 1] == entry);
            }
        }
    }
}

pub proof fn lemma_entries_are_distinct(rows: Seq<AccountStorageMapRowInsert>, account_id: Seq<u8>)
    requires
        has_distinct_subjects(rows),
        forall|i: int|
            0 <= i < rows.len() ==> holds_entry(#[trigger] rows[i]) && rows[i].account_id@
                == account_id,
    ensures
        has_distinct_entries(entries_of_rows(rows)),
{
    let entries = entries_of_rows(rows);
    assert forall|i: int, j: int| 0 <= i < j < entries.len() implies (
    #[trigger] entries[i]).slot_name != (#[trigger] entries[j]).slot_name || entries[i].key
        != entries[j].key by {
        assert(rows[i].subject() != rows[j].subject());
        if entries[i].slot_name == entries[j].slot_name && entries[i].key == entries[j].key {
            assert(holds_entry(rows[i]) && holds_entry(rows[j]));
            assert(rows[i].subject() == rows[j].subject());
        }
    }
}

/// The storage maps of an account hold a value under a key exactly if one of its latest rows does.
pub proof fn lemma_stored_maps(
    rows: Seq<AccountStorageMapRowInsert>,
    account_id: Seq<u8>,
    slot_name: Seq<char>,
    key: Word,
    value: Word,
)
    requires
        is_storage_table(rows),
    ensures
        ({
            let map = slot_map(stored_maps(rows, account_id), slot_name);
            map.contains_key(key) && map[key] == value
        }) <==> exists|row: AccountStorageMapRowInsert| #[trigger]
            latest_rows(rows, account_id).contains(row) && entry_of_row(row) == (MapEntryView {
                slot_name,
                key,
                value,
            }),
{
    let latest = latest_rows(rows, account_id);
    let entries = entries_of_rows(latest);
    lemma_latest_rows(rows, account_id);
    assert forall|i: int| 0 <= i < latest.len() implies holds_entry(#[trigger] latest[i])
        && latest[i].account_id@ == account_id by {
        assert(latest.contains(latest[i]));
        let j = choose|j: int| 0 <= j < rows.len() && rows[j] == latest[i];
        assert(holds_entry(rows[j]));
    }
    lemma_entries_are_distinct(latest, account_id);
    lemma_grouped_entries(entries, slot_name, key);
    if has_entry(entries, slot_name, key, value) {
        let i = choose|i: int|
            0 <= i < entries.len() && #[trigger] entries[i] == (MapEntryView {
                slot_name,
                key,
                value,
            });
        assert(latest.contains(latest[i]));
        assert(entry_of_row(latest[i]) == entries[i]);
    }
    if exists|row: AccountStorageMapRowInsert| #[trigger]
        latest.contains(row) && entry_of_row(row) == (MapEntryView { slot_name, key, value }) {
        let row = choose|row: AccountStorageMapRowInsert| #[trigger]
            latest.contains(row) && entry_of_row(row) == (MapEntryView { slot_name, key, value });
        let i = choose|i: int| 0 <= i < latest.len() && latest[i] == row;
        assert(entries[i] == entry_of_row(row));
    }
}

/// A storage map once entries were written to it, those of its slot in order.
pub open spec fn map_with_entries(
    map: vstd::map::Map<Word, Word>,
    slot_name: Seq<char>,
    entries: Seq<MapEntryView>,
) -> vstd::map::Map<Word, Word>
    decreases entries.len(),
{
    if entries.len() == 0 {
        map
    } else {
        let before = map_with_entries(map, slot_name, entries.drop_last());
        if entries.last().slot_name == slot_name {
            before.insert(entries.last().key, entries.last().value)
        } else {
            before
        }
    }
}

/// Writing an entry changes the value under its key, and no other value of the account or of another
/// account.
pub proof fn lemma_written_entry_is_read(
    rows: Seq<AccountStorageMapRowInsert>,
    row: AccountStorageMapRowInsert,
    account_id: Seq<u8>,
    slot_name: Seq<char>,
)
    requires
        is_storage_table(rows),
        holds_entry(row),
        row.is_latest,
    ensures
        is_storage_table(rows_after_write(rows, row)),
        slot_map(stored_maps(rows_after_write(rows, row), account_id), slot_name) == (
        if row.account_id@ == account_id && row.slot_name@ == slot_name {
            slot_map(stored_maps(rows, account_id), slot_name).insert(
                entry_of_row(row).key,
                entry_of_row(row).value,
            )
        } else {
            slot_map(stored_maps(rows, account_id), slot_name)
        }),
{
    let after = rows_after_write(rows, row);
    lemma_write_keeps_history(rows, row);
    assert forall|i: int| 0 <= i < after.len() implies holds_entry(#[trigger] after[i]) by {
        if i < rows.len() {
            assert(holds_entry(rows[i]));
            assert(after[i] == rows[i] || after[i] == rows[i].superseded());
        }
    }
    let old_map = slot_map(stored_maps(rows, account_id), slot_name);
    let new_map = slot_map(stored_maps(after, account_id), slot_name);
    let written = row.account_id@ == account_id && row.slot_name@ == slot_name;
    let entry = entry_of_row(row);
    let expected = if written {
        old_map.insert(entry.key, entry.value)
    } else {
        old_map
    };
    lemma_latest_rows_after_write(rows, row, account_id);
    assert forall|key: Word|
        {
            &&& #[trigger] new_map.contains_key(key) == expected.contains_key(key)
            &&& new_map.contains_key(key) ==> new_map[key] == expected[key]
        } by {
        if new_map.contains_key(key) {
            let value = new_map[key];
            lemma_stored_maps(after, account_id, slot_name, key, value);
            let found = choose|found: AccountStorageMapRowInsert| #[trigger]
                latest_rows(after, account_id).contains(found) && entry_of_row(found) == (
                MapEntryView { slot_name, key, value });
            if found != row {
                lemma_stored_maps(rows, account_id, slot_name, key, value);
                lemma_row_of_account(rows, account_id, found);
                if written && key == entry.key {
                    assert(found.subject() == row.subject());
                }
            }
        }
        if expected.contains_key(key) {
            let value = expected[key];
            lemma_stored_maps(after, account_id, slot_name, key, value);
            if written && key == entry.key {
                assert(latest_rows(after, account_id).contains(row));
                assert(entry_of_row(row) == (MapEntryView { slot_name, key, value }));
            } else {
                lemma_stored_maps(rows, account_id, slot_name, key, value);
                let found = choose|found: AccountStorageMapRowInsert| #[trigger]
                    latest_rows(rows, account_id).contains(found) && entry_of_row(found) == (
                    MapEntryView { slot_name, key, value });
                lemma_row_of_account(rows, account_id, found);
                if found.subject() == row.subject() {
                    assert(entry.key == key);
                }
                assert(latest_rows(after, account_id).contains(found));
            }
        }
    }
    assert(new_map =~= expected);
}

proof fn lemma_row_of_account(
    rows: Seq<AccountStorageMapRowInsert>,
    account_id: Seq<u8>,
    row: AccountStorageMapRowInsert,
)
    requires
        is_storage_table(rows),
        latest_rows(rows, account_id).contains(row),
    ensures
        holds_entry(row),
        row.account_id@ == account_id,
{
    lemma_latest_rows(rows, account_id);
    let i = choose|i: int| 0 <= i < rows.len() && rows[i] == row;
    assert(holds_entry(rows[i]));
}

/// Writing rows of an account one after another changes the values under their keys, the last row of
/// a key counting, and nothing else.
pub proof fn lemma_written_entries_are_read(
    rows: Seq<AccountStorageMapRowInsert>,
    written: Seq<AccountStorageMapRowInsert>,
    account_id: Seq<u8>,
    slot_name: Seq<char>,
)
    requires
        is_storage_table(rows),
        forall|i: int|
            0 <= i < written.len() ==> holds_entry(#[trigger] written[i]) && written[i].is_latest
                && written[i].account_id@ == account_id,
    ensures
        is_storage_table(rows_after_writes(rows, written)),
        slot_map(stored_maps(rows_after_writes(rows, written), account_id), slot_name)
            == map_with_entries(
            slot_map(stored_maps(rows, account_id), slot_name),
            slot_name,
            entries_of_rows(written),
        ),
    decreases written.len(),
{
    if written.len() > 0 {
        let before = written.drop_last();
        assert forall|i: int| 0 <= i < before.len() implies holds_entry(#[trigger] before[i])
            && before[i].is_latest && before[i].account_id@ == account_id by {
            assert(before[i] == written[i]);
        }
        lemma_written_entries_are_read(rows, before, account_id, slot_name);
        assert(holds_entry(written[written.len() - 1]));
        lemma_written_entry_is_read(
            rows_after_writes(rows, before),
            written.last(),
            account_id,
            slot_name,
        );
        assert(entries_of_rows(written).drop_last() =~= entries_of_rows(before));
    } else {
        assert(entries_of_rows(written) =~= Seq::empty());
    }
}

// STORAGE HEADERS
// ================================================================================================

/// Whether no two deltas change the map of the same slot.
pub open spec fn has_distinct_slots(deltas: Seq<MapDelta>) -> bool {
    forall|i: int, j: int|
        0 <= i < j < deltas.len() ==> (#[trigger] deltas[i]).slot_name@ != (
        #[trigger] deltas[j]).slot_name@
}

/// Entries can be added one part after the other.
pub proof fn lemma_map_with_both(
    map: vstd::map::Map<Word, Word>,
    slot_name: Seq<char>,
    first: Seq<MapEntryView>,
    second: Seq<MapEntryView>,
)
    ensures
        map_with_entries(map, slot_name, first + second) == map_with_entries(
            map_with_entries(map, slot_name, first),
            slot_name,
            second,
        ),
    decreases second.len(),
{
    if second.len() == 0 {
        assert(first + second =~= first);
    } else {
        assert((first + second).drop_last() =~= first + second.drop_last());
        assert((first + second).last() == second.last());
        lemma_map_with_both(map, slot_name, first, second.drop_last());
    }
}

/// Entries of other slots change nothing.
pub proof fn lemma_map_without_entries(
    map: vstd::map::Map<Word, Word>,
    slot_name: Seq<char>,
    entries: Seq<MapEntryView>,
)
    requires
        forall|i: int| 0 <= i < entries.len() ==> (#[trigger] entries[i]).slot_name != slot_name,
    ensures
        map_with_entries(map, slot_name, entries) == map,
    decreases entries.len(),
{
    if entries.len() > 0 {
        assert(entries[entries.len() - 1].slot_name != slot_name);
        assert forall|i: int| 0 <= i < entries.len() - 1 implies (
        #[trigger] entries.drop_last()[i]).slot_name != slot_name by {
            assert(entries.drop_last()[i] == entries[i]);
        }
        lemma_map_without_entries(map, slot_name, entries.drop_last());
    }
}

/// An entry with an empty value has the same effect on the values of a map as the removal of its key.
pub proof fn lemma_empty_values_are_removed(
    map: vstd::map::Map<Word, Word>,
    slot_name: Seq<char>,
    entries: Seq<(Word, Word)>,
)
    ensures
        valued_entries(map_with_entries(map, slot_name, entry_views(slot_name, entries)))
            == valued_entries(map_after(map, entries)),
    decreases entries.len(),
{
    let views = entry_views(slot_name, entries);
    if entries.len() > 0 {
        let before = entries.drop_last();
        let (key, value) = entries.last();
        lemma_empty_values_are_removed(map, slot_name, before);
        assert(views.drop_last() =~= entry_views(slot_name, before));
        let written = map_with_entries(map, slot_name, views.drop_last());
        let changed = map_after(map, before);
        assert(valued_entries(written) == valued_entries(changed));
        assert forall|k: Word|
            valued_entries(written).contains_key(k) == #[trigger] valued_entries(
                changed,
            ).contains_key(k) && (valued_entries(changed).contains_key(k) ==> valued_entries(
                written,
            )[k] == valued_entries(changed)[k]) by {}
        let after_written = map_with_entries(map, slot_name, views);
        let after_changed = map_after(map, entries);
        assert(after_written == written.insert(key, value));
        assert forall|k: Word|
            {
                &&& #[trigger] valued_entries(after_written).contains_key(k) == valued_entries(
                    after_changed,
                ).contains_key(k)
                &&& valued_entries(after_written).contains_key(k) ==> valued_entries(
                    after_written,
                )[k] == valued_entries(after_changed)[k]
            } by {
            if k != key {
                assert(valued_entries(written).contains_key(k) == valued_entries(
                    changed,
                ).contains_key(k));
                assert(valued_entries(after_written).contains_key(k) == valued_entries(
                    written,
                ).contains_key(k));
                assert(valued_entries(after_changed).contains_key(k) == valued_entries(
                    changed,
                ).contains_key(k));
            }
        }
        assert(valued_entries(after_written) =~= valued_entries(after_changed));
    } else {
        assert(views =~= Seq::empty());
    }
}

proof fn lemma_delta_entries_of_slot(
    map: vstd::map::Map<Word, Word>,
    deltas: Seq<MapDelta>,
    maps: vstd::map::Map<Seq<char>, vstd::map::Map<Word, Word>>,
    slot_name: Seq<char>,
)
    requires
        has_distinct_slots(deltas),
        slot_map(maps, slot_name) == map,
    ensures
        match map_update(deltas, maps, slot_name) {
            Some(root) => root == storage_map_root_of(
                map_with_entries(map, slot_name, delta_entries(deltas)),
            ),
            None => map_with_entries(map, slot_name, delta_entries(deltas)) == map,
        },
        (forall|i: int| 0 <= i < deltas.len() ==> (#[trigger] deltas[i]).slot_name@ != slot_name)
            ==> map_with_entries(map, slot_name, delta_entries(deltas)) == map,
    decreases deltas.len(),
{
    if deltas.len() > 0 {
        let before = deltas.drop_last();
        let last = deltas.last();
        let views = entry_views(last.slot_name@, last.entries@);
        assert forall|i: int, j: int| 0 <= i < j < before.len() implies (
        #[trigger] before[i]).slot_name@ != (#[trigger] before[j]).slot_name@ by {
            assert(before[i] == deltas[i] && before[j] == deltas[j]);
        }
        lemma_delta_entries_of_slot(map, before, maps, slot_name);
        lemma_map_with_both(map, slot_name, delta_entries(before), views);
        if last.slot_name@ == slot_name {
            assert forall|i: int| 0 <= i < before.len() implies (
            #[trigger] before[i]).slot_name@ != slot_name by {
                assert(before[i] == deltas[i]);
                assert(deltas[deltas.len() - 1] == last);
            }
            if last.entries@.len() > 0 {
                lemma_empty_values_are_removed(map, slot_name, last.entries@);
            } else {
                assert(views =~= Seq::empty());
            }
            assert(deltas[deltas.len() - 1].slot_name@ == slot_name);
        } else {
            let written = map_with_entries(map, slot_name, delta_entries(before));
            lemma_map_without_entries(written, slot_name, views);
            if forall|i: int|
                0 <= i < deltas.len() ==> (#[trigger] deltas[i]).slot_name@ != slot_name {
                assert forall|i: int| 0 <= i < before.len() implies (
                #[trigger] before[i]).slot_name@ != slot_name by {
                    assert(before[i] == deltas[i]);
                }
            }
        }
    }
}

/// The header that a delta stores for a map is the root of the map that is read back: if the header
/// of a map was the root of its stored entries before a delta, it is their root after the delta too.
pub proof fn lemma_storage_header_matches_entries(
    rows: Seq<AccountStorageMapRowInsert>,
    written: Seq<AccountStorageMapRowInsert>,
    account_id: Seq<u8>,
    delta: StorageDelta,
    maps: vstd::map::Map<Seq<char>, vstd::map::Map<Word, Word>>,
    slot: SlotHeaderView,
)
    requires
        is_storage_table(rows),
        forall|i: int|
            0 <= i < written.len() ==> holds_entry(#[trigger] written[i]) && written[i].is_latest
                && written[i].account_id@ == account_id,
        entries_of_rows(written) == delta_entries(delta.maps@),
        has_distinct_slots(delta.maps@),
        value_update(delta.values@, slot.name) is None,
        slot_map(maps, slot.name) == slot_map(stored_maps(rows, account_id), slot.name),
        slot.value == storage_map_root_of(slot_map(stored_maps(rows, account_id), slot.name)),
    ensures
        slot_after(slot, delta, maps).value == storage_map_root_of(
            slot_map(stored_maps(rows_after_writes(rows, written), account_id), slot.name),
        ),
{
    let map = slot_map(stored_maps(rows, account_id), slot.name);
    lemma_written_entries_are_read(rows, written, account_id, slot.name);
    lemma_delta_entries_of_slot(map, delta.maps@, maps, slot.name);
}

/// The header of a map of a new account is the root of the map that is read back.
pub proof fn lemma_new_storage_header_matches_entries(
    rows: Seq<AccountStorageMapRowInsert>,
    written: Seq<AccountStorageMapRowInsert>,
    account_id: Seq<u8>,
    slots: Seq<StorageSlot>,
    position: int,
)
    requires
        is_storage_table(rows),
        latest_rows(rows, account_id).len() == 0,
        forall|i: int|
            0 <= i < written.len() ==> holds_entry(#[trigger] written[i]) && written[i].is_latest
                && written[i].account_id@ == account_id,
        entries_of_rows(written) == all_slot_entries(slots),
        forall|i: int, j: int|
            0 <= i < j < slots.len() ==> (#[trigger] slots[i]).name@ != (#[trigger] slots[j]).name@,
        0 <= position < slots.len(),
    ensures
        slots[position].content matches StorageSlotContent::MapEntries(entries) ==> {
            let stored = slot_map(
                stored_maps(rows_after_writes(rows, written), account_id),
                slots[position].name@,
            );
            &&& stored == pairs_by_key(entries@)
            &&& slot_header(slots[position]).value == storage_map_root_of(stored)
        },
{
    let name = slots[position].name@;
    lemma_written_entries_are_read(rows, written, account_id, name);
    assert(entries_of_rows(latest_rows(rows, account_id)) =~= Seq::empty());
    assert(slot_map(stored_maps(rows, account_id), name) =~= vstd::map::Map::empty());
    if let StorageSlotContent::MapEntries(entries) = slots[position].content {
        lemma_slot_entries(slots, name, position);
        lemma_map_with_pairs(name, entries@);
    }
}

/// Entries that are added to an empty map make up the map.
pub proof fn lemma_map_with_pairs(slot_name: Seq<char>, entries: Seq<(Word, Word)>)
    ensures
        map_with_entries(vstd::map::Map::empty(), slot_name, entry_views(slot_name, entries))
            == pairs_by_key(entries),
    decreases entries.len(),
{
    let views = entry_views(slot_name, entries);
    if entries.len() > 0 {
        lemma_map_with_pairs(slot_name, entries.drop_last());
        assert(views.drop_last() =~= entry_views(slot_name, entries.drop_last()));
    } else {
        assert(views =~= Seq::empty());
    }
}

proof fn lemma_slot_entries(slots: Seq<StorageSlot>, slot_name: Seq<char>, position: int)
    requires
        forall|i: int, j: int|
            0 <= i < j < slots.len() ==> (#[trigger] slots[i]).name@ != (#[trigger] slots[j]).name@,
        -1 <= position < slots.len(),
        position >= 0 ==> slots[position].name@ == slot_name,
        position < 0 ==> forall|i: int| 0 <= i < slots.len() ==> (#[trigger] slots[i]).name@
            != slot_name,
    ensures
        map_with_entries(vstd::map::Map::empty(), slot_name, all_slot_entries(slots)) == (
        if position >= 0 {
            map_with_entries(vstd::map::Map::empty(), slot_name, slot_entries(slots[position]))
        } else {
            vstd::map::Map::empty()
        }),
    decreases slots.len(),
{
    if slots.len() > 0 {
        let before = slots.drop_last();
        let last = slots.last();
        assert forall|i: int, j: int| 0 <= i < j < before.len() implies (#[trigger] before[i]).name@
            != (#[trigger] before[j]).name@ by {
            assert(before[i] == slots[i] && before[j] == slots[j]);
        }
        assert forall|i: int| 0 <= i < before.len() && slots.len() - 1 == position implies (
        #[trigger] before[i]).name@ != slot_name by {
            assert(before[i] == slots[i]);
        }
        assert forall|i: int| 0 <= i < before.len() && position < 0 implies (
        #[trigger] before[i]).name@ != slot_name by {
            assert(before[i] == slots[i]);
        }
        let position_before = if position == slots.len() - 1 {
            -1
        } else {
            position
        };
        lemma_slot_entries(before, slot_name, position_before);
        lemma_map_with_both(
            vstd::map::Map::empty(),
            slot_name,
            all_slot_entries(before),
            slot_entries(last),
        );
        if position != slots.len() - 1 {
            assert(slots[slots.len() - 1].name@ != slot_name);
            let written = map_with_entries(
                vstd::map::Map::empty(),
                slot_name,
                all_slot_entries(before),
            );
            lemma_map_without_entries(written, slot_name, slot_entries(last));
        }
    }
}

} // verus!
