//! Laws on stored transactions: what a row holds, which rows a scan keeps, and what rows stand for.

use vstd::prelude::*;

use crate::block_number::BlockNumber;
use crate::db::conv::lemma_collect_values;
use crate::db::transactions::{
    commitments_of_notes, fitting_count, has_notes, is_readable_row, is_storable, left_out_block,
    output_notes_of_row, output_notes_of_rows, proofs_of_notes, record_of_row, record_results,
    records_of_rows, sync_record_of, total_size, transaction_row, transaction_size, NoteSyncView,
    TransactionHeaderView, TransactionRecordRaw, TransactionRecordView, TransactionRowView,
};
use crate::errors::DatabaseError;
use crate::notes::{
    are_input_notes, are_note_headers, fungible_asset_of_bytes, input_notes_bytes,
    input_notes_of_bytes, is_fungible_asset, note_commitment_of, note_headers_bytes,
    note_headers_of_bytes, NoteHeaderView,
};
use crate::protocol::{
    account_id_bytes, account_id_of_bytes, asset_bytes, word_bytes, word_of_bytes,
};
use crate::word::Word;

verus! {

// ROWS
// ================================================================================================

/// The row of a transaction holds each part of its header in its own column, with the number of its
/// block and its estimated size: 116 bytes, 64 bytes for each input note and 700 for each output note.
pub proof fn lemma_columns_of_transactions(header: TransactionHeaderView, block_num: BlockNumber)
    requires
        is_storable(header),
    ensures
        transaction_row(header, block_num).transaction_id == word_bytes(header.transaction_id),
        transaction_row(header, block_num).account_id == account_id_bytes(header.account_id),
        transaction_row(header, block_num).block_num == block_num.0,
        transaction_row(header, block_num).initial_state_commitment == word_bytes(
            header.initial_state_commitment,
        ),
        transaction_row(header, block_num).final_state_commitment == word_bytes(
            header.final_state_commitment,
        ),
        transaction_row(header, block_num).input_notes == input_notes_bytes(header.input_notes),
        transaction_row(header, block_num).output_notes == note_headers_bytes(header.output_notes),
        transaction_row(header, block_num).fee == asset_bytes(header.fee),
        transaction_row(header, block_num).size_in_bytes == 116 + 64 * header.input_notes.len() + 700
            * header.output_notes.len(),
{
}

/// A transaction is stored if its notes are encoded as such, its fee is fungible, and its size can be
/// stored. Its notes and its fee can be read back from the row.
pub proof fn lemma_stored_transactions(header: TransactionHeaderView, row: TransactionRowView)
    ensures
        has_notes(header) <==> are_input_notes(header.input_notes) && are_note_headers(
            header.output_notes,
        ),
        is_storable(header) <==> is_fungible_asset(header.fee) && 116 + 64
            * header.input_notes.len() + 700 * header.output_notes.len() <= i64::MAX,
        is_readable_row(row, header) <==> input_notes_of_bytes(row.input_notes) == Some(
            header.input_notes,
        ) && note_headers_of_bytes(row.output_notes) == Some(header.output_notes)
            && fungible_asset_of_bytes(row.fee) == Some(header.fee),
        transaction_size(header.input_notes.len(), header.output_notes.len()) == 116 + 64
            * header.input_notes.len() + 700 * header.output_notes.len(),
{
}

// SCANS
// ================================================================================================

/// Every beginning of the rows that a scan keeps fits into the payload, and with the row after them they
/// do not fit. The sizes of rows add up.
pub proof fn lemma_rows_that_fit(rows: Seq<TransactionRecordRaw>, max_payload: int)
    ensures
        fitting_count(rows, max_payload) <= rows.len(),
        forall|k: int|
            0 < k <= fitting_count(rows, max_payload) ==> total_size(#[trigger] rows.take(k))
                <= max_payload,
        fitting_count(rows, max_payload) < rows.len() ==> total_size(
            rows.take(fitting_count(rows, max_payload) as int + 1),
        ) > max_payload,
        forall|row: TransactionRecordRaw| #[trigger]
            total_size(rows.push(row)) == total_size(rows) + row.size_in_bytes,
        total_size(Seq::empty()) == 0,
        left_out_block(rows, max_payload) is None <==> fitting_count(rows, max_payload)
            == rows.len(),
        left_out_block(rows, max_payload) matches Some(block) ==> block
            == rows[fitting_count(rows, max_payload) as int].block_num,
    decreases rows.len(),
{
    assert forall|row: TransactionRecordRaw| #[trigger]
        total_size(rows.push(row)) == total_size(rows) + row.size_in_bytes by {
        assert(rows.push(row).drop_last() =~= rows);
    }
    if rows.len() > 0 {
        let before = rows.drop_last();
        let count = fitting_count(rows, max_payload) as int;
        lemma_rows_that_fit(before, max_payload);
        assert(rows.take(rows.len() as int) =~= rows);
        assert forall|k: int| 0 < k <= count implies total_size(#[trigger] rows.take(k))
            <= max_payload by {
            if k < rows.len() {
                assert(before.take(k) =~= rows.take(k));
            }
        }
        if count < rows.len() - 1 {
            assert(before.take(count + 1) =~= rows.take(count + 1));
        }
    }
}

// RECORDS
// ================================================================================================

/// The record of a note is the last one with its identifier.
pub proof fn lemma_records_of_notes(records: Seq<NoteSyncView>, note_id: Word)
    ensures
        sync_record_of(records, note_id) is None <==> forall|i: int|
            0 <= i < records.len() ==> (#[trigger] records[i]).note_id != note_id,
        sync_record_of(records, note_id) matches Some(record) ==> record.note_id == note_id
            && records.contains(record),
        forall|i: int|
            0 <= i < records.len() && (#[trigger] records[i]).note_id == note_id && (forall|j: int|
                i < j < records.len() ==> (#[trigger] records[j]).note_id != note_id)
                ==> sync_record_of(records, note_id) == Some(records[i]),
    decreases records.len(),
{
    if records.len() > 0 {
        let before = records.drop_last();
        let last = records.len() - 1;
        lemma_records_of_notes(before, note_id);
        assert(records[last] == records.last());
        if records.last().note_id != note_id {
            if sync_record_of(before, note_id) is Some {
                let record = sync_record_of(before, note_id)->0;
                let k = choose|k: int| 0 <= k < before.len() && before[k] == record;
                assert(records[k] == record);
            } else {
                assert forall|i: int| 0 <= i < records.len() implies (
                #[trigger] records[i]).note_id != note_id by {
                    if i < last {
                        assert(before[i].note_id != note_id);
                    }
                }
            }
            assert forall|i: int|
                0 <= i < records.len() && (#[trigger] records[i]).note_id == note_id && (forall|
                    j: int,
                |
                    i < j < records.len() ==> (
                    #[trigger] records[j]).note_id != note_id) implies sync_record_of(
                records,
                note_id,
            ) == Some(records[i]) by {
                assert(before[i] == records[i]);
                assert forall|j: int| i < j < before.len() implies (
                #[trigger] before[j]).note_id != note_id by {
                    assert(records[j].note_id != note_id);
                }
            }
        }
    }
}

/// A transaction comes with the records of all its output notes that have one, in order, and with no
/// others.
pub proof fn lemma_proofs_of_output_notes(
    notes: Seq<NoteHeaderView>,
    records: Seq<NoteSyncView>,
)
    ensures
        proofs_of_notes(notes, records).len() <= notes.len(),
        forall|i: int|
            0 <= i < notes.len() && sync_record_of(records, (#[trigger] notes[i]).note_id) is Some
                ==> proofs_of_notes(notes, records).contains(
                sync_record_of(records, notes[i].note_id)->0,
            ),
        forall|record: NoteSyncView| #[trigger]
            proofs_of_notes(notes, records).contains(record) ==> exists|i: int|
                0 <= i < notes.len() && sync_record_of(records, (#[trigger] notes[i]).note_id)
                    == Some(record),
        (forall|i: int|
            0 <= i < notes.len() ==> sync_record_of(records, (#[trigger] notes[i]).note_id) is Some)
            ==> proofs_of_notes(notes, records).len() == notes.len(),
    decreases notes.len(),
{
    if notes.len() > 0 {
        let before = notes.drop_last();
        let last = notes.len() - 1;
        let found = proofs_of_notes(before, records);
        let all = proofs_of_notes(notes, records);
        lemma_proofs_of_output_notes(before, records);
        assert(notes[last] == notes.last());
        assert forall|i: int|
            0 <= i < notes.len() && sync_record_of(
                records,
                (#[trigger] notes[i]).note_id,
            ) is Some implies all.contains(sync_record_of(records, notes[i].note_id)->0) by {
            let record = sync_record_of(records, notes[i].note_id)->0;
            if i < last {
                assert(before[i] == notes[i]);
                let k = choose|k: int| 0 <= k < found.len() && found[k] == record;
                assert(all[k] == record);
            } else {
                assert(all[found.len() as int] == record);
            }
        }
        assert forall|record: NoteSyncView| #[trigger] all.contains(record) implies exists|i: int|
            0 <= i < notes.len() && sync_record_of(records, (#[trigger] notes[i]).note_id) == Some(
                record,
            ) by {
            let k = choose|k: int| 0 <= k < all.len() && all[k] == record;
            if k < found.len() {
                assert(found[k] == record);
                assert(found.contains(record));
                let i = choose|i: int|
                    0 <= i < before.len() && sync_record_of(records, (#[trigger] before[i]).note_id)
                        == Some(record);
                assert(notes[i] == before[i]);
            }
        }
        if forall|i: int|
            0 <= i < notes.len() ==> sync_record_of(
                records,
                (#[trigger] notes[i]).note_id,
            ) is Some {
            assert forall|i: int| 0 <= i < before.len() implies sync_record_of(
                records,
                (#[trigger] before[i]).note_id,
            ) is Some by {
                assert(before[i] == notes[i]);
            }
        }
    }
}

/// Every row is returned as the transaction that it holds: each column of the row in its own part of the
/// header, with the number of its block and the records of its output notes.
pub proof fn lemma_rows_are_returned_as_transactions(
    rows: Seq<TransactionRecordRaw>,
    records: Seq<NoteSyncView>,
    transactions: Seq<TransactionRecordView>,
)
    requires
        records_of_rows(rows, records) == Ok::<Seq<TransactionRecordView>, DatabaseError>(
            transactions,
        ),
    ensures
        transactions.len() == rows.len(),
        forall|i: int|
            0 <= i < rows.len() ==> {
                let transaction = #[trigger] transactions[i];
                let row = rows[i];
                &&& word_of_bytes(row.transaction_id@) == Some(transaction.header.transaction_id)
                &&& account_id_of_bytes(row.account_id@) == Some(transaction.header.account_id)
                &&& transaction.block_num.0 == row.block_num
                &&& word_of_bytes(row.initial_state_commitment@) == Some(
                    transaction.header.initial_state_commitment,
                )
                &&& word_of_bytes(row.final_state_commitment@) == Some(
                    transaction.header.final_state_commitment,
                )
                &&& input_notes_of_bytes(row.input_notes@) == Some(transaction.header.input_notes)
                &&& note_headers_of_bytes(row.output_notes@) == Some(
                    transaction.header.output_notes,
                )
                &&& fungible_asset_of_bytes(row.fee@) == Some(transaction.header.fee)
                &&& transaction.output_note_proofs == proofs_of_notes(
                    transaction.header.output_notes,
                    records,
                )
            },
{
    let note_results = rows.map_values(|row: TransactionRecordRaw| output_notes_of_row(row@));
    let notes = output_notes_of_rows(rows)->Ok_0;
    lemma_collect_values(note_results);
    let results = record_results(rows, notes, records);
    lemma_collect_values(results);
    assert forall|i: int| 0 <= i < rows.len() implies {
        let transaction = #[trigger] transactions[i];
        let row = rows[i];
        &&& word_of_bytes(row.transaction_id@) == Some(transaction.header.transaction_id)
        &&& account_id_of_bytes(row.account_id@) == Some(transaction.header.account_id)
        &&& transaction.block_num.0 == row.block_num
        &&& word_of_bytes(row.initial_state_commitment@) == Some(
            transaction.header.initial_state_commitment,
        )
        &&& word_of_bytes(row.final_state_commitment@) == Some(
            transaction.header.final_state_commitment,
        )
        &&& input_notes_of_bytes(row.input_notes@) == Some(transaction.header.input_notes)
        &&& note_headers_of_bytes(row.output_notes@) == Some(transaction.header.output_notes)
        &&& fungible_asset_of_bytes(row.fee@) == Some(transaction.header.fee)
        &&& transaction.output_note_proofs == proofs_of_notes(
            transaction.header.output_notes,
            records,
        )
    } by {
        assert(results[i] == Ok::<TransactionRecordView, DatabaseError>(transactions[i]));
        assert(results[i] == record_of_row(rows[i]@, notes[i], records));
        assert(note_results[i] == Ok::<Seq<NoteHeaderView>, DatabaseError>(notes[i]));
        assert(note_results[i] == output_notes_of_row(rows[i]@));
    }
}

/// The records of notes are queried by the commitments to all output notes of all rows.
pub proof fn lemma_commitments_of_all_notes(notes: Seq<Seq<NoteHeaderView>>)
    ensures
        commitments_of_notes(notes) == notes.map_values(
            |headers: Seq<NoteHeaderView>|
                headers.map_values(|note: NoteHeaderView| note_commitment_of(note)),
        ).flatten(),
    decreases notes.len(),
{
    let lists = notes.map_values(
        |headers: Seq<NoteHeaderView>|
            headers.map_values(|note: NoteHeaderView| note_commitment_of(note)),
    );
    lists.lemma_flatten_and_flatten_alt_are_equivalent();
    if notes.len() > 0 {
        let before = notes.drop_last();
        let lists_before = before.map_values(
            |headers: Seq<NoteHeaderView>|
                headers.map_values(|note: NoteHeaderView| note_commitment_of(note)),
        );
        lemma_commitments_of_all_notes(before);
        lists_before.lemma_flatten_and_flatten_alt_are_equivalent();
        assert(lists.drop_last() =~= lists_before);
        assert(lists.last() =~= notes.last().map_values(
            |note: NoteHeaderView| note_commitment_of(note),
        ));
    } else {
        assert(lists.flatten() =~= Seq::empty());
    }
}

} // verus!
