//! Rows of transactions: how they are written, and how they are read back page by page.

use vstd::prelude::*;

use crate::account_id::AccountId;
use crate::block_number::{BlockNumber, BlockRange};
use crate::bytes::copy_bytes;
use crate::db::accounts::{
    account_id_column, raw_block_before, read_account_id, read_word, word_column,
};
use crate::db::conv::{
    block_number_from_raw_sql, block_number_of_raw, block_number_to_raw_sql, collect_results,
    lemma_collect_prefix_error, lemma_collect_step, lemma_collect_values,
};
use crate::db::pages::{
    count_rows_before_block, lemma_rows_split_at_block, rows_before_block, BlockRow,
};
use crate::errors::DatabaseError;
use crate::notes::{
    are_input_notes, are_note_headers, check_input_notes, check_note_headers,
    fungible_asset_from_bytes, fungible_asset_of_bytes, fungible_asset_to_bytes, header_views,
    input_notes_bytes, input_notes_from_bytes, input_notes_of_bytes, input_notes_to_bytes,
    input_views, is_fungible_asset, note_commitment, note_commitment_of, note_headers_bytes,
    note_headers_from_bytes, note_headers_of_bytes, note_headers_to_bytes, InputNoteCommitment,
    InputNoteView, NoteHeader, NoteHeaderView,
};
use crate::protocol::{
    account_id_bytes, account_id_to_bytes, asset_bytes, is_valid_account_id,
    lemma_account_id_round_trip, lemma_word_round_trip, word_bytes, word_to_bytes,
};
use crate::state::account::Asset;
use crate::word::Word;

verus! {

// TRANSACTION HEADERS
// ================================================================================================

/// The header of a transaction.
#[derive(Clone, Debug, PartialEq, Eq)]
pub struct TransactionHeader {
    pub transaction_id: Word,
    pub account_id: AccountId,
    pub initial_state_commitment: Word,
    pub final_state_commitment: Word,
    pub input_notes: Vec<InputNoteCommitment>,
    pub output_notes: Vec<NoteHeader>,
    pub fee: Asset,
}

/// What the header of a transaction holds.
#[verifier::ext_equal]
pub struct TransactionHeaderView {
    pub transaction_id: Word,
    pub account_id: AccountId,
    pub initial_state_commitment: Word,
    pub final_state_commitment: Word,
    pub input_notes: Seq<InputNoteView>,
    pub output_notes: Seq<NoteHeaderView>,
    pub fee: Asset,
}

impl View for TransactionHeader {
    type V = TransactionHeaderView;

    open spec fn view(&self) -> TransactionHeaderView {
        TransactionHeaderView {
            transaction_id: self.transaction_id,
            account_id: self.account_id,
            initial_state_commitment: self.initial_state_commitment,
            final_state_commitment: self.final_state_commitment,
            input_notes: input_views(self.input_notes@),
            output_notes: header_views(self.output_notes@),
            fee: self.fee,
        }
    }
}

/// The estimated size of what precedes the notes: a block number, a transaction identifier, an
/// account identifier and two state commitments.
pub const HEADER_BASE_SIZE_BYTES: u64 = 116;

/// The estimated size of an input note: a nullifier and, for some, a note header.
pub const INPUT_NOTE_COMMITMENT_SIZE_BYTES: u64 = 64;

/// The estimated size of an output note: a metadata header and an inclusion proof.
pub const OUTPUT_NOTE_SYNC_RECORD_SIZE_BYTES: u64 = 700;

/// The estimated size of a transaction with the given numbers of notes.
pub open spec fn transaction_size(input_notes: nat, output_notes: nat) -> nat {
    HEADER_BASE_SIZE_BYTES as nat + input_notes * INPUT_NOTE_COMMITMENT_SIZE_BYTES as nat
        + output_notes * OUTPUT_NOTE_SYNC_RECORD_SIZE_BYTES as nat
}

// ROWS
// ================================================================================================

/// A row of a transaction as it is written.
#[derive(Clone, Debug, PartialEq, Eq)]
pub struct TransactionSummaryRowInsert {
    pub transaction_id: Vec<u8>,
    pub account_id: Vec<u8>,
    pub block_num: i64,
    pub initial_state_commitment: Vec<u8>,
    pub final_state_commitment: Vec<u8>,
    pub input_notes: Vec<u8>,
    pub output_notes: Vec<u8>,
    pub size_in_bytes: i64,
    pub fee: Vec<u8>,
}

/// A row of a transaction as it is read.
#[derive(Clone, Debug, PartialEq, Eq)]
pub struct TransactionRecordRaw {
    pub account_id: Vec<u8>,
    pub block_num: i64,
    pub transaction_id: Vec<u8>,
    pub initial_state_commitment: Vec<u8>,
    pub final_state_commitment: Vec<u8>,
    pub input_notes: Vec<u8>,
    pub output_notes: Vec<u8>,
    pub size_in_bytes: i64,
    pub fee: Vec<u8>,
}

/// The columns of a row of a transaction.
#[verifier::ext_equal]
pub struct TransactionRowView {
    pub transaction_id: Seq<u8>,
    pub account_id: Seq<u8>,
    pub block_num: i64,
    pub initial_state_commitment: Seq<u8>,
    pub final_state_commitment: Seq<u8>,
    pub input_notes: Seq<u8>,
    pub output_notes: Seq<u8>,
    pub size_in_bytes: i64,
    pub fee: Seq<u8>,
}

impl View for TransactionSummaryRowInsert {
    type V = TransactionRowView;

    open spec fn view(&self) -> TransactionRowView {
        TransactionRowView {
            transaction_id: self.transaction_id@,
            account_id: self.account_id@,
            block_num: self.block_num,
            initial_state_commitment: self.initial_state_commitment@,
            final_state_commitment: self.final_state_commitment@,
            input_notes: self.input_notes@,
            output_notes: self.output_notes@,
            size_in_bytes: self.size_in_bytes,
            fee: self.fee@,
        }
    }
}

impl View for TransactionRecordRaw {
    type V = TransactionRowView;

    open spec fn view(&self) -> TransactionRowView {
        TransactionRowView {
            transaction_id: self.transaction_id@,
            account_id: self.account_id@,
            block_num: self.block_num,
            initial_state_commitment: self.initial_state_commitment@,
            final_state_commitment: self.final_state_commitment@,
            input_notes: self.input_notes@,
            output_notes: self.output_notes@,
            size_in_bytes: self.size_in_bytes,
            fee: self.fee@,
        }
    }
}

impl BlockRow for TransactionRecordRaw {
    open spec fn raw_block(&self) -> i64 {
        self.block_num
    }

    fn raw_block_num(&self) -> (r: i64) {
        self.block_num
    }
}

/// The row of a transaction of a block.
pub open spec fn transaction_row(
    header: TransactionHeaderView,
    block_num: BlockNumber,
) -> TransactionRowView {
    TransactionRowView {
        transaction_id: word_bytes(header.transaction_id),
        account_id: account_id_bytes(header.account_id),
        block_num: block_num.0 as i64,
        initial_state_commitment: word_bytes(header.initial_state_commitment),
        final_state_commitment: word_bytes(header.final_state_commitment),
        input_notes: input_notes_bytes(header.input_notes),
        output_notes: note_headers_bytes(header.output_notes),
        size_in_bytes: transaction_size(
            header.input_notes.len(),
            header.output_notes.len(),
        ) as i64,
        fee: asset_bytes(header.fee),
    }
}

/// Whether the notes of a transaction are such.
pub open spec fn has_notes(header: TransactionHeaderView) -> bool {
    are_input_notes(header.input_notes) && are_note_headers(header.output_notes)
}

/// Whether the fee is a fungible asset and the estimated size of a transaction can be stored.
pub open spec fn is_storable(header: TransactionHeaderView) -> bool {
    &&& is_fungible_asset(header.fee)
    &&& transaction_size(header.input_notes.len(), header.output_notes.len()) <= i64::MAX
}

/// Whether the notes and the fee of a stored transaction can be read back.
pub open spec fn is_readable_row(row: TransactionRowView, header: TransactionHeaderView) -> bool {
    &&& input_notes_of_bytes(row.input_notes) == Some(header.input_notes)
    &&& note_headers_of_bytes(row.output_notes) == Some(header.output_notes)
    &&& fungible_asset_of_bytes(row.fee) == Some(header.fee)
}

impl TransactionSummaryRowInsert {
    /// Creates the row of a transaction of a block, or returns `None` if one of its notes is not
    /// encoded as such.
    pub fn new(transaction_header: &TransactionHeader, block_num: BlockNumber) -> (r: Option<Self>)
        requires
            is_storable(transaction_header@),
        ensures
            r is Some <==> has_notes(transaction_header@),
            r matches Some(row) ==> row@ == transaction_row(transaction_header@, block_num),
            r matches Some(row) ==> is_readable_row(row@, transaction_header@),
    {
        if !check_input_notes(&transaction_header.input_notes) || !check_note_headers(
            &transaction_header.output_notes,
        ) {
            return None;
        }
        let input_count: u64 = transaction_header.input_notes.len() as u64;
        let output_count: u64 = transaction_header.output_notes.len() as u64;
        let size: u64 = HEADER_BASE_SIZE_BYTES + input_count * INPUT_NOTE_COMMITMENT_SIZE_BYTES
            + output_count * OUTPUT_NOTE_SYNC_RECORD_SIZE_BYTES;
        Some(
            TransactionSummaryRowInsert {
                transaction_id: word_to_bytes(transaction_header.transaction_id),
                account_id: account_id_to_bytes(transaction_header.account_id),
                block_num: block_number_to_raw_sql(block_num),
                initial_state_commitment: word_to_bytes(
                    transaction_header.initial_state_commitment,
                ),
                final_state_commitment: word_to_bytes(transaction_header.final_state_commitment),
                input_notes: input_notes_to_bytes(&transaction_header.input_notes),
                output_notes: note_headers_to_bytes(&transaction_header.output_notes),
                size_in_bytes: size as i64,
                fee: fungible_asset_to_bytes(transaction_header.fee),
            },
        )
    }
}

/// Returns the rows of the transactions of a block in their order, or `None` if a note is not encoded
/// as such.
pub fn insert_transactions(block_num: BlockNumber, transactions: &Vec<TransactionHeader>) -> (r:
    Option<Vec<TransactionSummaryRowInsert>>)
    requires
        forall|i: int| 0 <= i < transactions@.len() ==> is_storable((#[trigger] transactions@[i])@),
    ensures
        r is Some <==> forall|i: int|
            0 <= i < transactions@.len() ==> has_notes((#[trigger] transactions@[i])@),
        r matches Some(rows) ==> rows@.len() == transactions@.len() && forall|i: int|
            0 <= i < rows@.len() ==> (#[trigger] rows@[i])@ == transaction_row(
                transactions@[i]@,
                block_num,
            ) && is_readable_row(rows@[i]@, transactions@[i]@),
{
    let mut rows: Vec<TransactionSummaryRowInsert> = Vec::new();
    let mut i: usize = 0;
    while i < transactions.len()
        invariant
            i <= transactions@.len(),
            rows@.len() == i,
            forall|k: int|
                0 <= k < transactions@.len() ==> is_storable((#[trigger] transactions@[k])@),
            forall|k: int| 0 <= k < i ==> has_notes((#[trigger] transactions@[k])@),
            forall|k: int|
                0 <= k < i ==> (#[trigger] rows@[k])@ == transaction_row(
                    transactions@[k]@,
                    block_num,
                ) && is_readable_row(rows@[k]@, transactions@[k]@),
        decreases transactions@.len() - i,
    {
        match TransactionSummaryRowInsert::new(&transactions[i], block_num) {
            Some(row) => rows.push(row),
            None => {
                assert(!has_notes(transactions@[i as int]@));
                return None;
            },
        }
        i = i + 1;
    }
    Some(rows)
}

// SCAN
// ================================================================================================

/// How many transactions a query reads at a time.
pub const NUM_TXS_PER_CHUNK: usize = 1000;

/// Whether no row has a negative size.
pub open spec fn has_sizes(rows: Seq<TransactionRecordRaw>) -> bool {
    forall|i: int| 0 <= i < rows.len() ==> (#[trigger] rows[i]).size_in_bytes >= 0
}

/// Checks that no row has a negative size.
pub fn check_sizes(rows: &Vec<TransactionRecordRaw>) -> (r: Result<(), DatabaseError>)
    ensures
        r is Ok <==> has_sizes(rows@),
        r matches Err(error) ==> exists|i: int|
            {
                &&& 0 <= i < rows@.len()
                &&& (#[trigger] rows@[i]).size_in_bytes < 0
                &&& has_sizes(rows@.take(i))
                &&& error == DatabaseError::ConversionSqlToRust(rows@[i].size_in_bytes)
            },
{
    let mut i: usize = 0;
    while i < rows.len()
        invariant
            i <= rows@.len(),
            has_sizes(rows@.take(i as int)),
        decreases rows@.len() - i,
    {
        if rows[i].size_in_bytes < 0 {
            return Err(DatabaseError::ConversionSqlToRust(rows[i].size_in_bytes));
        }
        proof {
            let (before, upto) = (rows@.take(i as int), rows@.take(i + 1));
            assert forall|k: int| 0 <= k < upto.len() implies (#[trigger] upto[k]).size_in_bytes
                >= 0 by {
                if k < i {
                    assert(before[k] == upto[k]);
                }
            }
        }
        i = i + 1;
    }
    assert(rows@.take(i as int) =~= rows@);
    Ok(())
}

/// The sum of the sizes of rows.
pub open spec fn total_size(rows: Seq<TransactionRecordRaw>) -> int
    decreases rows.len(),
{
    if rows.len() == 0 {
        0
    } else {
        total_size(rows.drop_last()) + rows.last().size_in_bytes
    }
}

/// How many of the rows fit into a payload, one after the other, until one does not.
pub open spec fn fitting_count(rows: Seq<TransactionRecordRaw>, max_payload: int) -> nat
    decreases rows.len(),
{
    if rows.len() == 0 {
        0
    } else {
        let before = fitting_count(rows.drop_last(), max_payload);
        if before == rows.len() - 1 && total_size(rows) <= max_payload {
            rows.len()
        } else {
            before
        }
    }
}

proof fn lemma_fitting_bound(rows: Seq<TransactionRecordRaw>, max_payload: int)
    ensures
        fitting_count(rows, max_payload) <= rows.len(),
    decreases rows.len(),
{
    if rows.len() > 0 {
        lemma_fitting_bound(rows.drop_last(), max_payload);
    }
}

proof fn lemma_fitting_stops(rows: Seq<TransactionRecordRaw>, count: int, max_payload: int)
    requires
        0 <= count <= rows.len(),
        fitting_count(rows.take(count), max_payload) < count,
    ensures
        fitting_count(rows, max_payload) == fitting_count(rows.take(count), max_payload),
    decreases rows.len() - count,
{
    if count < rows.len() {
        assert(rows.take(count + 1).drop_last() =~= rows.take(count));
        lemma_fitting_stops(rows, count + 1, max_payload);
    } else {
        assert(rows.take(count) =~= rows);
    }
}

/// The rows that fit are the longest beginning of the rows that fits, and no less than a beginning
/// that is known to fit.
pub proof fn lemma_fitting_prefix(rows: Seq<TransactionRecordRaw>, count: int, max_payload: int)
    requires
        0 <= count <= rows.len(),
        fitting_count(rows.take(count), max_payload) == count,
    ensures
        count <= fitting_count(rows, max_payload) <= rows.len(),
        ({
            let fitting = fitting_count(rows, max_payload) as int;
            fitting < rows.len() ==> total_size(rows.take(fitting + 1)) > max_payload
        }),
    decreases rows.len() - count,
{
    if count == rows.len() {
        assert(rows.take(count) =~= rows);
    } else {
        let next = rows.take(count + 1);
        assert(next.drop_last() =~= rows.take(count));
        if total_size(next) <= max_payload {
            lemma_fitting_prefix(rows, count + 1, max_payload);
        } else {
            lemma_fitting_stops(rows, count + 1, max_payload);
        }
    }
}

/// The block of the first row that does not fit into a payload, if there is one.
pub open spec fn left_out_block(
    rows: Seq<TransactionRecordRaw>,
    max_payload: int,
) -> Option<i64> {
    let fitting = fitting_count(rows, max_payload);
    if fitting < rows.len() {
        Some(rows[fitting as int].block_num)
    } else {
        None
    }
}

/// The first block of which transactions may be missing: the block of the last transaction if the
/// payload is exhausted, and that of the first one that was left out otherwise.
pub open spec fn incomplete_block(
    read: Seq<TransactionRecordRaw>,
    left_out: Option<i64>,
    max_payload: int,
) -> Option<i64> {
    if total_size(read) >= max_payload {
        Some(read.last().block_num)
    } else {
        left_out
    }
}

/// The transactions that were read so far, with the position of the last one, and the block of the
/// first one that did not fit.
#[derive(Clone, Debug, PartialEq, Eq)]
pub struct TransactionScan {
    pub transactions: Vec<TransactionRecordRaw>,
    pub total_size: i64,
    pub last_block_num: Option<i64>,
    pub last_transaction_id: Option<Vec<u8>>,
    pub left_out: Option<i64>,
}

impl TransactionScan {
    /// Whether the transactions fit into a payload, and the size and the position are those of the
    /// transactions.
    pub open spec fn is_valid(self, max_payload: int) -> bool {
        &&& has_sizes(self.transactions@)
        &&& fitting_count(self.transactions@, max_payload) == self.transactions@.len()
        &&& 0 <= self.total_size <= max_payload
        &&& self.total_size == total_size(self.transactions@)
        &&& self.has_position()
    }

    /// Whether the position is that of the last transaction.
    pub open spec fn has_position(self) -> bool {
        if self.transactions@.len() == 0 {
            self.last_block_num is None && self.last_transaction_id is None
        } else {
            &&& self.last_block_num == Some(self.transactions@.last().block_num)
            &&& self.last_transaction_id matches Some(id) && id@
                == self.transactions@.last().transaction_id@
        }
    }

    /// Starts a scan.
    pub fn new(max_payload: i64) -> (r: Self)
        requires
            max_payload >= 0,
        ensures
            r.is_valid(max_payload as int),
            r.transactions@.len() == 0,
            r.left_out is None,
    {
        TransactionScan {
            transactions: Vec::new(),
            total_size: 0,
            last_block_num: None,
            last_transaction_id: None,
            left_out: None,
        }
    }

    /// Adds the next rows, until one does not fit into the payload: no row is added after it.
    /// Returns whether there may be more to read: as many rows were added as a query reads.
    pub fn add_chunk(&mut self, chunk: Vec<TransactionRecordRaw>, max_payload: i64) -> (more: bool)
        requires
            old(self).is_valid(max_payload as int),
            has_sizes(chunk@),
        ensures
            final(self).is_valid(max_payload as int),
            old(self).left_out is Some ==> *final(self) == *old(self) && !more,
            old(self).left_out is None ==> ({
                let rows = old(self).transactions@ + chunk@;
                &&& final(self).transactions@ == rows.take(
                    fitting_count(rows, max_payload as int) as int,
                )
                &&& final(self).left_out == left_out_block(rows, max_payload as int)
                &&& more <==> fitting_count(rows, max_payload as int) - old(self).transactions@.len()
                    >= NUM_TXS_PER_CHUNK
            }),
    {
        if self.left_out.is_some() {
            return false;
        }
        let ghost before = self.transactions@;
        let ghost next = chunk@;
        let ghost all = before + next;
        let ghost max = max_payload as int;
        let mut added: usize = 0;
        let count: usize = chunk.len();
        proof {
            assert(all.take(before.len() as int) =~= before);
        }
        for tx in it: chunk
            invariant
                it.seq() == next,
                before == old(self).transactions@,
                all == before + next,
                count == next.len(),
                added == it.index(),
                max == max_payload,
                has_sizes(next),
                self.is_valid(max),
                old(self).left_out is None,
                self.left_out is None,
                self.transactions@ == all.take(before.len() + added),
        {
            let ghost position = before.len() + added as int;
            proof {
                assert(tx == all[position]);
                assert(tx.size_in_bytes >= 0);
                assert(all.take(position + 1).drop_last() =~= all.take(position));
                assert(all.take(position + 1).last() == tx);
            }
            if tx.size_in_bytes > max_payload - self.total_size {
                proof {
                    lemma_fitting_stops(all, position + 1, max);
                }
                self.left_out = Some(tx.block_num);
                return added >= NUM_TXS_PER_CHUNK;
            }
            self.total_size = self.total_size + tx.size_in_bytes;
            self.last_block_num = Some(tx.block_num);
            self.last_transaction_id = Some(copy_bytes(&tx.transaction_id));
            self.transactions.push(tx);
            added = added + 1;
            assert(self.transactions@ =~= all.take(position + 1));
        }
        assert(all.take(before.len() + count) =~= all);
        added >= NUM_TXS_PER_CHUNK
    }

    /// Ends the scan of a range of blocks. If transactions of a block may be missing, because the
    /// payload is exhausted or a transaction did not fit, the block is left out as a whole, and the
    /// block before it is the last one that is included.
    pub fn finish(self, block_range: BlockRange, max_payload: i64) -> (r: Result<
        (BlockNumber, Vec<TransactionRecordRaw>),
        DatabaseError,
    >)
        requires
            self.is_valid(max_payload as int),
            max_payload > 0,
        ensures
            match incomplete_block(self.transactions@, self.left_out, max_payload as int) {
                None => r == Ok::<(BlockNumber, Vec<TransactionRecordRaw>), DatabaseError>(
                    (block_range.end, self.transactions),
                ),
                Some(block) => match block_number_of_raw(raw_block_before(block)) {
                    Err(error) => r == Err::<
                        (BlockNumber, Vec<TransactionRecordRaw>),
                        DatabaseError,
                    >(error),
                    Ok(included) => r matches Ok((found, rows)) && found == included && rows@
                        == self.transactions@.take(
                        rows_before_block(self.transactions@, block) as int,
                    ),
                },
            },
            self.total_size < max_payload && self.left_out is None ==> r == Ok::<
                (BlockNumber, Vec<TransactionRecordRaw>),
                DatabaseError,
            >((block_range.end, self.transactions)),
            r matches Ok((included, rows)) ==> {
                &&& rows@.len() <= self.transactions@.len()
                &&& rows@ == self.transactions@.take(rows@.len() as int)
                &&& self.total_size >= max_payload ==> included.0 + 1
                    == self.transactions@.last().block_num && (forall|i: int|
                    0 <= i < rows@.len() ==> (#[trigger] rows@[i]).block_num
                        != self.transactions@.last().block_num) && rows@.len()
                    < self.transactions@.len() && self.transactions@[rows@.len() as int].block_num
                    == self.transactions@.last().block_num
                &&& self.total_size < max_payload ==> (self.left_out matches Some(left_out)
                    ==> included.0 + 1 == left_out && (forall|i: int|
                    0 <= i < rows@.len() ==> (#[trigger] rows@[i]).block_num != left_out) && (
                rows@.len() < self.transactions@.len()
                    ==> self.transactions@[rows@.len() as int].block_num == left_out))
            },
    {
        let incomplete: Option<i64> = if self.total_size >= max_payload {
            assert(self.transactions@.len() > 0);
            self.last_block_num
        } else {
            self.left_out
        };
        let block: i64 = match incomplete {
            Some(block) => block,
            None => return Ok((block_range.end, self.transactions)),
        };
        let before: i64 = if block == i64::MIN {
            block
        } else {
            block - 1
        };
        let included = block_number_from_raw_sql(before)?;
        let kept: usize = count_rows_before_block(&self.transactions, block);
        proof {
            let all = self.transactions@;
            lemma_rows_split_at_block(all, block);
            assert forall|i: int| 0 <= i < kept implies (
            #[trigger] all.take(kept as int)[i]).block_num != block by {
                assert(all[i].raw_block() != block);
            }
            if all.len() > 0 && all.last().block_num == block {
                assert(all[all.len() - 1].raw_block() == block);
            }
        }
        let mut rows = self.transactions;
        rows.truncate(kept);
        Ok((included, rows))
    }
}

/// The error of a query for the transactions of accounts, if it is not admissible.
pub open spec fn transactions_query_error(
    account_count: usize,
    account_limit: usize,
    block_range: BlockRange,
) -> Option<DatabaseError> {
    if account_count > account_limit {
        Some(DatabaseError::QueryParamLimit { given: account_count, limit: account_limit })
    } else if block_range.is_empty() {
        Some(DatabaseError::InvalidBlockRange { from: block_range.start, to: block_range.end })
    } else {
        None
    }
}

/// Checks a query for the transactions of accounts in a range of blocks.
pub fn check_transactions_query(
    account_count: usize,
    account_limit: usize,
    block_range: BlockRange,
) -> (r: Result<(), DatabaseError>)
    ensures
        match transactions_query_error(account_count, account_limit, block_range) {
            Some(error) => r == Err::<(), DatabaseError>(error),
            None => r is Ok,
        },
        r is Ok <==> account_count <= account_limit && block_range.start.0 <= block_range.end.0,
        account_count > account_limit ==> r == Err::<(), DatabaseError>(
            DatabaseError::QueryParamLimit { given: account_count, limit: account_limit },
        ),
        account_count <= account_limit && block_range.start.0 > block_range.end.0 ==> r == Err::<
            (),
            DatabaseError,
        >(DatabaseError::InvalidBlockRange { from: block_range.start, to: block_range.end }),
{
    if account_count > account_limit {
        Err(DatabaseError::QueryParamLimit { given: account_count, limit: account_limit })
    } else if block_range.is_empty() {
        Err(DatabaseError::InvalidBlockRange { from: block_range.start, to: block_range.end })
    } else {
        Ok(())
    }
}

/// It does not matter into which chunks the rows are divided: what a scan holds after it has read
/// two chunks is what it holds after it has read them as one, and the same transaction is the first
/// one that is left out.
pub proof fn lemma_chunks_do_not_matter(
    first: Seq<TransactionRecordRaw>,
    second: Seq<TransactionRecordRaw>,
    max_payload: int,
)
    ensures
        ({
            let rows = first + second;
            let after_first = first.take(fitting_count(first, max_payload) as int);
            let together = rows.take(fitting_count(rows, max_payload) as int);
            if left_out_block(first, max_payload) is Some {
                &&& together == after_first
                &&& left_out_block(rows, max_payload) == left_out_block(first, max_payload)
            } else {
                let next = after_first + second;
                &&& together == next.take(fitting_count(next, max_payload) as int)
                &&& left_out_block(rows, max_payload) == left_out_block(next, max_payload)
            }
        }),
{
    let rows = first + second;
    assert(rows.take(first.len() as int) =~= first);
    lemma_fitting_bound(first, max_payload);
    if fitting_count(first, max_payload) < first.len() {
        lemma_fitting_stops(rows, first.len() as int, max_payload);
        assert(rows.take(fitting_count(rows, max_payload) as int) =~= first.take(
            fitting_count(first, max_payload) as int,
        ));
    } else {
        assert(first.take(first.len() as int) =~= first);
    }
}

/// A client that goes on after the last included block misses no transaction: among all rows of a
/// range in the order of their blocks, the rows that are returned are exactly those before the first
/// block of which one may be missing. Where a row does not fit there is such a block, and it is not
/// after the block of that row.
pub proof fn lemma_included_blocks_are_complete(
    rows: Seq<TransactionRecordRaw>,
    max_payload: int,
)
    requires
        forall|i: int, j: int|
            0 <= i <= j < rows.len() ==> (#[trigger] rows[i]).block_num <= (
            #[trigger] rows[j]).block_num,
        max_payload > 0,
    ensures
        ({
            let read = rows.take(fitting_count(rows, max_payload) as int);
            let left_out = left_out_block(rows, max_payload);
            match incomplete_block(read, left_out, max_payload) {
                None => read == rows,
                Some(block) => {
                    let kept = rows_before_block(read, block);
                    &&& left_out matches Some(first) ==> block <= first
                    &&& forall|i: int|
                        0 <= i < rows.len() ==> (i < kept <==> (#[trigger] rows[i]).block_num
                            < block)
                },
            }
        }),
{
    lemma_fitting_bound(rows, max_payload);
    let fitting = fitting_count(rows, max_payload) as int;
    let read = rows.take(fitting);
    let left_out = left_out_block(rows, max_payload);
    match incomplete_block(read, left_out, max_payload) {
        None => {
            assert(read =~= rows);
        },
        Some(block) => {
            if total_size(read) >= max_payload {
                assert(read.len() > 0);
                assert(read.last() == rows[fitting - 1]);
            }
            lemma_rows_split_at_block(read, block);
            let kept = rows_before_block(read, block);
            assert forall|i: int| 0 <= i < rows.len() implies (i < kept <==> (
            #[trigger] rows[i]).block_num < block) by {
                if i < kept {
                    assert(read[i] == rows[i]);
                    assert(read[i].raw_block() != block);
                } else if i < read.len() {
                    assert(read[kept as int] == rows[kept as int]);
                    assert(read[kept as int].raw_block() == block);
                    assert(rows[kept as int].block_num <= rows[i].block_num);
                }
            }
        },
    }
}

// RECORDS
// ================================================================================================

/// The position of a note in a block.
#[derive(Clone, Copy, Debug, PartialEq, Eq, Structural)]
pub struct BlockNoteIndex {
    pub batch_idx: usize,
    pub note_idx_in_batch: usize,
}

/// Where a note was created, with the proof of it. Metadata and path are encoded.
#[derive(Clone, Debug, PartialEq, Eq)]
pub struct NoteSyncRecord {
    pub block_num: BlockNumber,
    pub note_index: BlockNoteIndex,
    pub note_id: Word,
    pub metadata: Vec<u8>,
    pub inclusion_path: Vec<u8>,
}

/// What the record of a note holds.
#[verifier::ext_equal]
pub struct NoteSyncView {
    pub block_num: BlockNumber,
    pub note_index: BlockNoteIndex,
    pub note_id: Word,
    pub metadata: Seq<u8>,
    pub inclusion_path: Seq<u8>,
}

impl View for NoteSyncRecord {
    type V = NoteSyncView;

    open spec fn view(&self) -> NoteSyncView {
        NoteSyncView {
            block_num: self.block_num,
            note_index: self.note_index,
            note_id: self.note_id,
            metadata: self.metadata@,
            inclusion_path: self.inclusion_path@,
        }
    }
}

impl NoteSyncRecord {
    /// Returns a copy of the record.
    pub fn copy(&self) -> (r: Self)
        ensures
            r@ == self@,
    {
        NoteSyncRecord {
            block_num: self.block_num,
            note_index: self.note_index,
            note_id: self.note_id,
            metadata: copy_bytes(&self.metadata),
            inclusion_path: copy_bytes(&self.inclusion_path),
        }
    }
}

/// The records of notes.
pub open spec fn sync_views(records: Seq<NoteSyncRecord>) -> Seq<NoteSyncView> {
    records.map_values(|record: NoteSyncRecord| record@)
}

/// A transaction as the store returns it: its block, its header, and where its output notes were
/// created.
#[derive(Clone, Debug, PartialEq, Eq)]
pub struct TransactionRecord {
    pub block_num: BlockNumber,
    pub header: TransactionHeader,
    pub output_note_proofs: Vec<NoteSyncRecord>,
}

/// What the record of a transaction holds.
#[verifier::ext_equal]
pub struct TransactionRecordView {
    pub block_num: BlockNumber,
    pub header: TransactionHeaderView,
    pub output_note_proofs: Seq<NoteSyncView>,
}

impl View for TransactionRecord {
    type V = TransactionRecordView;

    open spec fn view(&self) -> TransactionRecordView {
        TransactionRecordView {
            block_num: self.block_num,
            header: self.header@,
            output_note_proofs: sync_views(self.output_note_proofs@),
        }
    }
}

/// The record of a note, the last one if there are several.
pub open spec fn sync_record_of(records: Seq<NoteSyncView>, note_id: Word) -> Option<NoteSyncView>
    decreases records.len(),
{
    if records.len() == 0 {
        None
    } else if records.last().note_id == note_id {
        Some(records.last())
    } else {
        sync_record_of(records.drop_last(), note_id)
    }
}

/// The records of notes in order. Notes without a record were erased in their block and are left
/// out.
pub open spec fn proofs_of_notes(
    notes: Seq<NoteHeaderView>,
    records: Seq<NoteSyncView>,
) -> Seq<NoteSyncView>
    decreases notes.len(),
{
    if notes.len() == 0 {
        Seq::empty()
    } else {
        let before = proofs_of_notes(notes.drop_last(), records);
        match sync_record_of(records, notes.last().note_id) {
            None => before,
            Some(record) => before.push(record),
        }
    }
}

/// The transaction that a row stands for, given its output notes and the records of notes.
pub open spec fn record_of_row(
    row: TransactionRowView,
    output_notes: Seq<NoteHeaderView>,
    records: Seq<NoteSyncView>,
) -> Result<TransactionRecordView, DatabaseError> {
    match word_column(row.transaction_id) {
        Err(error) => Err(error),
        Ok(transaction_id) => match account_id_column(row.account_id) {
            Err(error) => Err(error),
            Ok(account_id) => match block_number_of_raw(row.block_num) {
                Err(error) => Err(error),
                Ok(block_num) => match word_column(row.initial_state_commitment) {
                    Err(error) => Err(error),
                    Ok(initial_state_commitment) => match word_column(row.final_state_commitment) {
                        Err(error) => Err(error),
                        Ok(final_state_commitment) => match (
                            input_notes_of_bytes(row.input_notes),
                            fungible_asset_of_bytes(row.fee),
                        ) {
                            (Some(input_notes), Some(fee)) => Ok(
                                TransactionRecordView {
                                    block_num,
                                    header: TransactionHeaderView {
                                        transaction_id,
                                        account_id,
                                        initial_state_commitment,
                                        final_state_commitment,
                                        input_notes,
                                        output_notes,
                                        fee,
                                    },
                                    output_note_proofs: proofs_of_notes(output_notes, records),
                                },
                            ),
                            _ => Err(DatabaseError::DeserializationError),
                        },
                    },
                },
            },
        },
    }
}

/// The output notes of rows, or an error if those of one row cannot be read.
pub open spec fn output_notes_of_rows(rows: Seq<TransactionRecordRaw>) -> Result<
    Seq<Seq<NoteHeaderView>>,
    DatabaseError,
> {
    collect_results(rows.map_values(|row: TransactionRecordRaw| output_notes_of_row(row@)))
}

/// The output notes of a row.
pub open spec fn output_notes_of_row(row: TransactionRowView) -> Result<
    Seq<NoteHeaderView>,
    DatabaseError,
> {
    match note_headers_of_bytes(row.output_notes) {
        None => Err(DatabaseError::DeserializationError),
        Some(notes) => Ok(notes),
    }
}

/// The transactions that rows stand for: first the output notes of all rows are read, then the
/// rows.
pub open spec fn records_of_rows(
    rows: Seq<TransactionRecordRaw>,
    records: Seq<NoteSyncView>,
) -> Result<Seq<TransactionRecordView>, DatabaseError> {
    match output_notes_of_rows(rows) {
        Err(error) => Err(error),
        Ok(notes) => collect_results(record_results(rows, notes, records)),
    }
}

/// What each row stands for.
pub open spec fn record_results(
    rows: Seq<TransactionRecordRaw>,
    notes: Seq<Seq<NoteHeaderView>>,
    records: Seq<NoteSyncView>,
) -> Seq<Result<TransactionRecordView, DatabaseError>> {
    Seq::new(rows.len(), |i: int| record_of_row(rows[i]@, notes[i], records))
}

fn read_output_notes(rows: &Vec<TransactionRecordRaw>) -> (r: Result<
    Vec<Vec<NoteHeader>>,
    DatabaseError,
>)
    ensures
        match output_notes_of_rows(rows@) {
            Err(error) => r == Err::<Vec<Vec<NoteHeader>>, DatabaseError>(error),
            Ok(notes) => r matches Ok(found) && notes_views(found@) == notes && forall|i: int|
                0 <= i < found@.len() ==> are_note_headers(
                    header_views((#[trigger] found@[i])@),
                ),
        },
{
    let ghost results = rows@.map_values(|row: TransactionRecordRaw| output_notes_of_row(row@));
    let mut notes: Vec<Vec<NoteHeader>> = Vec::new();
    assert(notes_views(notes@) =~= Seq::empty());
    let mut i: usize = 0;
    while i < rows.len()
        invariant
            i <= rows@.len(),
            results == rows@.map_values(|row: TransactionRecordRaw| output_notes_of_row(row@)),
            collect_results(results.take(i as int)) == Ok::<
                Seq<Seq<NoteHeaderView>>,
                DatabaseError,
            >(notes_views(notes@)),
            forall|k: int|
                0 <= k < notes@.len() ==> are_note_headers(
                    header_views((#[trigger] notes@[k])@),
                ),
        decreases rows@.len() - i,
    {
        proof {
            lemma_collect_step(results, i as int);
            if results[i as int] is Err {
                lemma_collect_prefix_error(results, i + 1);
            }
        }
        let ghost before = notes@;
        match note_headers_from_bytes(&rows[i].output_notes) {
            None => return Err(DatabaseError::DeserializationError),
            Some(headers) => {
                notes.push(headers);
                assert(notes_views(notes@) =~= notes_views(before).push(header_views(headers@)));
            },
        }
        i = i + 1;
    }
    assert(results.take(i as int) =~= results);
    Ok(notes)
}

/// The headers of several lists of notes.
pub open spec fn notes_views(notes: Seq<Vec<NoteHeader>>) -> Seq<Seq<NoteHeaderView>> {
    notes.map_values(|headers: Vec<NoteHeader>| header_views(headers@))
}

/// The commitments to several lists of notes, list by list.
pub open spec fn commitments_of_notes(notes: Seq<Seq<NoteHeaderView>>) -> Seq<Word>
    decreases notes.len(),
{
    if notes.len() == 0 {
        Seq::empty()
    } else {
        commitments_of_notes(notes.drop_last()) + notes.last().map_values(
            |note: NoteHeaderView| note_commitment_of(note),
        )
    }
}

/// Returns the commitments to the output notes of rows, by which the records of the notes are
/// queried.
pub fn output_note_commitments(rows: &Vec<TransactionRecordRaw>) -> (r: Result<
    Vec<Word>,
    DatabaseError,
>)
    ensures
        match output_notes_of_rows(rows@) {
            Err(error) => r == Err::<Vec<Word>, DatabaseError>(error),
            Ok(notes) => r matches Ok(commitments) && commitments@ == commitments_of_notes(notes),
        },
{
    let notes = read_output_notes(rows)?;
    let ghost views = notes_views(notes@);
    let mut commitments: Vec<Word> = Vec::new();
    let mut i: usize = 0;
    while i < notes.len()
        invariant
            i <= notes@.len(),
            views == notes_views(notes@),
            forall|k: int|
                0 <= k < notes@.len() ==> are_note_headers(
                    header_views((#[trigger] notes@[k])@),
                ),
            commitments@ =~= commitments_of_notes(views.take(i as int)),
        decreases notes@.len() - i,
    {
        let ghost start = commitments@;
        let ghost headers = header_views(notes@[i as int]@);
        let ghost added = headers.map_values(|note: NoteHeaderView| note_commitment_of(note));
        let list = &notes[i];
        let mut j: usize = 0;
        while j < list.len()
            invariant
                j <= list@.len(),
                headers == header_views(list@),
                are_note_headers(headers),
                added == headers.map_values(|note: NoteHeaderView| note_commitment_of(note)),
                commitments@ =~= start + added.take(j as int),
            decreases list@.len() - j,
        {
            assert(headers[j as int] == list@[j as int]@);
            commitments.push(note_commitment(&list[j]));
            j = j + 1;
        }
        proof {
            assert(added.take(j as int) =~= added);
            assert(views.take(i + 1).drop_last() =~= views.take(i as int));
            assert(views.take(i + 1).last() == headers);
        }
        i = i + 1;
    }
    assert(views.take(i as int) =~= views);
    Ok(commitments)
}

fn find_sync_record(records: &Vec<NoteSyncRecord>, note_id: Word) -> (r: Option<usize>)
    ensures
        match r {
            None => sync_record_of(sync_views(records@), note_id) is None,
            Some(i) => i < records@.len() && sync_record_of(sync_views(records@), note_id) == Some(
                records@[i as int]@,
            ),
        },
{
    let ghost views = sync_views(records@);
    let mut i: usize = records.len();
    assert(views.take(i as int) =~= views);
    while i > 0
        invariant
            i <= records@.len(),
            views == sync_views(records@),
            sync_record_of(views, note_id) == sync_record_of(views.take(i as int), note_id),
        decreases i,
    {
        let ghost upto = views.take(i as int);
        i = i - 1;
        assert(upto.drop_last() =~= views.take(i as int));
        assert(upto.last() == records@[i as int]@);
        if records[i].note_id == note_id {
            return Some(i);
        }
    }
    None
}

fn collect_proofs(notes: &Vec<NoteHeader>, records: &Vec<NoteSyncRecord>) -> (r: Vec<
    NoteSyncRecord,
>)
    ensures
        sync_views(r@) == proofs_of_notes(header_views(notes@), sync_views(records@)),
{
    let ghost headers = header_views(notes@);
    let mut proofs: Vec<NoteSyncRecord> = Vec::new();
    assert(sync_views(proofs@) =~= Seq::empty());
    let mut i: usize = 0;
    while i < notes.len()
        invariant
            i <= notes@.len(),
            headers == header_views(notes@),
            sync_views(proofs@) =~= proofs_of_notes(headers.take(i as int), sync_views(records@)),
        decreases notes@.len() - i,
    {
        proof {
            assert(headers.take(i + 1).drop_last() =~= headers.take(i as int));
            assert(headers.take(i + 1).last() == notes@[i as int]@);
        }
        let ghost before = proofs@;
        if let Some(position) = find_sync_record(records, notes[i].note_id) {
            let record = records[position].copy();
            proofs.push(record);
            assert(sync_views(proofs@) =~= sync_views(before).push(record@));
        }
        i = i + 1;
    }
    assert(headers.take(i as int) =~= headers);
    proofs
}

fn read_transaction(
    row: &TransactionRecordRaw,
    output_notes: Vec<NoteHeader>,
    records: &Vec<NoteSyncRecord>,
) -> (r: Result<TransactionRecord, DatabaseError>)
    ensures
        match record_of_row(row@, header_views(output_notes@), sync_views(records@)) {
            Err(error) => r == Err::<TransactionRecord, DatabaseError>(error),
            Ok(record) => r matches Ok(found) && found@ == record,
        },
{
    let transaction_id = read_word(&row.transaction_id)?;
    let account_id = read_account_id(&row.account_id)?;
    let block_num = block_number_from_raw_sql(row.block_num)?;
    let initial_state_commitment = read_word(&row.initial_state_commitment)?;
    let final_state_commitment = read_word(&row.final_state_commitment)?;
    let input_notes = match input_notes_from_bytes(&row.input_notes) {
        Some(notes) => notes,
        None => return Err(DatabaseError::DeserializationError),
    };
    let fee = match fungible_asset_from_bytes(&row.fee) {
        Some(fee) => fee,
        None => return Err(DatabaseError::DeserializationError),
    };
    let output_note_proofs = collect_proofs(&output_notes, records);
    Ok(
        TransactionRecord {
            block_num,
            header: TransactionHeader {
                transaction_id,
                account_id,
                initial_state_commitment,
                final_state_commitment,
                input_notes,
                output_notes,
                fee,
            },
            output_note_proofs,
        },
    )
}

/// Takes rows as transactions, each with the records of its output notes. Notes that were erased in
/// their block have no record and are left out.
pub fn with_output_note_proofs(
    rows: &Vec<TransactionRecordRaw>,
    records: &Vec<NoteSyncRecord>,
) -> (r: Result<Vec<TransactionRecord>, DatabaseError>)
    ensures
        match records_of_rows(rows@, sync_views(records@)) {
            Err(error) => r == Err::<Vec<TransactionRecord>, DatabaseError>(error),
            Ok(transactions) => r matches Ok(found) && found@.map_values(
                |record: TransactionRecord| record@,
            ) == transactions,
        },
{
    let notes = read_output_notes(rows)?;
    let ghost views = notes_views(notes@);
    let ghost results = record_results(rows@, views, sync_views(records@));
    let ghost all_notes = notes@;
    proof {
        lemma_collect_values(
            rows@.map_values(|row: TransactionRecordRaw| output_notes_of_row(row@)),
        );
    }
    let mut transactions: Vec<TransactionRecord> = Vec::new();
    assert(transactions@.map_values(|record: TransactionRecord| record@) =~= Seq::empty());
    let count: usize = rows.len();
    let mut i: usize = 0;
    for output_notes in it: notes
        invariant
            it.seq() == all_notes,
            all_notes.len() == rows@.len(),
            count == rows@.len(),
            i == it.index(),
            views == notes_views(all_notes),
            results == record_results(rows@, views, sync_views(records@)),
            output_notes_of_rows(rows@) == Ok::<Seq<Seq<NoteHeaderView>>, DatabaseError>(views),
            collect_results(results.take(i as int)) == Ok::<
                Seq<TransactionRecordView>,
                DatabaseError,
            >(transactions@.map_values(|record: TransactionRecord| record@)),
    {
        proof {
            assert(views[i as int] == header_views(output_notes@));
            lemma_collect_step(results, i as int);
            if results[i as int] is Err {
                lemma_collect_prefix_error(results, i + 1);
            }
        }
        let ghost before = transactions@;
        let record = read_transaction(&rows[i], output_notes, records)?;
        transactions.push(record);
        assert(transactions@.map_values(|record: TransactionRecord| record@) =~= before.map_values(
            |record: TransactionRecord| record@,
        ).push(record@));
        i = i + 1;
    }
    assert(results.take(i as int) =~= results);
    Ok(transactions)
}

/// A transaction that was stored is read back with its block and its header.
pub proof fn lemma_transaction_round_trip(
    header: TransactionHeaderView,
    block_num: BlockNumber,
    row: TransactionRowView,
    records: Seq<NoteSyncView>,
)
    requires
        row == transaction_row(header, block_num),
        header.transaction_id.is_canonical(),
        is_valid_account_id(header.account_id),
        header.initial_state_commitment.is_canonical(),
        header.final_state_commitment.is_canonical(),
        is_readable_row(row, header),
    ensures
        record_of_row(row, header.output_notes, records) == Ok::<
            TransactionRecordView,
            DatabaseError,
        >(
            TransactionRecordView {
                block_num,
                header,
                output_note_proofs: proofs_of_notes(header.output_notes, records),
            },
        ),
{
    lemma_word_round_trip(header.transaction_id, Seq::empty());
    lemma_word_round_trip(header.initial_state_commitment, Seq::empty());
    lemma_word_round_trip(header.final_state_commitment, Seq::empty());
    lemma_account_id_round_trip(header.account_id, Seq::empty());
    assert(row.transaction_id + Seq::empty() =~= row.transaction_id);
    assert(row.initial_state_commitment + Seq::empty() =~= row.initial_state_commitment);
    assert(row.final_state_commitment + Seq::empty() =~= row.final_state_commitment);
    assert(row.account_id + Seq::empty() =~= row.account_id);
}

} // verus!
