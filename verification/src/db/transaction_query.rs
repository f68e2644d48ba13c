//! The queries by which transactions are read chunk by chunk.
//!
//! Rows are ordered by block and, within a block, by transaction identifier. Each query goes on
//! after the row that was read last.

use vstd::prelude::*;

use crate::account_id::AccountId;
use crate::block_number::BlockRange;
use crate::bytes::copy_bytes;
use crate::db::conv::block_number_to_raw_sql;
use crate::db::transactions::{
    fitting_count, lemma_fitting_prefix, total_size, TransactionRecordRaw,
    TransactionRowView, TransactionScan, NUM_TXS_PER_CHUNK,
};
use crate::protocol::{account_id_bytes, account_id_to_bytes};

verus! {

// QUERIES
// ================================================================================================

/// A query for the transactions of accounts in a range of blocks, after the given block and
/// transaction identifier.
#[derive(Clone, Debug, PartialEq, Eq)]
pub struct TransactionsQuery {
    pub account_ids: Vec<Vec<u8>>,
    pub block_from: i64,
    pub block_to: i64,
    pub after: Option<(i64, Vec<u8>)>,
    pub limit: usize,
}

/// What a query for transactions asks for.
#[verifier::ext_equal]
pub struct TransactionsQueryView {
    pub account_ids: Seq<Seq<u8>>,
    pub block_from: int,
    pub block_to: int,
    pub after: Option<(int, Seq<u8>)>,
    pub limit: nat,
}

impl View for TransactionsQuery {
    type V = TransactionsQueryView;

    open spec fn view(&self) -> TransactionsQueryView {
        TransactionsQueryView {
            account_ids: self.account_ids@.map_values(|id: Vec<u8>| id@),
            block_from: self.block_from as int,
            block_to: self.block_to as int,
            after: match self.after {
                Some((block_num, id)) => Some((block_num as int, id@)),
                None => None,
            },
            limit: self.limit as nat,
        }
    }
}

/// The position of the last of the rows.
pub open spec fn position_of(rows: Seq<TransactionRowView>) -> Option<(int, Seq<u8>)> {
    if rows.len() == 0 {
        None
    } else {
        Some((rows.last().block_num as int, rows.last().transaction_id))
    }
}

/// The query for the transactions of accounts in a range of blocks that goes on after a position.
pub open spec fn transactions_query(
    account_ids: Seq<AccountId>,
    block_range: BlockRange,
    after: Option<(int, Seq<u8>)>,
) -> TransactionsQueryView {
    TransactionsQueryView {
        account_ids: account_ids.map_values(|id: AccountId| account_id_bytes(id)),
        block_from: block_range.start.0 as int,
        block_to: block_range.end.0 as int,
        after,
        limit: NUM_TXS_PER_CHUNK as nat,
    }
}

/// The columns of rows.
pub open spec fn row_views(rows: Seq<TransactionRecordRaw>) -> Seq<TransactionRowView> {
    rows.map_values(|row: TransactionRecordRaw| row@)
}

impl TransactionScan {
    /// Returns the query for the next chunk of transactions.
    pub fn next_query(&self, account_ids: &Vec<AccountId>, block_range: BlockRange) -> (r:
        TransactionsQuery)
        requires
            self.has_position(),
        ensures
            r@ == transactions_query(
                account_ids@,
                block_range,
                position_of(row_views(self.transactions@)),
            ),
            r.account_ids@.len() == account_ids@.len(),
            forall|i: int|
                0 <= i < account_ids@.len() ==> (#[trigger] r.account_ids@[i])@ == account_id_bytes(
                    account_ids@[i],
                ),
            r.block_from == block_range.start.0,
            r.block_to == block_range.end.0,
            self.transactions@.len() == 0 <==> r.after is None,
            r.after matches Some((block_num, id)) ==> block_num
                == self.transactions@.last().block_num && id@
                == self.transactions@.last().transaction_id@,
            r.limit == 1000,
    {
        let mut ids: Vec<Vec<u8>> = Vec::new();
        let mut i: usize = 0;
        while i < account_ids.len()
            invariant
                i <= account_ids@.len(),
                ids@.len() == i,
                forall|k: int|
                    0 <= k < i ==> (#[trigger] ids@[k])@ == account_id_bytes(account_ids@[k]),
            decreases account_ids@.len() - i,
        {
            ids.push(account_id_to_bytes(account_ids[i]));
            i = i + 1;
        }
        let after: Option<(i64, Vec<u8>)> = match (self.last_block_num, &self.last_transaction_id) {
            (Some(block_num), Some(id)) => Some((block_num, copy_bytes(id))),
            _ => None,
        };
        let query = TransactionsQuery {
            account_ids: ids,
            block_from: block_number_to_raw_sql(block_range.start),
            block_to: block_number_to_raw_sql(block_range.end),
            after,
            limit: NUM_TXS_PER_CHUNK,
        };
        proof {
            let rows = self.transactions@;
            if rows.len() > 0 {
                assert(row_views(rows).last() == rows.last()@);
            }
            assert(query@ =~= transactions_query(
                account_ids@,
                block_range,
                position_of(row_views(self.transactions@)),
            ));
        }
        query
    }
}

// ANSWERS
// ================================================================================================

/// Whether a byte string comes before another in lexicographic order.
pub open spec fn is_bytes_before(a: Seq<u8>, b: Seq<u8>) -> bool
    decreases a.len(),
{
    b.len() > 0 && (a.len() == 0 || a[0] < b[0] || (a[0] == b[0] && is_bytes_before(
        a.skip(1),
        b.skip(1),
    )))
}

proof fn lemma_bytes_before_one_way(a: Seq<u8>, b: Seq<u8>)
    ensures
        !(is_bytes_before(a, b) && is_bytes_before(b, a)),
    decreases a.len(),
{
    if a.len() > 0 && b.len() > 0 {
        lemma_bytes_before_one_way(a.skip(1), b.skip(1));
    }
}

/// Whether a row comes after a position.
pub open spec fn is_after(position: (int, Seq<u8>), row: TransactionRowView) -> bool {
    ||| row.block_num > position.0
    ||| row.block_num == position.0 && is_bytes_before(position.1, row.transaction_id)
}

/// Whether rows are in the order of blocks and transaction identifiers, none twice.
pub open spec fn is_ordered(rows: Seq<TransactionRowView>) -> bool {
    forall|i: int, j: int|
        0 <= i < j < rows.len() ==> is_after(
            ((#[trigger] rows[i]).block_num as int, rows[i].transaction_id),
            #[trigger] rows[j],
        )
}

/// Whether a query asks for a row.
pub open spec fn is_selected(query: TransactionsQueryView, row: TransactionRowView) -> bool {
    &&& query.block_from <= row.block_num <= query.block_to
    &&& query.account_ids.contains(row.account_id)
    &&& query.after matches Some(position) ==> is_after(position, row)
}

/// Whether rows are all those of a table that a query asks for, in order.
pub open spec fn is_selection(
    query: TransactionsQueryView,
    table: Set<TransactionRowView>,
    rows: Seq<TransactionRowView>,
) -> bool {
    &&& is_ordered(rows)
    &&& forall|row: TransactionRowView| #[trigger]
        rows.contains(row) <==> table.contains(row) && is_selected(query, row)
}

/// The first rows, up to a limit.
pub open spec fn first_rows(rows: Seq<TransactionRowView>, limit: nat) -> Seq<TransactionRowView> {
    if rows.len() > limit {
        rows.take(limit as int)
    } else {
        rows
    }
}

/// Whether rows are what a table answers to a query.
pub open spec fn is_answer(
    query: TransactionsQueryView,
    table: Set<TransactionRowView>,
    chunk: Seq<TransactionRowView>,
) -> bool {
    exists|rows: Seq<TransactionRowView>| #[trigger]
        is_selection(query, table, rows) && chunk == first_rows(rows, query.limit)
}

proof fn lemma_not_after_itself(rows: Seq<TransactionRowView>, i: int, j: int)
    requires
        is_ordered(rows),
        0 <= i <= j < rows.len(),
    ensures
        !is_after((rows[j].block_num as int, rows[j].transaction_id), rows[i]),
{
    lemma_bytes_before_one_way(rows[i].transaction_id, rows[j].transaction_id);
    if i < j {
        assert(is_after((rows[i].block_num as int, rows[i].transaction_id), rows[j]));
    }
}

proof fn lemma_one_order(a: Seq<TransactionRowView>, b: Seq<TransactionRowView>)
    requires
        is_ordered(a),
        is_ordered(b),
        forall|row: TransactionRowView| a.contains(row) <==> b.contains(row),
    ensures
        a == b,
    decreases a.len(),
{
    if a.len() == 0 {
        if b.len() > 0 {
            assert(b.contains(b[0]));
        }
        assert(a =~= b);
    } else {
        assert(a.contains(a[0]));
        let i = choose|i: int| 0 <= i < b.len() && b[i] == a[0];
        assert(b.contains(b[0]));
        let j = choose|j: int| 0 <= j < a.len() && a[j] == b[0];
        lemma_not_after_itself(b, 0, i);
        assert(i == 0 || j == 0) by {
            if j > 0 {
                assert(is_after((a[0].block_num as int, a[0].transaction_id), a[j]));
            }
        }
        let (rest_a, rest_b) = (a.skip(1), b.skip(1));
        lemma_rest(a, b);
        lemma_rest(b, a);
        assert forall|row: TransactionRowView| rest_a.contains(row) <==> rest_b.contains(row) by {}
        lemma_one_order(rest_a, rest_b);
        assert(a =~= seq![a[0]] + rest_a);
        assert(b =~= seq![b[0]] + rest_b);
    }
}

proof fn lemma_rest(a: Seq<TransactionRowView>, b: Seq<TransactionRowView>)
    requires
        is_ordered(a),
        is_ordered(b),
        a.len() > 0,
        b.len() > 0,
        a[0] == b[0],
        forall|row: TransactionRowView| a.contains(row) <==> b.contains(row),
    ensures
        is_ordered(a.skip(1)),
        forall|row: TransactionRowView|
            a.skip(1).contains(row) ==> b.skip(1).contains(row),
{
    assert forall|row: TransactionRowView| a.skip(1).contains(row) implies b.skip(1).contains(
        row,
    ) by {
        let i = choose|i: int| 0 <= i < a.skip(1).len() && a.skip(1)[i] == row;
        assert(a[i + 1] == row);
        assert(a.contains(row));
        let k = choose|k: int| 0 <= k < b.len() && b[k] == row;
        assert(is_after((a[0].block_num as int, a[0].transaction_id), a[i + 1]));
        lemma_not_after_itself(b, 0, 0);
        assert(k > 0);
        assert(b.skip(1)[k - 1] == row);
    }
}

proof fn lemma_selection_after(
    account_ids: Seq<AccountId>,
    block_range: BlockRange,
    table: Set<TransactionRowView>,
    matching: Seq<TransactionRowView>,
    count: int,
)
    requires
        is_selection(transactions_query(account_ids, block_range, None), table, matching),
        0 <= count <= matching.len(),
    ensures
        is_selection(
            transactions_query(account_ids, block_range, position_of(matching.take(count))),
            table,
            matching.skip(count),
        ),
{
    let first = transactions_query(account_ids, block_range, None);
    let position = position_of(matching.take(count));
    let next = transactions_query(account_ids, block_range, position);
    let rest = matching.skip(count);
    assert forall|row: TransactionRowView| #[trigger]
        rest.contains(row) <==> table.contains(row) && is_selected(next, row) by {
        if rest.contains(row) {
            let i = choose|i: int| 0 <= i < rest.len() && rest[i] == row;
            assert(matching[count + i] == row);
            assert(matching.contains(row));
            if count > 0 {
                assert(matching.take(count).last() == matching[count - 1]);
                assert(is_after(
                    (matching[count - 1].block_num as int, matching[count - 1].transaction_id),
                    matching[count + i],
                ));
            }
        }
        if table.contains(row) && is_selected(next, row) {
            assert(is_selected(first, row));
            assert(matching.contains(row));
            let i = choose|i: int| 0 <= i < matching.len() && matching[i] == row;
            if i < count {
                assert(matching.take(count).last() == matching[count - 1]);
                lemma_not_after_itself(matching, i, count - 1);
            }
            assert(rest[i - count] == row);
        }
    }
    assert(is_ordered(rest)) by {
        assert forall|i: int, j: int| 0 <= i < j < rest.len() implies is_after(
            ((#[trigger] rest[i]).block_num as int, rest[i].transaction_id),
            #[trigger] rest[j],
        ) by {
            assert(rest[i] == matching[count + i]);
            assert(rest[j] == matching[count + j]);
        }
    }
}

// LAWS
// ================================================================================================

/// A query asks for the rows of all requested accounts, and of no other, in the whole range of blocks,
/// after its position.
pub proof fn lemma_query_selects_requested_rows(
    account_ids: Seq<AccountId>,
    block_range: BlockRange,
    after: Option<(int, Seq<u8>)>,
    row: TransactionRowView,
)
    ensures
        is_selected(transactions_query(account_ids, block_range, after), row) <==> {
            &&& block_range.start.0 <= row.block_num <= block_range.end.0
            &&& exists|i: int|
                0 <= i < account_ids.len() && row.account_id == account_id_bytes(
                    #[trigger] account_ids[i],
                )
            &&& after matches Some((block_num, id)) ==> (row.block_num > block_num || (
            row.block_num == block_num && is_bytes_before(id, row.transaction_id)))
        },
{
    let ids = transactions_query(account_ids, block_range, after).account_ids;
    if ids.contains(row.account_id) {
        let i = choose|i: int| 0 <= i < ids.len() && ids[i] == row.account_id;
        assert(row.account_id == account_id_bytes(account_ids[i]));
    }
    assert forall|i: int|
        0 <= i < account_ids.len() && row.account_id == account_id_bytes(
            #[trigger] account_ids[i],
        ) implies ids.contains(row.account_id) by {
        assert(ids[i] == row.account_id);
    }
}

/// Chunks continue each other: of all the rows that a table holds of the accounts in the range of
/// blocks, the answer to the query after the first `count` ones is the rows that follow them, as
/// many as a query reads.
pub proof fn lemma_chunks_continue(
    account_ids: Seq<AccountId>,
    block_range: BlockRange,
    table: Set<TransactionRowView>,
    matching: Seq<TransactionRowView>,
    count: int,
    chunk: Seq<TransactionRowView>,
)
    requires
        is_ordered(matching),
        forall|row: TransactionRowView| #[trigger]
            matching.contains(row) <==> {
                &&& table.contains(row)
                &&& block_range.start.0 <= row.block_num <= block_range.end.0
                &&& exists|i: int|
                    0 <= i < account_ids.len() && row.account_id == account_id_bytes(
                        #[trigger] account_ids[i],
                    )
            },
        0 <= count <= matching.len(),
        is_answer(
            transactions_query(account_ids, block_range, position_of(matching.take(count))),
            table,
            chunk,
        ),
    ensures
        chunk == first_rows(matching.skip(count), NUM_TXS_PER_CHUNK as nat),
{
    let query = transactions_query(account_ids, block_range, position_of(matching.take(count)));
    let first = transactions_query(account_ids, block_range, None);
    assert forall|row: TransactionRowView| #[trigger]
        matching.contains(row) <==> table.contains(row) && is_selected(first, row) by {
        lemma_query_selects_requested_rows(account_ids, block_range, None, row);
    }
    let rows = choose|rows: Seq<TransactionRowView>| #[trigger]
        is_selection(query, table, rows) && chunk == first_rows(rows, query.limit);
    lemma_selection_after(account_ids, block_range, table, matching, count);
    let rest = matching.skip(count);
    assert forall|row: TransactionRowView| rows.contains(row) <==> rest.contains(row) by {}
    lemma_one_order(rows, rest);
}

/// A scan reads the rows of the accounts in the range of blocks in order, without a gap, and ends
/// only where it has read all of them or the next one does not fit into the payload.
///
/// `before` are the rows of a scan, `chunk` is the answer to its next query, and `after` are the
/// rows of the scan once it has added the chunk.
pub proof fn lemma_scan_reads_in_order(
    account_ids: Seq<AccountId>,
    block_range: BlockRange,
    table: Set<TransactionRowView>,
    matching: Seq<TransactionRowView>,
    before: Seq<TransactionRecordRaw>,
    chunk: Seq<TransactionRecordRaw>,
    max_payload: int,
)
    requires
        is_ordered(matching),
        forall|row: TransactionRowView| #[trigger]
            matching.contains(row) <==> {
                &&& table.contains(row)
                &&& block_range.start.0 <= row.block_num <= block_range.end.0
                &&& exists|i: int|
                    0 <= i < account_ids.len() && row.account_id == account_id_bytes(
                        #[trigger] account_ids[i],
                    )
            },
        before.len() <= matching.len(),
        row_views(before) == matching.take(before.len() as int),
        fitting_count(before, max_payload) == before.len(),
        is_answer(
            transactions_query(account_ids, block_range, position_of(row_views(before))),
            table,
            row_views(chunk),
        ),
    ensures
        ({
            let rows = before + chunk;
            let after = rows.take(fitting_count(rows, max_payload) as int);
            &&& before.len() <= after.len() <= matching.len()
            &&& row_views(after) == matching.take(after.len() as int)
            &&& after.len() - before.len() < NUM_TXS_PER_CHUNK ==> (after.len() == matching.len()
                || total_size(after) + matching[after.len() as int].size_in_bytes > max_payload)
        }),
{
    let rows = before + chunk;
    let fitting = fitting_count(rows, max_payload) as int;
    let after = rows.take(fitting);
    lemma_chunks_continue(
        account_ids,
        block_range,
        table,
        matching,
        before.len() as int,
        row_views(chunk),
    );
    assert(rows.take(before.len() as int) =~= before);
    lemma_fitting_prefix(rows, before.len() as int, max_payload);
    assert(chunk.len() == row_views(chunk).len());
    assert forall|i: int| 0 <= i < rows.len() implies (#[trigger] rows[i])@ == matching[i] by {
        if i < before.len() {
            assert(row_views(before)[i] == before[i]@);
        } else {
            assert(row_views(chunk)[i - before.len()] == chunk[i - before.len()]@);
        }
    }
    assert(row_views(after) =~= matching.take(after.len() as int));
    if after.len() - before.len() < NUM_TXS_PER_CHUNK && after.len() < matching.len() {
        assert(fitting < rows.len());
        assert(rows.take(fitting + 1).drop_last() =~= after);
        assert(rows.take(fitting + 1).last() == rows[fitting]);
    }
}

} // verus!
