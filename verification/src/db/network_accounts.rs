//! Which network accounts a range of blocks selects.

use vstd::prelude::*;

use crate::account_id::AccountId;
use crate::block_number::{BlockNumber, BlockRange};
use crate::bytes::copy_bytes;
use crate::db::accounts::{
    account_id_column, is_network_page, select_all_network_account_ids, NetworkAccountRow,
    NetworkAccountType,
};
use crate::db::conv::{block_number_to_raw_sql, lemma_collect_values};
use crate::db::pages::{complete_row_count, is_by_block, lemma_pages_end_at_block_boundary};
use crate::db::tables::AccountTables;
use crate::db::upsert::AccountRowInsert;
use crate::errors::DatabaseError;

verus! {

// QUERIES
// ================================================================================================

/// A query for the latest rows of accounts of a kind that were created in a range of blocks, in the
/// order of their creation.
#[derive(Clone, Copy, Debug, PartialEq, Eq, Structural)]
pub struct NetworkAccountsQuery {
    pub network_account_type: i32,
    pub created_from: i64,
    pub created_to: i64,
    pub limit: usize,
}

/// The query for up to `limit` network accounts that were created in a range of blocks.
pub open spec fn network_query(block_range: BlockRange, limit: usize) -> NetworkAccountsQuery {
    NetworkAccountsQuery {
        network_account_type: NetworkAccountType::Network.raw(),
        created_from: block_range.start.0 as i64,
        created_to: block_range.end.0 as i64,
        limit,
    }
}

/// Returns the query for network accounts that were created in a range of blocks, with one row more
/// than a page holds.
pub fn network_accounts_query(block_range: BlockRange, max_rows: usize) -> (r: NetworkAccountsQuery)
    requires
        max_rows < usize::MAX,
    ensures
        r == network_query(block_range, (max_rows + 1) as usize),
        r.network_account_type == 1,
        r.created_from == block_range.start.0,
        r.created_to == block_range.end.0,
        r.limit == max_rows + 1,
{
    NetworkAccountsQuery {
        network_account_type: NetworkAccountType::Network.to_raw_sql(),
        created_from: block_number_to_raw_sql(block_range.start),
        created_to: block_number_to_raw_sql(block_range.end),
        limit: max_rows + 1,
    }
}

/// Whether a query asks for an account: its row is the latest one, it is of the kind, and it was
/// created in the range, no matter when it was changed last.
pub open spec fn is_selected_account(query: NetworkAccountsQuery, row: AccountRowInsert) -> bool {
    &&& row.is_latest
    &&& row.network_account_type == query.network_account_type
    &&& query.created_from <= row.created_at_block <= query.created_to
}

/// The rows that a query asks for, in the order of the table.
pub open spec fn selected_accounts(
    query: NetworkAccountsQuery,
    table: Seq<AccountRowInsert>,
) -> Seq<AccountRowInsert> {
    table.filter(|row: AccountRowInsert| is_selected_account(query, row))
}

/// Whether rows are in the order in which their accounts were created.
pub open spec fn is_by_creation(rows: Seq<AccountRowInsert>) -> bool {
    forall|i: int, j: int|
        0 <= i <= j < rows.len() ==> (#[trigger] rows[i]).created_at_block <= (
        #[trigger] rows[j]).created_at_block
}

/// Whether rows hold the columns of the first rows of a table, up to a limit.
pub open spec fn are_first_columns(
    rows: Seq<NetworkAccountRow>,
    all: Seq<AccountRowInsert>,
    limit: nat,
) -> bool {
    &&& rows.len() == (if all.len() <= limit {
        all.len()
    } else {
        limit
    })
    &&& forall|i: int|
        0 <= i < rows.len() ==> (#[trigger] rows[i]).account_id@ == all[i].account_id@
            && rows[i].created_at_block == all[i].created_at_block
}

/// Whether rows are what a table answers to a query. The order of accounts that were created in the
/// same block is open.
pub open spec fn is_network_answer(
    query: NetworkAccountsQuery,
    table: Seq<AccountRowInsert>,
    rows: Seq<NetworkAccountRow>,
) -> bool {
    exists|all: Seq<AccountRowInsert>|
        {
            &&& all.to_multiset() == selected_accounts(query, table).to_multiset()
            &&& is_by_creation(all)
            &&& #[trigger] are_first_columns(rows, all, query.limit as nat)
        }
}

/// Answers a query from the table of accounts.
pub fn answer_network_query(tables: &AccountTables, query: NetworkAccountsQuery) -> (r: Vec<
    NetworkAccountRow,
>)
    ensures
        is_network_answer(query, tables.accounts@, r@),
        r@.len() <= query.limit,
        forall|i: int, j: int|
            0 <= i <= j < r@.len() ==> (#[trigger] r@[i]).created_at_block <= (
            #[trigger] r@[j]).created_at_block,
        forall|i: int|
            0 <= i < tables.accounts@.len() && (#[trigger] tables.accounts@[i]).is_latest
                && tables.accounts@[i].network_account_type == query.network_account_type
                && query.created_from <= tables.accounts@[i].created_at_block <= query.created_to
                && (r@.len() < query.limit || (r@.len() > 0
                && tables.accounts@[i].created_at_block < r@.last().created_at_block)) ==> exists|
                k: int,
            |
                0 <= k < r@.len() && (#[trigger] r@[k]).account_id@
                    == tables.accounts@[i].account_id@ && r@[k].created_at_block
                    == tables.accounts@[i].created_at_block,
{
    let ghost table = tables.accounts@;
    let ghost pred = |row: AccountRowInsert| is_selected_account(query, row);
    let ghost mut all: Seq<AccountRowInsert> = Seq::empty();
    let mut rows: Vec<NetworkAccountRow> = Vec::new();
    let mut i: usize = 0;
    proof {
        assert(table.take(0).filter(pred) =~= Seq::empty()) by {
            reveal(Seq::filter);
        }
    }
    while i < tables.accounts.len()
        invariant
            i <= table.len(),
            table == tables.accounts@,
            pred == (|row: AccountRowInsert| is_selected_account(query, row)),
            all.to_multiset() == table.take(i as int).filter(pred).to_multiset(),
            is_by_creation(all),
            are_first_columns(rows@, all, all.len()),
        decreases table.len() - i,
    {
        let row = &tables.accounts[i];
        let ghost next = table.take(i + 1);
        proof {
            assert(next.drop_last() =~= table.take(i as int));
            reveal(Seq::filter);
        }
        if row.is_latest && row.network_account_type == query.network_account_type
            && query.created_from <= row.created_at_block && row.created_at_block
            <= query.created_to {
            let mut position: usize = rows.len();
            while position > 0 && rows[position - 1].created_at_block > row.created_at_block
                invariant
                    position <= rows@.len() == all.len(),
                    is_by_creation(all),
                    are_first_columns(rows@, all, all.len()),
                    forall|k: int|
                        position <= k < all.len() ==> (#[trigger] all[k]).created_at_block
                            > row.created_at_block,
                decreases position,
            {
                assert(rows@[position - 1].created_at_block == all[position - 1].created_at_block);
                position = position - 1;
            }
            proof {
                if position > 0 {
                    assert(rows@[position - 1].created_at_block
                        == all[position - 1].created_at_block);
                }
            }
            let ghost (all_before, rows_before) = (all, rows@);
            rows.insert(
                position,
                NetworkAccountRow {
                    account_id: copy_bytes(&row.account_id),
                    created_at_block: row.created_at_block,
                },
            );
            proof {
                all = all.insert(position as int, *row);
                vstd::seq_lib::to_multiset_insert(all_before, position as int, *row);
                vstd::seq_lib::to_multiset_build(table.take(i as int).filter(pred), *row);
                assert forall|j: int, k: int| 0 <= j <= k < all.len() implies (
                #[trigger] all[j]).created_at_block <= (#[trigger] all[k]).created_at_block by {
                    let (a, b) = (
                        if j < position { j } else { j - 1 },
                        if k < position { k } else { k - 1 },
                    );
                    if j != position && k != position {
                        assert(all_before[a].created_at_block <= all_before[b].created_at_block);
                    } else if j == position && k != position {
                        assert(all[k] == all_before[b]);
                    } else if j != position {
                        assert(all_before[a].created_at_block <= all_before[position
                            - 1].created_at_block);
                    }
                }
                assert forall|k: int| 0 <= k < rows@.len() implies (
                #[trigger] rows@[k]).account_id@ == all[k].account_id@ && rows@[k].created_at_block
                    == all[k].created_at_block by {
                    if k < position {
                        assert(rows@[k] == rows_before[k]);
                    } else if k > position {
                        assert(rows@[k] == rows_before[k - 1]);
                    }
                }
            }
        }
        i = i + 1;
    }
    assert(table.take(i as int) =~= table);
    if rows.len() > query.limit {
        rows.truncate(query.limit);
    }
    assert(are_first_columns(rows@, all, query.limit as nat));
    proof {
        assert forall|i: int, j: int| 0 <= i <= j < rows@.len() implies (
        #[trigger] rows@[i]).created_at_block <= (#[trigger] rows@[j]).created_at_block by {
            assert(all[i].created_at_block <= all[j].created_at_block);
        }
        assert forall|i: int|
            0 <= i < table.len() && (#[trigger] table[i]).is_latest && table[i].network_account_type
                == query.network_account_type && query.created_from <= table[i].created_at_block
                <= query.created_to && (rows@.len() < query.limit || (rows@.len() > 0
                && table[i].created_at_block < rows@.last().created_at_block)) implies exists|
            k: int,
        |
            0 <= k < rows@.len() && (#[trigger] rows@[k]).account_id@ == table[i].account_id@
                && rows@[k].created_at_block == table[i].created_at_block by {
            assert(table.contains(table[i]));
            lemma_selected_rows(query, table, all, table[i]);
            let k = choose|k: int| 0 <= k < all.len() && all[k] == table[i];
            if k >= rows@.len() {
                assert(all[rows@.len() - 1].created_at_block <= all[k].created_at_block);
            }
            assert(rows@[k].account_id@ == table[i].account_id@);
        }
    }
    rows
}

/// Reads up to `max_rows` network accounts that were created within a block range, with the last block
/// that was included.
pub fn read_network_account_ids(tables: &AccountTables, block_range: BlockRange, max_rows: usize) -> (r:
    Result<(Vec<AccountId>, BlockNumber), DatabaseError>)
    requires
        max_rows < usize::MAX,
    ensures
        exists|rows: Seq<NetworkAccountRow>| #[trigger]
            is_network_answer(
                network_query(block_range, (max_rows + 1) as usize),
                tables.accounts@,
                rows,
            ) && is_network_page(r, block_range, rows, max_rows as nat),
        block_range.start.0 > block_range.end.0 ==> r == Err::<
            (Vec<AccountId>, BlockNumber),
            DatabaseError,
        >(DatabaseError::InvalidBlockRange { from: block_range.start, to: block_range.end }),
        r matches Ok((account_ids, last_block)) ==> forall|j: int|
            0 <= j < tables.accounts@.len() && (#[trigger] tables.accounts@[j]).is_latest
                && tables.accounts@[j].network_account_type == 1 && block_range.start.0
                <= tables.accounts@[j].created_at_block <= block_range.end.0
                && tables.accounts@[j].created_at_block <= last_block.0 ==> exists|i: int|
                0 <= i < account_ids@.len() && account_id_column(tables.accounts@[j].account_id@)
                    == Ok::<AccountId, DatabaseError>(#[trigger] account_ids@[i]),
        r matches Ok((account_ids, last_block)) ==> forall|id: AccountId| #[trigger]
            account_ids@.contains(id) ==> exists|j: int|
                {
                    &&& 0 <= j < tables.accounts@.len()
                    &&& (#[trigger] tables.accounts@[j]).is_latest
                    &&& tables.accounts@[j].network_account_type == 1
                    &&& block_range.start.0 <= tables.accounts@[j].created_at_block
                        <= block_range.end.0
                    &&& tables.accounts@[j].created_at_block <= last_block.0
                    &&& account_id_column(tables.accounts@[j].account_id@) == Ok::<
                        AccountId,
                        DatabaseError,
                    >(id)
                },
{
    let query = network_accounts_query(block_range, max_rows);
    let rows = answer_network_query(tables, query);
    let ghost answer = rows@;
    let r = select_all_network_account_ids(block_range, rows, max_rows);
    proof {
        if r is Ok {
            lemma_network_pages_hold_complete_blocks(
                block_range,
                tables.accounts@,
                answer,
                max_rows,
                r->Ok_0.0,
                r->Ok_0.1,
            );
        }
    }
    r
}

// LAWS
// ================================================================================================

/// Whether a list names the account of a row.
pub open spec fn lists_account(account_ids: Seq<AccountId>, row: AccountRowInsert) -> bool {
    exists|i: int|
        0 <= i < account_ids.len() && account_id_column(row.account_id@) == Ok::<
            AccountId,
            DatabaseError,
        >(#[trigger] account_ids[i])
}

/// Whether a table has a row of an account that a query asks for, and that was created up to the given
/// block.
pub open spec fn is_account_of_table(
    query: NetworkAccountsQuery,
    table: Seq<AccountRowInsert>,
    last_block: BlockNumber,
    account_id: AccountId,
) -> bool {
    exists|row: AccountRowInsert|
        {
            &&& #[trigger] table.contains(row)
            &&& is_selected_account(query, row)
            &&& row.created_at_block <= last_block.0
            &&& account_id_column(row.account_id@) == Ok::<AccountId, DatabaseError>(account_id)
        }
}

proof fn lemma_selected_rows(
    query: NetworkAccountsQuery,
    table: Seq<AccountRowInsert>,
    all: Seq<AccountRowInsert>,
    row: AccountRowInsert,
)
    requires
        all.to_multiset() == selected_accounts(query, table).to_multiset(),
    ensures
        all.contains(row) <==> table.contains(row) && is_selected_account(query, row),
{
    let selected = selected_accounts(query, table);
    vstd::seq_lib::to_multiset_contains(all, row);
    vstd::seq_lib::to_multiset_contains(selected, row);
    let pred = |row: AccountRowInsert| is_selected_account(query, row);
    assert(selected == table.filter(pred));
    if selected.contains(row) {
        let i = choose|i: int| 0 <= i < selected.len() && selected[i] == row;
        table.lemma_filter_pred(pred, i);
        table.lemma_filter_contains_rev(pred, row);
    }
    if table.contains(row) && pred(row) {
        let i = choose|i: int| 0 <= i < table.len() && table[i] == row;
        table.lemma_filter_contains(pred, i);
    }
}

/// Pages of network accounts never hold a block in part: a page lists exactly the network accounts that
/// were created in the range, up to the last block that it includes.
pub proof fn lemma_network_pages_hold_complete_blocks(
    block_range: BlockRange,
    table: Seq<AccountRowInsert>,
    rows: Seq<NetworkAccountRow>,
    max_rows: usize,
    account_ids: Vec<AccountId>,
    last_block: BlockNumber,
)
    requires
        max_rows < usize::MAX,
        !block_range.is_empty(),
        is_network_answer(network_query(block_range, (max_rows + 1) as usize), table, rows),
        is_network_page(Ok((account_ids, last_block)), block_range, rows, max_rows as nat),
    ensures
        account_ids@.len() <= max_rows,
        last_block@ <= block_range.end@,
        forall|row: AccountRowInsert|
            table.contains(row) && is_selected_account(
                network_query(block_range, (max_rows + 1) as usize),
                row,
            ) && row.created_at_block <= last_block.0 ==> #[trigger] lists_account(
                account_ids@,
                row,
            ),
        forall|i: int|
            0 <= i < account_ids@.len() ==> is_account_of_table(
                network_query(block_range, (max_rows + 1) as usize),
                table,
                last_block,
                #[trigger] account_ids@[i],
            ),
        forall|j: int|
            0 <= j < table.len() && (#[trigger] table[j]).is_latest && table[j].network_account_type
                == 1 && block_range.start.0 <= table[j].created_at_block <= block_range.end.0
                && table[j].created_at_block <= last_block.0 ==> exists|i: int|
                0 <= i < account_ids@.len() && account_id_column(table[j].account_id@) == Ok::<
                    AccountId,
                    DatabaseError,
                >(#[trigger] account_ids@[i]),
        forall|id: AccountId| #[trigger]
            account_ids@.contains(id) ==> exists|j: int|
                {
                    &&& 0 <= j < table.len()
                    &&& (#[trigger] table[j]).is_latest
                    &&& table[j].network_account_type == 1
                    &&& block_range.start.0 <= table[j].created_at_block <= block_range.end.0
                    &&& table[j].created_at_block <= last_block.0
                    &&& account_id_column(table[j].account_id@) == Ok::<AccountId, DatabaseError>(
                        id,
                    )
                },
        rows.len() <= max_rows ==> last_block == block_range.end,
{
    let query = network_query(block_range, (max_rows + 1) as usize);
    let all = choose|all: Seq<AccountRowInsert>|
        {
            &&& all.to_multiset() == selected_accounts(query, table).to_multiset()
            &&& is_by_creation(all)
            &&& #[trigger] are_first_columns(rows, all, query.limit as nat)
        };
    let count = complete_row_count(rows, max_rows as nat) as int;
    let kept = rows.take(count);
    let results = kept.map_values(|row: NetworkAccountRow| account_id_column(row.account_id@));
    lemma_collect_values(results);
    assert(is_by_block(rows)) by {
        assert forall|i: int, j: int| 0 <= i <= j < rows.len() implies (
        #[trigger] rows[i]).created_at_block <= (#[trigger] rows[j]).created_at_block by {
            assert(all[i].created_at_block <= all[j].created_at_block);
        }
    }
    if rows.len() > max_rows {
        lemma_pages_end_at_block_boundary(rows, max_rows as nat);
        let last = rows[rows.len() - 1];
        assert(all.contains(all[rows.len() - 1]));
        lemma_selected_rows(query, table, all, all[rows.len() - 1]);
        assert(last.created_at_block == all[rows.len() - 1].created_at_block);
    }
    assert forall|row: AccountRowInsert|
        table.contains(row) && is_selected_account(query, row) && row.created_at_block
            <= last_block.0 implies #[trigger] lists_account(account_ids@, row) by {
        lemma_selected_rows(query, table, all, row);
        let k = choose|k: int| 0 <= k < all.len() && all[k] == row;
        if k >= rows.len() {
            assert(all[rows.len() - 1].created_at_block <= all[k].created_at_block);
        }
        assert(rows[k].account_id@ == row.account_id@);
        assert(results[k] == Ok::<AccountId, DatabaseError>(account_ids@[k]));
    }
    assert forall|i: int| 0 <= i < account_ids@.len() implies is_account_of_table(
        query,
        table,
        last_block,
        #[trigger] account_ids@[i],
    ) by {
        let row = all[i];
        assert(all.contains(row));
        lemma_selected_rows(query, table, all, row);
        assert(rows[i].account_id@ == row.account_id@);
        assert(results[i] == Ok::<AccountId, DatabaseError>(account_ids@[i]));
    }
    assert forall|j: int|
        0 <= j < table.len() && (#[trigger] table[j]).is_latest && table[j].network_account_type
            == 1 && block_range.start.0 <= table[j].created_at_block <= block_range.end.0
            && table[j].created_at_block <= last_block.0 implies exists|i: int|
        0 <= i < account_ids@.len() && account_id_column(table[j].account_id@) == Ok::<
            AccountId,
            DatabaseError,
        >(#[trigger] account_ids@[i]) by {
        assert(table.contains(table[j]));
        assert(is_selected_account(query, table[j]));
        assert(lists_account(account_ids@, table[j]));
    }
    assert forall|id: AccountId| #[trigger] account_ids@.contains(id) implies exists|j: int|
        {
            &&& 0 <= j < table.len()
            &&& (#[trigger] table[j]).is_latest
            &&& table[j].network_account_type == 1
            &&& block_range.start.0 <= table[j].created_at_block <= block_range.end.0
            &&& table[j].created_at_block <= last_block.0
            &&& account_id_column(table[j].account_id@) == Ok::<AccountId, DatabaseError>(id)
        } by {
        let i = choose|i: int| 0 <= i < account_ids@.len() && account_ids@[i] == id;
        assert(is_account_of_table(query, table, last_block, account_ids@[i]));
        let row = choose|row: AccountRowInsert|
            {
                &&& #[trigger] table.contains(row)
                &&& is_selected_account(query, row)
                &&& row.created_at_block <= last_block.0
                &&& account_id_column(row.account_id@) == Ok::<AccountId, DatabaseError>(id)
            };
        let j = choose|j: int| 0 <= j < table.len() && table[j] == row;
        assert(table[j] == row);
    }
}

} // verus!
