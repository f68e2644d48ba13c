//! Pages that are read by one call after another hold all rows of a table that does not change meanwhile.

use vstd::prelude::*;

use crate::account_id::AccountId;
use crate::block_number::{BlockNumber, BlockRange};
use crate::db::accounts::{
    is_state_roots_page, is_storage_map_page, lemma_storage_map_pages_continue,
    range_query_error, PublicAccountStateRoots, PublicAccountStateRootsPage, StateRootsRow,
    StateRootsView, StorageMapValue, StorageMapValueRow, StorageMapValuesPage,
};
use crate::db::conv::{collect_results, lemma_collect_values};
use crate::db::pages::{
    complete_row_count, is_ascending, is_by_block, is_position, lemma_pages_continue, page_cursor,
    page_rows, query_after, query_blocks, rows_after, rows_of_blocks,
};
use crate::errors::DatabaseError;

verus! {

proof fn lemma_all_decoded<R, T, E>(rows: Seq<R>, decoded: spec_fn(R) -> Result<T, E>)
    requires
        forall|i: int| 0 <= i < rows.len() ==> decoded(#[trigger] rows[i]) is Ok,
    ensures
        collect_results(rows.map_values(decoded)) == Ok::<Seq<T>, E>(
            rows.map_values(|row: R| decoded(row)->Ok_0),
        ),
    decreases rows.len(),
{
    let results = rows.map_values(decoded);
    let values = rows.map_values(|row: R| decoded(row)->Ok_0);
    if rows.len() > 0 {
        let before = rows.drop_last();
        assert forall|i: int| 0 <= i < before.len() implies decoded(#[trigger] before[i]) is Ok by {
            assert(before[i] == rows[i]);
        }
        lemma_all_decoded(before, decoded);
        assert(results.drop_last() =~= before.map_values(decoded));
        assert(decoded(rows[rows.len() - 1]) is Ok);
        assert(values =~= before.map_values(|row: R| decoded(row)->Ok_0).push(
            decoded(rows.last())->Ok_0,
        ));
    } else {
        assert(values =~= Seq::empty());
    }
}

// PAGES OF STATE ROOTS
// ================================================================================================

/// The place of a row in the order of the identifiers.
pub open spec fn roots_key(order: spec_fn(AccountId) -> int) -> spec_fn(StateRootsRow) -> int {
    |row: StateRootsRow| order(row.decoded()->Ok_0.account_id)
}

/// The roots that rows stand for.
pub open spec fn decoded_roots(rows: Seq<StateRootsRow>) -> Seq<StateRootsView> {
    rows.map_values(|row: StateRootsRow| row.decoded()->Ok_0)
}

/// The roots of a page.
pub open spec fn page_roots(page: PublicAccountStateRootsPage) -> Seq<StateRootsView> {
    page.accounts@.map_values(|roots: PublicAccountStateRoots| roots@)
}

/// The cursor of a call: that of the page before, or none for the first call.
pub open spec fn cursor_of_call(
    pages: Seq<PublicAccountStateRootsPage>,
    order: spec_fn(AccountId) -> int,
    i: int,
) -> Option<int> {
    if i == 0 {
        None
    } else {
        Some(order(pages[i - 1].next_cursor->0))
    }
}

/// Whether pages are what one call after another returns, each with the cursor of the page before, until
/// there is none. `table` holds the rows of all public accounts in the order of their identifiers.
pub open spec fn are_roots_pages(
    table: Seq<StateRootsRow>,
    order: spec_fn(AccountId) -> int,
    page_size: nat,
    pages: Seq<PublicAccountStateRootsPage>,
) -> bool {
    &&& pages.len() > 0
    &&& pages.last().next_cursor is None
    &&& forall|i: int|
        0 <= i < pages.len() - 1 ==> (#[trigger] pages[i]).next_cursor is Some
    &&& forall|i: int|
        0 <= i < pages.len() ==> #[trigger] is_roots_call(table, order, page_size, pages, i)
}

/// Whether a page is what the call with the cursor of the page before returns.
pub open spec fn is_roots_call(
    table: Seq<StateRootsRow>,
    order: spec_fn(AccountId) -> int,
    page_size: nat,
    pages: Seq<PublicAccountStateRootsPage>,
    i: int,
) -> bool {
    is_state_roots_page(
        query_after(table, roots_key(order), cursor_of_call(pages, order, i), page_size + 1),
        page_size,
        Ok(pages[i]),
    )
}

/// The roots of the pages from the given one on.
pub open spec fn joined_roots(pages: Seq<PublicAccountStateRootsPage>, from: int) -> Seq<
    StateRootsView,
>
    decreases pages.len() - from,
{
    if 0 <= from < pages.len() {
        page_roots(pages[from]) + joined_roots(pages, from + 1)
    } else {
        Seq::empty()
    }
}

proof fn lemma_roots_page(
    table: Seq<StateRootsRow>,
    order: spec_fn(AccountId) -> int,
    page_size: nat,
    after: Option<int>,
    page: PublicAccountStateRootsPage,
)
    requires
        forall|i: int| 0 <= i < table.len() ==> (#[trigger] table[i]).decoded() is Ok,
        is_ascending(table, roots_key(order)),
        page_size > 0,
        is_position(table, roots_key(order), after),
        is_state_roots_page(
            query_after(table, roots_key(order), after, page_size + 1),
            page_size,
            Ok(page),
        ),
    ensures
        ({
            let key = roots_key(order);
            let rest = rows_after(table, key, after);
            &&& page.accounts@.len() <= page_size
            &&& page.next_cursor is Some <==> page.accounts@.len() < rest.len()
            &&& match page.next_cursor {
                Some(cursor) => {
                    &&& page.accounts@.len() > 0
                    &&& cursor == page.accounts@.last().account_id
                    &&& is_position(table, key, Some(order(cursor)))
                    &&& decoded_roots(rest) == page_roots(page) + decoded_roots(
                        rows_after(table, key, Some(order(cursor))),
                    )
                },
                None => decoded_roots(rest) == page_roots(page),
            }
        }),
{
    let key = roots_key(order);
    let rest = rows_after(table, key, after);
    let found = query_after(table, key, after, page_size + 1);
    lemma_pages_continue(table, key, after, page_size);
    lemma_rows_after_decoded(table, order, after);
    assert forall|i: int| 0 <= i < found.len() implies (#[trigger] found[i]).decoded() is Ok by {
        assert(found[i] == rest[i]);
    }
    lemma_all_decoded(found, |row: StateRootsRow| row.decoded());
    let views = decoded_roots(found);
    assert(views =~= found.map_values(
        |row: StateRootsRow| (|row: StateRootsRow| row.decoded())(row)->Ok_0,
    ));
    assert(collect_results(found.map_values(|row: StateRootsRow| row.decoded())) == Ok::<
        Seq<StateRootsView>,
        DatabaseError,
    >(views));
    let kept = page_rows(found, page_size);
    assert(page_roots(page) =~= decoded_roots(kept));
    if let Some(cursor) = page.next_cursor {
        let row = page_cursor(found, page_size)->0;
        assert(views[views.len() - 2] == row.decoded()->Ok_0);
        assert(page_roots(page).last() == page.accounts@.last()@);
        assert(cursor == page.accounts@.last().account_id);
        assert(key(row) == order(cursor));
        let later = rows_after(table, key, Some(order(cursor)));
        assert(decoded_roots(kept + later) =~= decoded_roots(kept) + decoded_roots(later));
    }
}

proof fn lemma_rows_after_decoded(
    table: Seq<StateRootsRow>,
    order: spec_fn(AccountId) -> int,
    after: Option<int>,
)
    requires
        forall|i: int| 0 <= i < table.len() ==> (#[trigger] table[i]).decoded() is Ok,
    ensures
        forall|i: int|
            0 <= i < rows_after(table, roots_key(order), after).len() ==> (#[trigger] rows_after(
                table,
                roots_key(order),
                after,
            )[i]).decoded() is Ok,
    decreases table.len(),
{
    reveal(Seq::filter);
    if after is Some && table.len() > 0 {
        let before = table.drop_last();
        assert forall|i: int| 0 <= i < before.len() implies (#[trigger] before[i]).decoded() is Ok by {
            assert(before[i] == table[i]);
        }
        lemma_rows_after_decoded(before, order, after);
        assert(table[table.len() - 1].decoded() is Ok);
    }
}

proof fn lemma_joined_roots(
    table: Seq<StateRootsRow>,
    order: spec_fn(AccountId) -> int,
    page_size: nat,
    pages: Seq<PublicAccountStateRootsPage>,
    from: int,
)
    requires
        forall|i: int| 0 <= i < table.len() ==> (#[trigger] table[i]).decoded() is Ok,
        is_ascending(table, roots_key(order)),
        page_size > 0,
        are_roots_pages(table, order, page_size, pages),
        0 <= from < pages.len(),
        is_position(table, roots_key(order), cursor_of_call(pages, order, from)),
    ensures
        joined_roots(pages, from) == decoded_roots(
            rows_after(table, roots_key(order), cursor_of_call(pages, order, from)),
        ),
        forall|i: int|
            from <= i < pages.len() ==> (#[trigger] pages[i]).accounts@.len() <= page_size,
        forall|i: int|
            from <= i < pages.len() - 1 ==> (#[trigger] pages[i]).accounts@.len() > 0
                && pages[i].next_cursor == Some(pages[i].accounts@.last().account_id),
    decreases pages.len() - from,
{
    let page = pages[from];
    assert(is_roots_call(table, order, page_size, pages, from));
    lemma_roots_page(table, order, page_size, cursor_of_call(pages, order, from), page);
    if from < pages.len() - 1 {
        assert(page.next_cursor is Some);
        lemma_joined_roots(table, order, page_size, pages, from + 1);
    } else {
        assert(joined_roots(pages, from + 1) =~= Seq::empty());
        assert(joined_roots(pages, from) =~= page_roots(page));
    }
}

/// Pages of roots are complete: calls of `select_public_account_state_roots_paged` with the rows after the
/// cursor of the page before, until a page has no cursor, return the roots of all public accounts, each
/// one once, in the order of the identifiers. A page holds at most `page_size` roots, and its cursor is
/// the account of its last root.
pub proof fn lemma_state_root_calls_are_complete(
    table: Seq<StateRootsRow>,
    order: spec_fn(AccountId) -> int,
    page_size: nat,
    pages: Seq<PublicAccountStateRootsPage>,
)
    requires
        forall|i: int| 0 <= i < table.len() ==> (#[trigger] table[i]).decoded() is Ok,
        is_ascending(table, roots_key(order)),
        page_size > 0,
        are_roots_pages(table, order, page_size, pages),
    ensures
        joined_roots(pages, 0) == decoded_roots(table),
        forall|i: int|
            0 <= i < pages.len() ==> (#[trigger] pages[i]).accounts@.len() <= page_size,
        forall|i: int|
            0 <= i < pages.len() - 1 ==> (#[trigger] pages[i]).accounts@.len() > 0
                && pages[i].next_cursor == Some(pages[i].accounts@.last().account_id),
{
    lemma_joined_roots(table, order, page_size, pages, 0);
}

// PAGES OF STORAGE MAP ENTRIES
// ================================================================================================

/// Whether a result is what `select_account_storage_map_values_paged` returns for a range of blocks, from
/// a table that holds the rows of the account in the order of their blocks.
pub open spec fn is_storage_map_call(
    account_id: AccountId,
    table: Seq<StorageMapValueRow>,
    block_range: BlockRange,
    limit: nat,
    result: Result<StorageMapValuesPage, DatabaseError>,
) -> bool {
    is_storage_map_page(
        account_id,
        block_range,
        query_blocks(table, block_range.start.0 as int, block_range.end.0 as int, limit + 1),
        limit,
        result,
    )
}

proof fn lemma_whole_range(
    account_id: AccountId,
    table: Seq<StorageMapValueRow>,
    block_range: BlockRange,
    limit: nat,
    result: Result<StorageMapValuesPage, DatabaseError>,
)
    requires
        table.len() <= limit,
        forall|i: int|
            0 <= i < table.len() ==> StorageMapValue::of_row(#[trigger] table[i]) is Ok,
        range_query_error(account_id, block_range) is None,
        is_storage_map_call(account_id, table, block_range, limit, result),
    ensures
        result matches Ok(page) && page.values@ == decoded_values(
            rows_of_blocks(table, block_range.start.0 as int, block_range.end.0 as int),
        ),
{
    let (start, end) = (block_range.start.0 as int, block_range.end.0 as int);
    let all = rows_of_blocks(table, start, end);
    lemma_blocks_decoded(table, start, end);
    let found = query_blocks(table, start, end, limit + 1);
    assert(found == all);
    assert(found.take(complete_row_count(found, limit) as int) =~= all);
    lemma_all_decoded(all, |row: StorageMapValueRow| StorageMapValue::of_row(row));
    assert(decoded_values(all) =~= all.map_values(
        |row: StorageMapValueRow|
            (|row: StorageMapValueRow| StorageMapValue::of_row(row))(row)->Ok_0,
    ));
}

/// The entries that rows stand for.
pub open spec fn decoded_values(rows: Seq<StorageMapValueRow>) -> Seq<StorageMapValue> {
    rows.map_values(|row: StorageMapValueRow| StorageMapValue::of_row(row)->Ok_0)
}

proof fn lemma_blocks_decoded(table: Seq<StorageMapValueRow>, first: int, last: int)
    requires
        forall|i: int|
            0 <= i < table.len() ==> StorageMapValue::of_row(#[trigger] table[i]) is Ok,
    ensures
        rows_of_blocks(table, first, last).len() <= table.len(),
        forall|i: int|
            0 <= i < rows_of_blocks(table, first, last).len() ==> StorageMapValue::of_row(
                #[trigger] rows_of_blocks(table, first, last)[i],
            ) is Ok,
    decreases table.len(),
{
    reveal(Seq::filter);
    if table.len() > 0 {
        let before = table.drop_last();
        assert forall|i: int| 0 <= i < before.len() implies StorageMapValue::of_row(
            #[trigger] before[i],
        ) is Ok by {
            assert(before[i] == table[i]);
        }
        lemma_blocks_decoded(before, first, last);
        assert(StorageMapValue::of_row(table[table.len() - 1]) is Ok);
    }
}

/// Pages of storage map entries continue each other: a call of
/// `select_account_storage_map_values_paged` that returns entries returns at most `limit`, and the same as
/// a call without a limit for the blocks up to the last block of the page. Followed by what such a call
/// returns for the blocks after it, these are the entries of the whole range: no block is split, and no
/// entry is lost or there twice.
pub proof fn lemma_storage_map_calls_continue(
    account_id: AccountId,
    table: Seq<StorageMapValueRow>,
    block_range: BlockRange,
    limit: nat,
    no_limit: nat,
    page: StorageMapValuesPage,
    first: Result<StorageMapValuesPage, DatabaseError>,
    rest: Result<StorageMapValuesPage, DatabaseError>,
    all: Result<StorageMapValuesPage, DatabaseError>,
)
    requires
        is_by_block(table),
        table.len() <= no_limit,
        forall|i: int|
            0 <= i < table.len() ==> StorageMapValue::of_row(#[trigger] table[i]) is Ok,
        range_query_error(account_id, block_range) is None,
        is_storage_map_call(account_id, table, block_range, limit, Ok(page)),
        page.values@.len() > 0,
        is_storage_map_call(
            account_id,
            table,
            (BlockRange { start: block_range.start, end: page.last_block_included }),
            no_limit,
            first,
        ),
        page.last_block_included.0 < block_range.end.0 ==> is_storage_map_call(
            account_id,
            table,
            (BlockRange {
                start: BlockNumber((page.last_block_included.0 + 1) as u32),
                end: block_range.end,
            }),
            no_limit,
            rest,
        ),
        is_storage_map_call(account_id, table, block_range, no_limit, all),
    ensures
        page.values@.len() <= limit,
        block_range.start.0 <= page.last_block_included.0 <= block_range.end.0,
        first matches Ok(first_page) && first_page.values@ == page.values@,
        all matches Ok(whole) && if page.last_block_included.0 < block_range.end.0 {
            rest matches Ok(later) && whole.values@ == page.values@ + later.values@
        } else {
            whole.values@ == page.values@
        },
{
    let (start, end) = (block_range.start.0 as int, block_range.end.0 as int);
    let found = query_blocks(table, start, end, limit + 1);
    let kept = found.take(complete_row_count(found, limit) as int);
    let last = page.last_block_included.0 as int;
    lemma_collect_values(
        kept.map_values(|row: StorageMapValueRow| StorageMapValue::of_row(row)),
    );
    lemma_storage_map_pages_continue(table, block_range, limit, page.values@);
    lemma_blocks_decoded(table, start, last);
    assert(page.values@ =~= decoded_values(kept));
    lemma_whole_range(
        account_id,
        table,
        BlockRange { start: block_range.start, end: page.last_block_included },
        no_limit,
        first,
    );
    lemma_whole_range(account_id, table, block_range, no_limit, all);
    let later = rows_of_blocks(table, last + 1, end);
    assert(decoded_values(kept + later) =~= decoded_values(kept) + decoded_values(later));
    if last < end {
        lemma_whole_range(
            account_id,
            table,
            BlockRange { start: BlockNumber((last + 1) as u32), end: block_range.end },
            no_limit,
            rest,
        );
    } else {
        lemma_no_blocks(table, last + 1, end);
        assert(kept + later =~= kept);
    }
}

proof fn lemma_no_blocks(table: Seq<StorageMapValueRow>, first: int, last: int)
    requires
        last < first,
    ensures
        rows_of_blocks(table, first, last) == Seq::<StorageMapValueRow>::empty(),
    decreases table.len(),
{
    reveal(Seq::filter);
    if table.len() > 0 {
        lemma_no_blocks(table.drop_last(), first, last);
    }
}

} // verus!
