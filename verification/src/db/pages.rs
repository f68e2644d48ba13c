//! Pages of query results.
//!
//! A page that is read by a cursor is queried with one row more than it holds: the extra row tells
//! that more rows follow. A page that is read by a block range and limited in its number of rows
//! ends at a block boundary, so that no block is returned in part.

use vstd::prelude::*;

verus! {

// PAGES BY CURSOR
// ================================================================================================

/// The rows of a page among rows that were queried with one row more than the page holds.
pub open spec fn page_rows<T>(rows: Seq<T>, page_size: nat) -> Seq<T> {
    if rows.len() > page_size {
        rows.drop_last()
    } else {
        rows
    }
}

/// The row by which the next page is queried, if more rows follow: the last one of the page.
pub open spec fn page_cursor<T>(rows: Seq<T>, page_size: nat) -> Option<T> {
    if rows.len() > page_size && rows.len() > 1 {
        Some(rows[rows.len() - 2])
    } else {
        None
    }
}

/// Removes the extra row of a page, and returns whether there was one.
pub fn trim_page<T>(rows: &mut Vec<T>, page_size: usize) -> (more: bool)
    ensures
        final(rows)@ == page_rows(old(rows)@, page_size as nat),
        more == (old(rows)@.len() > page_size),
{
    if rows.len() > page_size {
        let _ = rows.pop();
        true
    } else {
        false
    }
}

/// The rows that a query for up to `limit` rows after the key `after` returns from a table whose
/// rows are `rows` in ascending order of their keys.
pub open spec fn query_after<T>(
    rows: Seq<T>,
    key: spec_fn(T) -> int,
    after: Option<int>,
    limit: nat,
) -> Seq<T> {
    let rest = rows_after(rows, key, after);
    if rest.len() > limit {
        rest.take(limit as int)
    } else {
        rest
    }
}

/// The rows after the key `after`.
pub open spec fn rows_after<T>(
    rows: Seq<T>,
    key: spec_fn(T) -> int,
    after: Option<int>,
) -> Seq<T> {
    match after {
        None => rows,
        Some(cursor) => rows.filter(|row: T| key(row) > cursor),
    }
}

/// Whether the rows are in ascending order of their keys, no key twice.
pub open spec fn is_ascending<T>(rows: Seq<T>, key: spec_fn(T) -> int) -> bool {
    forall|i: int, j: int|
        0 <= i < j < rows.len() ==> key(#[trigger] rows[i]) < key(#[trigger] rows[j])
}

/// Whether `after` is the key of a row, or `None` to start with the first one.
pub open spec fn is_position<T>(
    rows: Seq<T>,
    key: spec_fn(T) -> int,
    after: Option<int>,
) -> bool {
    after matches Some(cursor) ==> exists|i: int|
        0 <= i < rows.len() && key(#[trigger] rows[i]) == cursor
}

proof fn lemma_filter_after<T>(rows: Seq<T>, key: spec_fn(T) -> int, position: int)
    requires
        is_ascending(rows, key),
        0 <= position < rows.len(),
    ensures
        rows_after(rows, key, Some(key(rows[position]))) =~= rows.skip(position + 1),
    decreases rows.len(),
{
    reveal(Seq::filter);
    let cursor = key(rows[position]);
    let before = rows.drop_last();
    let pred = |row: T| key(row) > cursor;
    if position == rows.len() - 1 {
        assert forall|i: int| 0 <= i < rows.len() implies !pred(#[trigger] rows[i]) by {}
        lemma_filter_none(rows, pred);
    } else {
        lemma_filter_after(before, key, position);
        assert(before[position] == rows[position]);
        assert(key(rows[rows.len() - 1]) > cursor);
        assert(rows.skip(position + 1) =~= before.skip(position + 1).push(rows.last()));
    }
}

proof fn lemma_filter_none<T>(rows: Seq<T>, pred: spec_fn(T) -> bool)
    requires
        forall|i: int| 0 <= i < rows.len() ==> !pred(#[trigger] rows[i]),
    ensures
        rows.filter(pred) =~= Seq::empty(),
    decreases rows.len(),
{
    reveal(Seq::filter);
    if rows.len() > 0 {
        lemma_filter_none(rows.drop_last(), pred);
    }
}

/// Pages by cursor continue each other: a page holds at most `page_size` rows, and followed by the
/// rows after its cursor it makes up the rows that were left to read. There is a cursor if and only
/// if rows are left after the page.
pub proof fn lemma_pages_continue<T>(
    rows: Seq<T>,
    key: spec_fn(T) -> int,
    after: Option<int>,
    page_size: nat,
)
    requires
        is_ascending(rows, key),
        page_size > 0,
        is_position(rows, key, after),
    ensures
        ({
            let rest = rows_after(rows, key, after);
            let found = query_after(rows, key, after, page_size + 1);
            let page = page_rows(found, page_size);
            &&& page.len() <= page_size
            &&& page_cursor(found, page_size) is Some <==> page.len() < rest.len()
            &&& match page_cursor(found, page_size) {
                Some(cursor) => {
                    &&& is_position(rows, key, Some(key(cursor)))
                    &&& rest == page + rows_after(rows, key, Some(key(cursor)))
                    &&& page.len() == page_size
                },
                None => rest == page,
            }
        }),
{
    let start: int = match after {
        None => 0,
        Some(cursor) => {
            let i = choose|i: int| 0 <= i < rows.len() && key(#[trigger] rows[i]) == cursor;
            lemma_filter_after(rows, key, i);
            i + 1
        },
    };
    if after is None {
        assert(rows.skip(0) =~= rows);
    }
    let rest = rows_after(rows, key, after);
    assert(rest =~= rows.skip(start));
    let found = query_after(rows, key, after, page_size + 1);
    if rest.len() > page_size {
        let position = start + page_size - 1;
        assert(found =~= rest.take((page_size + 1) as int));
        assert(found[found.len() - 2] == rows[position]);
        lemma_filter_after(rows, key, position);
        assert(rest =~= found.drop_last() + rows.skip(position + 1));
    }
}

/// The rows of the page after `after` and of all pages that follow it, each read after the cursor
/// of the one before.
pub open spec fn joined_pages<T>(
    rows: Seq<T>,
    key: spec_fn(T) -> int,
    after: Option<int>,
    page_size: nat,
) -> Seq<T>
    decreases rows_after(rows, key, after).len(),
    when is_ascending(rows, key) && page_size > 0 && is_position(rows, key, after)
{
    proof {
        lemma_pages_continue(rows, key, after, page_size);
    }
    let found = query_after(rows, key, after, page_size + 1);
    match page_cursor(found, page_size) {
        None => page_rows(found, page_size),
        Some(cursor) => page_rows(found, page_size) + joined_pages(
            rows,
            key,
            Some(key(cursor)),
            page_size,
        ),
    }
}

/// Pages by cursor are complete: read one after the other until there is no cursor, they hold all
/// rows, each one once, in ascending order.
pub proof fn lemma_pages_are_complete<T>(
    rows: Seq<T>,
    key: spec_fn(T) -> int,
    after: Option<int>,
    page_size: nat,
)
    requires
        is_ascending(rows, key),
        page_size > 0,
        is_position(rows, key, after),
    ensures
        joined_pages(rows, key, after, page_size) == rows_after(rows, key, after),
    decreases rows_after(rows, key, after).len(),
{
    lemma_pages_continue(rows, key, after, page_size);
    let found = query_after(rows, key, after, page_size + 1);
    if let Some(cursor) = page_cursor(found, page_size) {
        lemma_pages_are_complete(rows, key, Some(key(cursor)), page_size);
    }
}

// PAGES BY BLOCK
// ================================================================================================

/// A row that belongs to a block.
pub trait BlockRow {
    /// The block number as it is stored.
    spec fn raw_block(&self) -> i64;

    /// Returns the block number as it is stored.
    fn raw_block_num(&self) -> (r: i64)
        ensures
            r == self.raw_block(),
    ;
}

/// The number of leading rows that belong to another block than `block`.
pub open spec fn rows_before_block<R: BlockRow>(rows: Seq<R>, block: i64) -> nat
    decreases rows.len(),
{
    if rows.len() == 0 || rows[0].raw_block() == block {
        0
    } else {
        1 + rows_before_block(rows.drop_first(), block)
    }
}

/// The number of rows that a page of at most `limit` rows keeps: all, or, if there are more than
/// the limit, those before the block of the last row, which may be there only in part.
pub open spec fn complete_row_count<R: BlockRow>(rows: Seq<R>, limit: nat) -> nat {
    if rows.len() > limit {
        rows_before_block(rows, rows.last().raw_block())
    } else {
        rows.len()
    }
}

proof fn lemma_rows_before_block<R: BlockRow>(rows: Seq<R>, block: i64, count: nat)
    requires
        count <= rows.len(),
        forall|i: int| 0 <= i < count ==> (#[trigger] rows[i]).raw_block() != block,
        count < rows.len() ==> rows[count as int].raw_block() == block,
    ensures
        rows_before_block(rows, block) == count,
    decreases count,
{
    if count > 0 {
        let rest = rows.drop_first();
        assert forall|i: int| 0 <= i < count - 1 implies (#[trigger] rest[i]).raw_block()
            != block by {
            assert(rest[i] == rows[i + 1]);
        }
        lemma_rows_before_block(rest, block, (count - 1) as nat);
    }
}

/// The leading rows that belong to another block are followed by a row of the block, if there is
/// one.
pub proof fn lemma_rows_split_at_block<R: BlockRow>(rows: Seq<R>, block: i64)
    ensures
        rows_before_block(rows, block) <= rows.len(),
        forall|i: int|
            0 <= i < rows_before_block(rows, block) ==> (#[trigger] rows[i]).raw_block() != block,
        rows_before_block(rows, block) < rows.len() ==> rows[rows_before_block(
            rows,
            block,
        ) as int].raw_block() == block,
    decreases rows.len(),
{
    if rows.len() > 0 && rows[0].raw_block() != block {
        let rest = rows.drop_first();
        lemma_rows_split_at_block(rest, block);
        assert forall|i: int| 0 <= i < rows_before_block(rows, block) implies (
        #[trigger] rows[i]).raw_block() != block by {
            if i > 0 {
                assert(rest[i - 1] == rows[i]);
            }
        }
    }
}

/// Returns the number of leading rows that belong to another block than `block`.
pub fn count_rows_before_block<R: BlockRow>(rows: &Vec<R>, block: i64) -> (r: usize)
    ensures
        r == rows_before_block(rows@, block),
        r <= rows@.len(),
{
    let mut count: usize = 0;
    while count < rows.len() && rows[count].raw_block_num() != block
        invariant
            count <= rows@.len(),
            forall|i: int| 0 <= i < count ==> (#[trigger] rows@[i]).raw_block() != block,
        decreases rows@.len() - count,
    {
        count = count + 1;
    }
    proof {
        lemma_rows_before_block(rows@, block, count as nat);
    }
    count
}

/// Returns the number of rows that a page of at most `limit` rows keeps.
pub fn count_complete_rows<R: BlockRow>(rows: &Vec<R>, limit: usize) -> (r: usize)
    ensures
        r == complete_row_count(rows@, limit as nat),
        r <= rows@.len(),
{
    if rows.len() <= limit {
        return rows.len();
    }
    let last_block: i64 = rows[rows.len() - 1].raw_block_num();
    count_rows_before_block(rows, last_block)
}

/// A page never holds a block in part: among rows in the order of their blocks, the rows that are
/// left out of the page are all of one block, and the page holds no row of it.
pub proof fn lemma_pages_end_at_block_boundary<R: BlockRow>(rows: Seq<R>, limit: nat)
    requires
        is_by_block(rows),
        rows.len() > limit,
    ensures
        complete_row_count(rows, limit) < rows.len(),
        forall|i: int|
            0 <= i < complete_row_count(rows, limit) ==> (#[trigger] rows[i]).raw_block()
                < rows.last().raw_block(),
        forall|i: int|
            complete_row_count(rows, limit) <= i < rows.len() ==> (#[trigger] rows[i]).raw_block()
                == rows.last().raw_block(),
{
    lemma_rows_before_block_bounds(rows, rows.last().raw_block());
    let count = complete_row_count(rows, limit);
    assert forall|i: int| 0 <= i < count implies (#[trigger] rows[i]).raw_block()
        < rows.last().raw_block() by {
        assert(rows[i].raw_block() <= rows[rows.len() - 1].raw_block());
    }
    assert forall|i: int| count <= i < rows.len() implies (#[trigger] rows[i]).raw_block()
        == rows.last().raw_block() by {
        assert(rows[count as int].raw_block() <= rows[i].raw_block());
        assert(rows[i].raw_block() <= rows[rows.len() - 1].raw_block());
    }
}

proof fn lemma_rows_before_block_bounds<R: BlockRow>(rows: Seq<R>, block: i64)
    requires
        exists|i: int| 0 <= i < rows.len() && (#[trigger] rows[i]).raw_block() == block,
    ensures
        rows_before_block(rows, block) < rows.len(),
        rows[rows_before_block(rows, block) as int].raw_block() == block,
        forall|i: int|
            0 <= i < rows_before_block(rows, block) ==> (#[trigger] rows[i]).raw_block() != block,
    decreases rows.len(),
{
    if rows[0].raw_block() != block {
        let rest = rows.drop_first();
        let k = choose|i: int| 0 <= i < rows.len() && (#[trigger] rows[i]).raw_block() == block;
        assert(rest[k - 1] == rows[k]);
        lemma_rows_before_block_bounds(rest, block);
        let count = rows_before_block(rest, block);
        assert(rest[count as int] == rows[(count + 1) as int]);
        assert forall|i: int| 0 <= i < count + 1 implies (#[trigger] rows[i]).raw_block()
            != block by {
            if i > 0 {
                assert(rest[i - 1] == rows[i]);
            }
        }
    }
}

/// The rows of a range of blocks.
pub open spec fn rows_of_blocks<R: BlockRow>(rows: Seq<R>, first: int, last: int) -> Seq<R> {
    rows.filter(|row: R| first <= row.raw_block() <= last)
}

/// The rows that a query for up to `limit` rows of a range of blocks returns from a table whose
/// rows are `rows` in the order of their blocks.
pub open spec fn query_blocks<R: BlockRow>(
    rows: Seq<R>,
    first: int,
    last: int,
    limit: nat,
) -> Seq<R> {
    let found = rows_of_blocks(rows, first, last);
    if found.len() > limit {
        found.take(limit as int)
    } else {
        found
    }
}

/// Whether rows are in the order of their blocks.
pub open spec fn is_by_block<R: BlockRow>(rows: Seq<R>) -> bool {
    forall|i: int, j: int|
        0 <= i <= j < rows.len() ==> (#[trigger] rows[i]).raw_block() <= (
        #[trigger] rows[j]).raw_block()
}

proof fn lemma_rows_of_blocks<R: BlockRow>(rows: Seq<R>, first: int, last: int)
    requires
        is_by_block(rows),
    ensures
        is_by_block(rows_of_blocks(rows, first, last)),
        forall|i: int|
            0 <= i < rows_of_blocks(rows, first, last).len() ==> first <= (
            #[trigger] rows_of_blocks(rows, first, last)[i]).raw_block() <= last,
        forall|i: int|
            0 <= i < rows_of_blocks(rows, first, last).len() && rows.len() > 0 ==> (
            #[trigger] rows_of_blocks(rows, first, last)[i]).raw_block()
                <= rows.last().raw_block(),
    decreases rows.len(),
{
    reveal(Seq::filter);
    if rows.len() > 0 {
        let before = rows.drop_last();
        lemma_rows_of_blocks(before, first, last);
        if before.len() > 0 {
            assert(before.last() == rows[rows.len() - 2]);
            assert(rows[rows.len() - 2].raw_block() <= rows[rows.len() - 1].raw_block());
        }
    }
}

/// The rows of a range of blocks are those of its first blocks followed by those of the others.
pub proof fn lemma_blocks_split<R: BlockRow>(rows: Seq<R>, first: int, middle: int, last: int)
    requires
        is_by_block(rows),
        first <= middle + 1,
        middle <= last,
    ensures
        rows_of_blocks(rows, first, last) == rows_of_blocks(rows, first, middle)
            + rows_of_blocks(rows, middle + 1, last),
    decreases rows.len(),
{
    reveal(Seq::filter);
    if rows.len() > 0 {
        let before = rows.drop_last();
        lemma_blocks_split(before, first, middle, last);
        let row = rows.last();
        if first <= row.raw_block() <= middle {
            let pred = |row: R| middle + 1 <= row.raw_block() <= last;
            assert forall|i: int| 0 <= i < before.len() implies !pred(#[trigger] before[i]) by {
                assert(before[i] == rows[i]);
                assert(rows[i].raw_block() <= rows[rows.len() - 1].raw_block());
            }
            lemma_filter_none(before, pred);
        }
    }
    assert(rows_of_blocks(rows, first, last) =~= rows_of_blocks(rows, first, middle)
        + rows_of_blocks(rows, middle + 1, last));
}

/// Pages by block continue each other: a page of at most `limit` rows, in the order of their blocks,
/// holds all rows of the range up to the block of its last row, or up to the end of the range if no
/// row was left out. Followed by the rows of the blocks after that, it makes up all rows of the
/// range.
pub proof fn lemma_block_pages_continue<R: BlockRow>(
    rows: Seq<R>,
    first: int,
    last: int,
    limit: nat,
)
    requires
        is_by_block(rows),
        first <= last,
        ({
            let found = query_blocks(rows, first, last, limit + 1);
            found.len() > limit ==> complete_row_count(found, limit) > 0
        }),
    ensures
        ({
            let found = query_blocks(rows, first, last, limit + 1);
            let page = found.take(complete_row_count(found, limit) as int);
            let end: int = if found.len() > limit {
                page.last().raw_block() as int
            } else {
                last
            };
            &&& page.len() <= limit
            &&& is_by_block(page)
            &&& first <= end <= last
            &&& page == rows_of_blocks(rows, first, end)
            &&& rows_of_blocks(rows, first, last) == page + rows_of_blocks(rows, end + 1, last)
        }),
{
    let all = rows_of_blocks(rows, first, last);
    let found = query_blocks(rows, first, last, limit + 1);
    let count = complete_row_count(found, limit) as int;
    let page = found.take(count);
    lemma_rows_of_blocks(rows, first, last);
    if found.len() > limit {
        assert(is_by_block(found)) by {
            assert forall|i: int, j: int| 0 <= i <= j < found.len() implies (
            #[trigger] found[i]).raw_block() <= (#[trigger] found[j]).raw_block() by {
                assert(found[i] == all[i] && found[j] == all[j]);
            }
        }
        lemma_pages_end_at_block_boundary(found, limit);
        let end = page.last().raw_block() as int;
        assert(page.last() == all[count - 1]);
        assert(found[count] == all[count]);
        lemma_blocks_split(rows, first, end, last);
        lemma_rows_of_blocks(rows, first, end);
        lemma_rows_of_blocks(rows, end + 1, last);
        let head = rows_of_blocks(rows, first, end);
        let tail = rows_of_blocks(rows, end + 1, last);
        assert(found[count - 1].raw_block() < found.last().raw_block());
        if head.len() > count {
            assert(head[count] == all[count]);
        }
        if head.len() < count {
            assert(tail[count - 1 - head.len()] == all[count - 1]);
        }
        assert(page =~= head);
    } else {
        lemma_blocks_split(rows, first, last, last);
        let tail = rows_of_blocks(rows, last + 1, last);
        lemma_rows_of_blocks(rows, last + 1, last);
        if tail.len() > 0 {
            assert(tail[0].raw_block() <= last);
        }
        assert(page =~= all);
    }
}

} // verus!
