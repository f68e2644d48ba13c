//! Laws on rows and pages: what a row stands for, and which rows a page holds.

use vstd::prelude::*;

use crate::account_id::AccountId;
use crate::block_number::{BlockNumber, BlockRange};
use crate::db::accounts::{
    account_id_column, asset_column, commitment_row, is_state_roots_page, is_storage_map_page,
    last_block_of_page, last_complete_block, range_query_error, raw_block_before, word_column,
    AccountSummaryRaw, AccountVaultUpdateRaw, AccountVaultValue, PublicAccountStateRoots,
    PublicAccountStateRootsPage, StateRootsRow, StateRootsView, StorageMapValue, StorageMapValueRow,
    StorageMapValuesPage,
};
use crate::db::conv::{block_number_of_raw, collect_results, lemma_collect_values};
use crate::db::delta::MapEntryRow;
use crate::db::pages::{
    complete_row_count, is_by_block, lemma_pages_end_at_block_boundary, page_cursor, page_rows,
    BlockRow,
};
use crate::errors::{DataCorruption, DatabaseError};
use crate::protocol::{
    account_id_of_bytes, asset_of_bytes, is_slot_name, is_vault_key, storage_header_of_bytes,
    word_of_bytes,
};
use crate::state::account::Asset;
use crate::word::Word;

verus! {

// COLUMNS
// ================================================================================================

/// Columns stand for the values that their bytes encode. Bytes that encode nothing are an error.
pub proof fn lemma_columns(bytes: Seq<u8>)
    ensures
        word_of_bytes(bytes) matches Some(word) ==> word_column(bytes) == Ok::<Word, DatabaseError>(
            word,
        ),
        word_of_bytes(bytes) is None ==> word_column(bytes) == Err::<Word, DatabaseError>(
            DatabaseError::DeserializationError,
        ),
        account_id_of_bytes(bytes) matches Some(id) ==> account_id_column(bytes) == Ok::<
            AccountId,
            DatabaseError,
        >(id),
        account_id_of_bytes(bytes) is None ==> account_id_column(bytes) == Err::<
            AccountId,
            DatabaseError,
        >(DatabaseError::DeserializationError),
        asset_of_bytes(bytes) matches Some(asset) ==> asset_column(bytes) == Ok::<
            Asset,
            DatabaseError,
        >(asset),
        asset_of_bytes(bytes) is None ==> asset_column(bytes) == Err::<Asset, DatabaseError>(
            DatabaseError::DeserializationError,
        ),
{
}

/// A stored block number is one exactly if it fits into 32 bits. The block before it is one less.
pub proof fn lemma_stored_block_numbers(raw: i64)
    ensures
        0 <= raw <= u32::MAX ==> block_number_of_raw(raw) == Ok::<BlockNumber, DatabaseError>(
            BlockNumber(raw as u32),
        ),
        !(0 <= raw <= u32::MAX) ==> block_number_of_raw(raw) == Err::<BlockNumber, DatabaseError>(
            DatabaseError::ConversionSqlToRust(raw),
        ),
        raw > i64::MIN ==> raw_block_before(raw) == raw - 1,
{
}

/// The row of an account stands for its identifier, its commitment and the block that changed it last.
pub proof fn lemma_account_summaries(row: AccountSummaryRaw)
    ensures
        row.decoded() matches Ok(summary) ==> account_id_of_bytes(row.account_id@) == Some(
            summary.account_id,
        ) && word_of_bytes(row.account_commitment@) == Some(summary.account_commitment)
            && summary.block_num.0 == row.block_num,
        row.decoded() is Ok <==> account_id_of_bytes(row.account_id@) is Some && word_of_bytes(
            row.account_commitment@,
        ) is Some && 0 <= row.block_num <= u32::MAX,
{
}

/// A row of a commitment stands for the identifier and the commitment that it holds.
pub proof fn lemma_commitment_rows(row: (Vec<u8>, Vec<u8>))
    ensures
        commitment_row(row) is Ok <==> account_id_of_bytes(row.0@) is Some && word_of_bytes(
            row.1@,
        ) is Some,
        commitment_row(row) matches Ok((id, commitment)) ==> account_id_of_bytes(row.0@) == Some(id)
            && word_of_bytes(row.1@) == Some(commitment),
{
}

/// A row of the roots of a public account stands for the root of its vault and its storage header. It
/// holds both.
pub proof fn lemma_rows_of_roots(row: StateRootsRow)
    ensures
        row.decoded() matches Ok(roots) ==> {
            &&& account_id_of_bytes(row.account_id@) == Some(roots.account_id)
            &&& row.vault_root is Some && word_of_bytes(row.vault_root->0@) == Some(
                roots.vault_root,
            )
            &&& row.storage_header is Some && storage_header_of_bytes(row.storage_header->0@)
                == Some(roots.storage_header)
        },
        account_id_of_bytes(row.account_id@) is Some && row.vault_root is None
            ==> row.decoded() is Err && row.decoded()->Err_0 == DatabaseError::DataCorrupted(
            DataCorruption::MissingVaultRoot(account_id_of_bytes(row.account_id@)->0),
        ),
        account_id_of_bytes(row.account_id@) is Some && row.vault_root is Some && word_of_bytes(
            row.vault_root->0@,
        ) is Some && row.storage_header is Some && storage_header_of_bytes(
            row.storage_header->0@,
        ) is Some ==> row.decoded() is Ok,
{
}

/// A row of a change of a vault stands for its block, its key, and the asset under the key, if it was not
/// removed.
pub proof fn lemma_rows_of_vault_changes(row: AccountVaultUpdateRaw)
    ensures
        row.decoded() matches Ok(value) ==> {
            &&& value.block_num.0 == row.block_num
            &&& word_of_bytes(row.vault_key@) == Some(value.vault_key)
            &&& row.asset is None <==> value.asset is None
            &&& row.asset matches Some(bytes) ==> value.asset == asset_of_bytes(bytes@)
        },
        row.decoded() is Ok <==> {
            &&& 0 <= row.block_num <= u32::MAX
            &&& word_of_bytes(row.vault_key@) is Some && is_vault_key(
                word_of_bytes(row.vault_key@)->0,
            )
            &&& row.asset matches Some(bytes) ==> asset_of_bytes(bytes@) is Some
        },
{
}

/// A row of an entry of a storage map stands for its block, its slot, its key and its value.
pub proof fn lemma_rows_of_map_changes(row: StorageMapValueRow)
    ensures
        StorageMapValue::of_row(row) is Ok <==> 0 <= row.block_num <= u32::MAX && is_slot_name(
            row.slot_name@,
        ) && word_of_bytes(row.key@) is Some && word_of_bytes(row.value@) is Some,
        StorageMapValue::of_row(row) matches Ok(value) ==> {
            &&& value.block_num.0 == row.block_num
            &&& value.slot_name == row.slot_name
            &&& word_of_bytes(row.key@) == Some(value.key)
            &&& word_of_bytes(row.value@) == Some(value.value)
        },
{
}

/// A row of an entry of a map stands for its slot, its key and its value.
pub proof fn lemma_rows_of_map_entries(row: MapEntryRow)
    ensures
        row.decoded() is Ok <==> is_slot_name(row.slot_name@) && word_of_bytes(row.key@) is Some
            && word_of_bytes(row.value@) is Some,
        row.decoded() matches Ok(entry) ==> entry.slot_name == row.slot_name@ && word_of_bytes(
            row.key@,
        ) == Some(entry.key) && word_of_bytes(row.value@) == Some(entry.value),
{
}

// PAGES
// ================================================================================================

/// A query of a range is refused exactly if the account's state is not public or the range ends before it
/// starts.
pub proof fn lemma_range_queries(account_id: AccountId, block_range: BlockRange)
    ensures
        range_query_error(account_id, block_range) is None <==> account_id.has_public_state()
            && block_range.start.0 <= block_range.end.0,
        !account_id.has_public_state() ==> range_query_error(account_id, block_range) == Some(
            DatabaseError::AccountNotPublic(account_id),
        ),
        account_id.has_public_state() && block_range.start.0 > block_range.end.0
            ==> range_query_error(account_id, block_range) == Some(
            DatabaseError::InvalidBlockRange { from: block_range.start, to: block_range.end },
        ),
{
}

/// A page holds all rows that were found, or all but the last one if one more was found than the page
/// holds. It goes on after its last row.
pub proof fn lemma_pages_and_cursors<T>(rows: Seq<T>, page_size: nat)
    requires
        page_size > 0,
        rows.len() <= page_size + 1,
    ensures
        rows.len() <= page_size ==> page_rows(rows, page_size) == rows && page_cursor(
            rows,
            page_size,
        ) is None,
        rows.len() == page_size + 1 ==> page_rows(rows, page_size) == rows.take(page_size as int)
            && page_cursor(rows, page_size) == Some(rows[page_size - 1]),
{
    if rows.len() == page_size + 1 {
        assert(page_rows(rows, page_size) =~= rows.take(page_size as int));
    }
}

/// A page of changes of a vault holds the changes of complete blocks only: all changes that were found of
/// the blocks up to its last block, each as its row has it. Without a row too many it holds all changes of
/// the range.
pub proof fn lemma_vault_pages_hold_complete_blocks(
    block_range: BlockRange,
    rows: Seq<AccountVaultUpdateRaw>,
    max_rows: nat,
    values: Seq<AccountVaultValue>,
    last_block: BlockNumber,
)
    requires
        is_by_block(rows),
        rows.len() <= max_rows + 1,
        collect_results(
            rows.take(complete_row_count(rows, max_rows) as int).map_values(
                |row: AccountVaultUpdateRaw| row.decoded(),
            ),
        ) == Ok::<Seq<AccountVaultValue>, DatabaseError>(values),
        last_block == last_complete_block(
            block_range,
            rows.len() > max_rows,
            values.map_values(|value: AccountVaultValue| value.block_num),
        ),
    ensures
        values.len() <= max_rows,
        forall|i: int|
            0 <= i < values.len() ==> {
                let value = #[trigger] values[i];
                &&& value.block_num.0 == rows[i].block_num
                &&& word_of_bytes(rows[i].vault_key@) == Some(value.vault_key)
                &&& rows[i].asset is None <==> value.asset is None
                &&& rows[i].asset matches Some(bytes) ==> value.asset == asset_of_bytes(bytes@)
            },
        rows.len() <= max_rows ==> values.len() == rows.len() && last_block == block_range.end,
        rows.len() > max_rows && values.len() > 0 ==> last_block.0 == rows[values.len()
            - 1].block_num && forall|i: int|
            0 <= i < rows.len() ==> (i < values.len() <==> (#[trigger] rows[i]).block_num
                <= last_block.0),
        rows.len() > max_rows && values.len() == 0 ==> last_block == block_range.start && forall|
            i: int,
        |
            0 <= i < rows.len() ==> (#[trigger] rows[i]).block_num == rows[0].block_num,
{
    let count = complete_row_count(rows, max_rows) as int;
    let kept = rows.take(count);
    let results = kept.map_values(|row: AccountVaultUpdateRaw| row.decoded());
    lemma_collect_values(results);
    if rows.len() > max_rows {
        lemma_pages_end_at_block_boundary(rows, max_rows);
    }
    assert forall|i: int| 0 <= i < values.len() implies {
        let value = #[trigger] values[i];
        &&& value.block_num.0 == rows[i].block_num
        &&& word_of_bytes(rows[i].vault_key@) == Some(value.vault_key)
        &&& rows[i].asset is None <==> value.asset is None
        &&& rows[i].asset matches Some(bytes) ==> value.asset == asset_of_bytes(bytes@)
    } by {
        assert(results[i] == Ok::<AccountVaultValue, DatabaseError>(values[i]));
        assert(kept[i] == rows[i]);
        lemma_rows_of_vault_changes(rows[i]);
    }
    if rows.len() > max_rows && values.len() > 0 {
        let last = values.len() - 1;
        assert(values[last].block_num.0 == rows[last].block_num);
        assert forall|i: int| 0 <= i < rows.len() implies (i < values.len() <==> (
        #[trigger] rows[i]).block_num <= last_block.0) by {
            if i < values.len() {
                assert(rows[i].raw_block() <= rows[last].raw_block());
            } else {
                assert(rows[i].raw_block() == rows.last().raw_block());
                assert(rows[last].raw_block() < rows.last().raw_block());
            }
        }
    }
    if rows.len() > max_rows && values.len() == 0 {
        assert forall|i: int| 0 <= i < rows.len() implies (#[trigger] rows[i]).block_num
            == rows[0].block_num by {
            assert(rows[i].raw_block() == rows.last().raw_block());
            assert(rows[0].raw_block() == rows.last().raw_block());
        }
    }
}

/// The last block of a page: the end of the range if nothing was left out, and the block of the last entry
/// otherwise. A page without entries makes no progress.
pub proof fn lemma_last_blocks_of_pages(
    block_range: BlockRange,
    truncated: bool,
    kept_blocks: Seq<BlockNumber>,
)
    ensures
        kept_blocks.len() == 0 ==> last_block_of_page(block_range, truncated, kept_blocks)
            == block_range.start,
        kept_blocks.len() > 0 && truncated ==> last_block_of_page(
            block_range,
            truncated,
            kept_blocks,
        ) == kept_blocks[kept_blocks.len() - 1],
        kept_blocks.len() > 0 && !truncated ==> last_block_of_page(
            block_range,
            truncated,
            kept_blocks,
        ) == block_range.end,
{
}

/// A page of changes of storage maps holds the changes of complete blocks only: all changes that were
/// found of the blocks up to its last block, each as its row has it. Without a row too many it holds all
/// changes that were found, and says the end of the range if there are any.
pub proof fn lemma_map_pages_hold_complete_blocks(
    account_id: AccountId,
    block_range: BlockRange,
    rows: Seq<StorageMapValueRow>,
    limit: nat,
    page: StorageMapValuesPage,
)
    requires
        is_by_block(rows),
        rows.len() <= limit + 1,
        is_storage_map_page(account_id, block_range, rows, limit, Ok(page)),
    ensures
        account_id.has_public_state(),
        block_range.start.0 <= block_range.end.0,
        page.values@.len() <= limit,
        forall|i: int|
            0 <= i < page.values@.len() ==> {
                let value = #[trigger] page.values@[i];
                &&& value.block_num.0 == rows[i].block_num
                &&& value.slot_name == rows[i].slot_name
                &&& word_of_bytes(rows[i].key@) == Some(value.key)
                &&& word_of_bytes(rows[i].value@) == Some(value.value)
            },
        page.values@.len() == 0 ==> page.last_block_included == block_range.start,
        rows.len() <= limit ==> page.values@.len() == rows.len(),
        0 < rows.len() <= limit ==> page.last_block_included == block_range.end,
        rows.len() > limit && page.values@.len() > 0 ==> page.last_block_included.0
            == rows[page.values@.len() - 1].block_num && forall|i: int|
            0 <= i < rows.len() ==> (i < page.values@.len() <==> (#[trigger] rows[i]).block_num
                <= page.last_block_included.0),
        rows.len() > limit && page.values@.len() == 0 ==> forall|i: int|
            0 <= i < rows.len() ==> (#[trigger] rows[i]).block_num == rows[0].block_num,
{
    let values = page.values@;
    let last_block = page.last_block_included;
    let count = complete_row_count(rows, limit) as int;
    let kept = rows.take(count);
    let results = kept.map_values(|row: StorageMapValueRow| StorageMapValue::of_row(row));
    lemma_range_queries(account_id, block_range);
    lemma_collect_values(results);
    if rows.len() > limit {
        lemma_pages_end_at_block_boundary(rows, limit);
    }
    assert forall|i: int| 0 <= i < values.len() implies {
        let value = #[trigger] values[i];
        &&& value.block_num.0 == rows[i].block_num
        &&& value.slot_name == rows[i].slot_name
        &&& word_of_bytes(rows[i].key@) == Some(value.key)
        &&& word_of_bytes(rows[i].value@) == Some(value.value)
    } by {
        assert(results[i] == Ok::<StorageMapValue, DatabaseError>(values[i]));
        assert(kept[i] == rows[i]);
        lemma_rows_of_map_changes(rows[i]);
    }
    if rows.len() > limit && values.len() > 0 {
        let last = values.len() - 1;
        assert(values[last].block_num.0 == rows[last].block_num);
        assert forall|i: int| 0 <= i < rows.len() implies (i < values.len() <==> (
        #[trigger] rows[i]).block_num <= last_block.0) by {
            if i < values.len() {
                assert(rows[i].raw_block() <= rows[last].raw_block());
            } else {
                assert(rows[i].raw_block() == rows.last().raw_block());
                assert(rows[last].raw_block() < rows.last().raw_block());
            }
        }
    }
    if rows.len() > limit && values.len() == 0 {
        assert forall|i: int| 0 <= i < rows.len() implies (#[trigger] rows[i]).block_num
            == rows[0].block_num by {
            assert(rows[i].raw_block() == rows.last().raw_block());
            assert(rows[0].raw_block() == rows.last().raw_block());
        }
    }
}

/// A page of the roots of public accounts holds those of the rows that were found, in their order, without
/// the row too many. It goes on after its last account if there is one.
pub proof fn lemma_pages_of_roots(
    rows: Seq<StateRootsRow>,
    page_size: nat,
    page: PublicAccountStateRootsPage,
)
    requires
        page_size > 0,
        rows.len() <= page_size + 1,
        is_state_roots_page(rows, page_size, Ok(page)),
    ensures
        rows.len() <= page_size ==> page.accounts@.len() == rows.len() && page.next_cursor is None,
        rows.len() == page_size + 1 ==> page.accounts@.len() == page_size && page.next_cursor
            == Some(page.accounts@[page_size - 1].account_id),
        forall|i: int|
            0 <= i < page.accounts@.len() ==> {
                let roots = #[trigger] page.accounts@[i];
                &&& account_id_of_bytes(rows[i].account_id@) == Some(roots.account_id)
                &&& rows[i].vault_root is Some && word_of_bytes(rows[i].vault_root->0@) == Some(
                    roots.vault_root,
                )
                &&& rows[i].storage_header is Some && storage_header_of_bytes(
                    rows[i].storage_header->0@,
                ) == Some(roots.storage_header@)
            },
{
    let results = rows.map_values(|row: StateRootsRow| row.decoded());
    let all = collect_results(results)->Ok_0;
    let views = page.accounts@.map_values(|roots: PublicAccountStateRoots| roots@);
    lemma_collect_values(results);
    lemma_pages_and_cursors(all, page_size);
    assert(collect_results(results) == Ok::<Seq<StateRootsView>, DatabaseError>(all));
    assert(all.len() == rows.len());
    assert(views == page_rows(all, page_size));
    assert(views.len() == page.accounts@.len());
    assert forall|i: int| 0 <= i < page.accounts@.len() implies rows[i].decoded() == Ok::<
        StateRootsView,
        DatabaseError,
    >((#[trigger] page.accounts@[i])@) by {
        assert(views[i] == page.accounts@[i]@);
        assert(views[i] == all[i]);
        assert(results[i] == Ok::<StateRootsView, DatabaseError>(all[i]));
    }
    assert forall|i: int| 0 <= i < page.accounts@.len() implies {
        let roots = #[trigger] page.accounts@[i];
        &&& account_id_of_bytes(rows[i].account_id@) == Some(roots.account_id)
        &&& rows[i].vault_root is Some && word_of_bytes(rows[i].vault_root->0@) == Some(
            roots.vault_root,
        )
        &&& rows[i].storage_header is Some && storage_header_of_bytes(rows[i].storage_header->0@)
            == Some(roots.storage_header@)
    } by {
        assert(rows[i].decoded() == Ok::<StateRootsView, DatabaseError>(page.accounts@[i]@));
        lemma_rows_of_roots(rows[i]);
    }
    if rows.len() == page_size + 1 {
        assert(views[page_size - 1] == all[page_size - 1]);
        assert(views[page_size - 1] == page.accounts@[page_size - 1]@);
    }
}

} // verus!
