//! Tables that keep the history of values: each row holds the value of a subject as of a block, and
//! the row that was written last is marked as the latest of its subject.

use vstd::prelude::*;

use crate::account_id::AccountId;
use crate::block_number::BlockNumber;
use crate::bytes::equal_bytes;
use crate::db::delta::MapEntryView;
use crate::db::updates::{PendingAssetInsert, PendingStorageInsert};
use crate::db::upsert::{asset_row, storage_row, AccountAssetRowInsert, AccountStorageMapRowInsert};
use crate::protocol::is_asset;
use crate::state::account::Asset;
use crate::word::Word;

verus! {

// ROWS
// ================================================================================================

/// What a row of a table with history is about.
pub struct RowSubject {
    pub account_id: Seq<u8>,
    /// The slot of a storage map entry, empty for an asset.
    pub slot_name: Seq<char>,
    pub key: Seq<u8>,
}

/// A row of a table with history.
pub trait HistoryRow: Sized {
    /// What the row is about.
    spec fn subject(&self) -> RowSubject;

    /// The block at which the row was written.
    spec fn raw_block(&self) -> i64;

    /// Whether the row is the latest of its subject.
    spec fn latest(&self) -> bool;

    /// The row once it is no longer the latest.
    spec fn superseded(self) -> Self;

    /// A row that is no longer the latest is the same in all else.
    proof fn lemma_superseded(self)
        ensures
            !self.superseded().latest(),
            self.superseded().subject() == self.subject(),
            self.superseded().raw_block() == self.raw_block(),
    ;

    /// Returns whether two rows have the same subject.
    fn has_subject_of(&self, other: &Self) -> (r: bool)
        ensures
            r == (self.subject() == other.subject()),
    ;

    /// Returns the block at which the row was written.
    fn raw_block_num(&self) -> (r: i64)
        ensures
            r == self.raw_block(),
    ;

    /// Returns whether the row is the latest of its subject.
    fn is_latest_row(&self) -> (r: bool)
        ensures
            r == self.latest(),
    ;

    /// Returns the row once it is no longer the latest.
    fn supersede(self) -> (r: Self)
        ensures
            r == self.superseded(),
    ;
}

impl HistoryRow for AccountAssetRowInsert {
    open spec fn subject(&self) -> RowSubject {
        RowSubject {
            account_id: self.account_id@,
            slot_name: Seq::empty(),
            key: self.vault_key@,
        }
    }

    open spec fn raw_block(&self) -> i64 {
        self.block_num
    }

    open spec fn latest(&self) -> bool {
        self.is_latest
    }

    open spec fn superseded(self) -> Self {
        AccountAssetRowInsert { is_latest: false, ..self }
    }

    proof fn lemma_superseded(self) {
    }

    fn has_subject_of(&self, other: &Self) -> (r: bool) {
        equal_bytes(&self.account_id, &other.account_id) && equal_bytes(
            &self.vault_key,
            &other.vault_key,
        )
    }

    fn raw_block_num(&self) -> (r: i64) {
        self.block_num
    }

    fn is_latest_row(&self) -> (r: bool) {
        self.is_latest
    }

    fn supersede(self) -> (r: Self) {
        AccountAssetRowInsert { is_latest: false, ..self }
    }
}

impl HistoryRow for AccountStorageMapRowInsert {
    open spec fn subject(&self) -> RowSubject {
        RowSubject {
            account_id: self.account_id@,
            slot_name: self.slot_name@,
            key: self.key@,
        }
    }

    open spec fn raw_block(&self) -> i64 {
        self.block_num
    }

    open spec fn latest(&self) -> bool {
        self.is_latest
    }

    open spec fn superseded(self) -> Self {
        AccountStorageMapRowInsert { is_latest: false, ..self }
    }

    proof fn lemma_superseded(self) {
    }

    fn has_subject_of(&self, other: &Self) -> (r: bool) {
        equal_bytes(&self.account_id, &other.account_id) && self.slot_name == other.slot_name
            && equal_bytes(&self.key, &other.key)
    }

    fn raw_block_num(&self) -> (r: i64) {
        self.block_num
    }

    fn is_latest_row(&self) -> (r: bool) {
        self.is_latest
    }

    fn supersede(self) -> (r: Self) {
        AccountStorageMapRowInsert { is_latest: false, ..self }
    }
}

/// Whether no subject has two latest rows.
pub open spec fn has_one_latest_row<R: HistoryRow>(rows: Seq<R>) -> bool {
    forall|i: int, j: int|
        0 <= i < j < rows.len() && (#[trigger] rows[i]).latest() && (#[trigger] rows[j]).latest()
            ==> rows[i].subject() != rows[j].subject()
}

// WRITING
// ================================================================================================

/// Whether writing a row makes another one no longer the latest.
pub open spec fn supersedes<R: HistoryRow>(row: R, earlier: R) -> bool {
    earlier.latest() && earlier.subject() == row.subject()
}

/// An earlier row once a row was written.
pub open spec fn row_after_write<R: HistoryRow>(earlier: R, row: R) -> R {
    if supersedes(row, earlier) {
        earlier.superseded()
    } else {
        earlier
    }
}

/// The rows of a table once a row was written: the row is the last one, and the earlier rows of its
/// subject are no longer the latest.
pub open spec fn rows_after_write<R: HistoryRow>(rows: Seq<R>, row: R) -> Seq<R> {
    rows.map_values(|earlier: R| row_after_write(earlier, row)).push(row)
}

/// The number of rows that writing a row changes or adds.
pub open spec fn written_count<R: HistoryRow>(rows: Seq<R>, row: R) -> nat {
    rows.filter(|earlier: R| supersedes(row, earlier)).len() + 1
}

/// Marks the rows that a row supersedes as no longer the latest.
pub fn supersede_rows<R: HistoryRow>(rows: Vec<R>, row: &R) -> (r: Vec<R>)
    ensures
        r@ =~= rows@.map_values(|earlier: R| row_after_write(earlier, *row)),
{
    let ghost all = rows@;
    let total: usize = rows.len();
    let mut marked: Vec<R> = Vec::new();
    for earlier in it: rows
        invariant
            it.seq() == all,
            total == all.len(),
            marked@ =~= all.take(it.index() as int).map_values(
                |earlier: R| row_after_write(earlier, *row),
            ),
    {
        assert(earlier == all[it.index() as int]);
        if earlier.is_latest_row() && earlier.has_subject_of(row) {
            marked.push(earlier.supersede());
        } else {
            marked.push(earlier);
        }
    }
    assert(all.take(total as int) =~= all);
    marked
}

fn count_superseded<R: HistoryRow>(rows: &Vec<R>, row: &R) -> (r: usize)
    ensures
        r == rows@.filter(|earlier: R| supersedes(*row, earlier)).len(),
        r <= rows@.len(),
{
    let ghost changes = |earlier: R| supersedes(*row, earlier);
    let mut count: usize = 0;
    let mut i: usize = 0;
    proof {
        reveal(Seq::filter);
        assert(rows@.take(0).filter(changes) =~= Seq::empty());
    }
    while i < rows.len()
        invariant
            i <= rows@.len(),
            changes == (|earlier: R| supersedes(*row, earlier)),
            count == rows@.take(i as int).filter(changes).len(),
            count <= i,
        decreases rows@.len() - i,
    {
        proof {
            reveal(Seq::filter);
            assert(rows@.take(i + 1).drop_last() =~= rows@.take(i as int));
            assert(rows@.take(i + 1).last() == rows@[i as int]);
        }
        if rows[i].is_latest_row() && rows[i].has_subject_of(row) {
            count = count + 1;
        }
        i = i + 1;
    }
    assert(rows@.take(i as int) =~= rows@);
    count
}

/// Writes a row that is the latest of its subject, and returns the rows with the number of those that
/// were changed or added.
pub fn write_row<R: HistoryRow>(rows: Vec<R>, row: R) -> (r: (Vec<R>, usize))
    requires
        rows@.len() < usize::MAX,
    ensures
        r.0@ == rows_after_write(rows@, row),
        r.1 == written_count(rows@, row),
{
    let count: usize = count_superseded(&rows, &row);
    let mut written = supersede_rows(rows, &row);
    written.push(row);
    (written, count + 1)
}

/// Writes an asset of an account at a block, or its removal, as the latest under its vault key.
/// Returns the rows with the number of those that were changed or added.
pub fn insert_account_vault_asset(
    rows: Vec<AccountAssetRowInsert>,
    account_id: AccountId,
    block_num: BlockNumber,
    vault_key: Word,
    asset: Option<Asset>,
) -> (r: (Vec<AccountAssetRowInsert>, usize))
    requires
        rows@.len() < usize::MAX,
        asset matches Some(asset) ==> is_asset(asset),
    ensures
        r.0@.len() == rows@.len() + 1,
        r.0@.last()@ == asset_row(account_id, block_num, PendingAssetInsert { vault_key, asset }),
        r.0@ == rows_after_write(rows@, r.0@.last()),
        r.1 == written_count(rows@, r.0@.last()),
{
    let row = AccountAssetRowInsert::new(
        account_id,
        block_num,
        PendingAssetInsert { vault_key, asset },
    );
    write_row(rows, row)
}

/// Writes an entry of a storage map of an account at a block as the latest under its key. Returns
/// the rows with the number of those that were changed or added.
pub fn insert_account_storage_map_value(
    rows: Vec<AccountStorageMapRowInsert>,
    account_id: AccountId,
    block_num: BlockNumber,
    slot_name: String,
    key: Word,
    value: Word,
) -> (r: (Vec<AccountStorageMapRowInsert>, usize))
    requires
        rows@.len() < usize::MAX,
    ensures
        r.0@.len() == rows@.len() + 1,
        r.0@.last()@ == storage_row(
            account_id,
            block_num,
            MapEntryView { slot_name: slot_name@, key, value },
        ),
        r.0@ == rows_after_write(rows@, r.0@.last()),
        r.1 == written_count(rows@, r.0@.last()),
{
    let row = AccountStorageMapRowInsert::new(
        account_id,
        block_num,
        &PendingStorageInsert { slot_name, key, value },
    );
    write_row(rows, row)
}

/// Writing a latest row makes it the only latest one of its subject, and changes no row of another
/// subject and nothing but the mark of the earlier rows.
pub proof fn lemma_write_keeps_history<R: HistoryRow>(rows: Seq<R>, row: R)
    requires
        has_one_latest_row(rows),
        row.latest(),
    ensures
        has_one_latest_row(rows_after_write(rows, row)),
        rows_after_write(rows, row).len() == rows.len() + 1,
        rows_after_write(rows, row).last() == row,
        forall|i: int|
            0 <= i < rows.len() ==> {
                let after = #[trigger] rows_after_write(rows, row)[i];
                &&& rows[i].subject() != row.subject() ==> after == rows[i]
                &&& rows[i].subject() == row.subject() ==> !after.latest()
                &&& after == rows[i] || after == rows[i].superseded()
                &&& after.subject() == rows[i].subject()
                &&& after.raw_block() == rows[i].raw_block()
            },
{
    let after = rows_after_write(rows, row);
    assert forall|i: int| 0 <= i < rows.len() implies {
        let changed = #[trigger] after[i];
        &&& rows[i].subject() != row.subject() ==> changed == rows[i]
        &&& rows[i].subject() == row.subject() ==> !changed.latest()
        &&& changed == rows[i] || changed == rows[i].superseded()
        &&& changed.subject() == rows[i].subject()
        &&& changed.raw_block() == rows[i].raw_block()
    } by {
        rows[i].lemma_superseded();
    }
}

// PRUNING
// ================================================================================================

/// The number of blocks before the chain tip of which all rows are kept.
pub const HISTORICAL_BLOCK_RETENTION: u32 = 50;

/// The first block of which all rows are kept.
pub open spec fn cutoff_block(chain_tip: u32) -> int {
    if chain_tip >= HISTORICAL_BLOCK_RETENTION {
        chain_tip - HISTORICAL_BLOCK_RETENTION
    } else {
        0
    }
}

/// Whether pruning keeps a row.
pub open spec fn keeps_row(block: int, is_latest: bool, cutoff: int) -> bool {
    block >= cutoff || is_latest
}

/// The rows that pruning keeps, in order.
pub open spec fn kept_rows<R: HistoryRow>(rows: Seq<R>, cutoff: int) -> Seq<R> {
    rows.filter(|row: R| keeps_row(row.raw_block() as int, row.latest(), cutoff))
}

/// Pruning keeps the latest row of each subject and all rows from the cutoff on, leaves the rows that
/// it keeps as they are, and deletes nothing when it is repeated.
pub proof fn lemma_prune_keeps_latest<R: HistoryRow>(rows: Seq<R>, cutoff: int)
    ensures
        has_one_latest_row(rows) ==> has_one_latest_row(kept_rows(rows, cutoff)),
        forall|row: R| #[trigger]
            kept_rows(rows, cutoff).contains(row) <==> rows.contains(row) && keeps_row(
                row.raw_block() as int,
                row.latest(),
                cutoff,
            ),
        kept_rows(kept_rows(rows, cutoff), cutoff) == kept_rows(rows, cutoff),
    decreases rows.len(),
{
    reveal(Seq::filter);
    if rows.len() > 0 {
        let before = rows.drop_last();
        let kept = kept_rows(before, cutoff);
        let row = rows.last();
        lemma_prune_keeps_latest(before, cutoff);
        assert forall|other: R| #[trigger] kept_rows(rows, cutoff).contains(other)
            <==> rows.contains(other) && keeps_row(
            other.raw_block() as int,
            other.latest(),
            cutoff,
        ) by {
            lemma_contains_split(rows, other);
            if keeps_row(row.raw_block() as int, row.latest(), cutoff) {
                lemma_contains_split(kept.push(row), other);
                assert(kept.push(row).drop_last() =~= kept);
            }
            assert(kept.contains(other) <==> before.contains(other) && keeps_row(
                other.raw_block() as int,
                other.latest(),
                cutoff,
            ));
        }
        if keeps_row(row.raw_block() as int, row.latest(), cutoff) {
            assert(kept_rows(rows, cutoff) =~= kept.push(row));
            assert(kept.push(row).drop_last() =~= kept);
            if has_one_latest_row(rows) {
                assert(has_one_latest_row(before));
                assert forall|i: int| 0 <= i < kept.len() && (#[trigger] kept[i]).latest()
                    && row.latest() implies kept[i].subject() != row.subject() by {
                    assert(kept.contains(kept[i]));
                    let j = choose|j: int| 0 <= j < before.len() && before[j] == kept[i];
                    assert(rows[j] == kept[i]);
                    assert(rows[rows.len() - 1] == row);
                }
            }
        } else {
            assert(kept_rows(rows, cutoff) =~= kept);
            if has_one_latest_row(rows) {
                assert(has_one_latest_row(before));
            }
        }
    }
}

pub proof fn lemma_contains_split<R>(rows: Seq<R>, row: R)
    requires
        rows.len() > 0,
    ensures
        rows.contains(row) <==> rows.drop_last().contains(row) || row == rows.last(),
{
    if rows.contains(row) {
        let i = choose|i: int| 0 <= i < rows.len() && rows[i] == row;
        if i < rows.len() - 1 {
            assert(rows.drop_last()[i] == row);
        }
    }
    if rows.drop_last().contains(row) {
        let i = choose|i: int| 0 <= i < rows.drop_last().len() && rows.drop_last()[i] == row;
        assert(rows[i] == row);
    }
    assert(rows[rows.len() - 1] == rows.last());
}

/// Returns the first block of which all rows are kept, as it is stored.
pub fn history_cutoff(chain_tip: BlockNumber) -> (r: i64)
    ensures
        r == cutoff_block(chain_tip.0),
        chain_tip.0 >= 50 ==> r == chain_tip.0 - 50,
        chain_tip.0 < 50 ==> r == 0,
{
    chain_tip.0.saturating_sub(HISTORICAL_BLOCK_RETENTION) as i64
}

/// Deletes the rows before the cutoff that are not the latest, and returns the rest with the number
/// of deleted rows.
pub fn prune_rows<R: HistoryRow>(rows: Vec<R>, cutoff: i64) -> (r: (Vec<R>, usize))
    ensures
        r.0@ == kept_rows(rows@, cutoff as int),
        r.1 == rows@.len() - r.0@.len(),
{
    let ghost all = rows@;
    let ghost keeps = |row: R| keeps_row(row.raw_block() as int, row.latest(), cutoff as int);
    let mut kept: Vec<R> = Vec::new();
    let total: usize = rows.len();
    let mut deleted: usize = 0;
    proof {
        reveal(Seq::filter);
        assert(all.take(0).filter(keeps) =~= Seq::empty());
    }
    for row in it: rows
        invariant
            it.seq() == all,
            total == all.len(),
            keeps == (|row: R| keeps_row(row.raw_block() as int, row.latest(), cutoff as int)),
            kept@ == all.take(it.index() as int).filter(keeps),
            deleted == it.index() - kept@.len(),
            kept@.len() <= it.index(),
    {
        proof {
            let i = it.index() as int;
            reveal(Seq::filter);
            assert(all.take(i + 1).drop_last() =~= all.take(i));
            assert(all.take(i + 1).last() == row);
        }
        if row.raw_block_num() >= cutoff || row.is_latest_row() {
            kept.push(row);
        } else {
            deleted = deleted + 1;
        }
    }
    assert(all.take(total as int) =~= all);
    (kept, deleted)
}

/// A reference of an account row to its code.
#[derive(Clone, Debug, PartialEq, Eq)]
pub struct CodeReferenceRow {
    pub code_commitment: Option<Vec<u8>>,
    pub block_num: i64,
    pub is_latest: bool,
}

/// Whether a row that pruning would keep refers to the code.
pub open spec fn is_referenced(
    code_commitment: Seq<u8>,
    accounts: Seq<CodeReferenceRow>,
    cutoff: int,
) -> bool {
    exists|i: int|
        {
            &&& 0 <= i < accounts.len()
            &&& keeps_row((#[trigger] accounts[i]).block_num as int, accounts[i].is_latest, cutoff)
            &&& accounts[i].code_commitment matches Some(bytes) && bytes@ == code_commitment
        }
}

/// Returns whether a row of the retention window, or a latest row, refers to the code.
pub fn check_referenced(
    code_commitment: &Vec<u8>,
    accounts: &Vec<CodeReferenceRow>,
    cutoff: i64,
) -> (r: bool)
    ensures
        r == is_referenced(code_commitment@, accounts@, cutoff as int),
{
    let mut i: usize = 0;
    while i < accounts.len()
        invariant
            i <= accounts@.len(),
            !is_referenced(code_commitment@, accounts@.take(i as int), cutoff as int),
        decreases accounts@.len() - i,
    {
        let row = &accounts[i];
        if row.block_num >= cutoff || row.is_latest {
            if let Some(bytes) = &row.code_commitment {
                if equal_bytes(bytes, code_commitment) {
                    assert(accounts@[i as int].code_commitment is Some);
                    return true;
                }
            }
        }
        proof {
            let upto = accounts@.take(i + 1);
            if is_referenced(code_commitment@, upto, cutoff as int) {
                let k = choose|k: int|
                    {
                        &&& 0 <= k < upto.len()
                        &&& keeps_row(
                            (#[trigger] upto[k]).block_num as int,
                            upto[k].is_latest,
                            cutoff as int,
                        )
                        &&& upto[k].code_commitment matches Some(bytes) && bytes@
                            == code_commitment@
                    };
                if k < i {
                    assert(accounts@.take(i as int)[k] == upto[k]);
                }
            }
        }
        i = i + 1;
    }
    assert(accounts@.take(i as int) =~= accounts@);
    false
}

/// The codes that pruning keeps, in order.
pub open spec fn kept_codes(
    codes: Seq<Vec<u8>>,
    accounts: Seq<CodeReferenceRow>,
    cutoff: int,
) -> Seq<Vec<u8>> {
    codes.filter(|code: Vec<u8>| is_referenced(code@, accounts, cutoff))
}

/// Deletes the codes that no row of the retention window and no latest row refers to, and returns the
/// commitments of the rest with the number of deleted ones.
pub fn prune_account_codes(
    codes: Vec<Vec<u8>>,
    accounts: &Vec<CodeReferenceRow>,
    cutoff: i64,
) -> (r: (Vec<Vec<u8>>, usize))
    ensures
        r.0@ == kept_codes(codes@, accounts@, cutoff as int),
        r.1 == codes@.len() - r.0@.len(),
{
    let ghost all = codes@;
    let ghost keeps = |code: Vec<u8>| is_referenced(code@, accounts@, cutoff as int);
    let mut kept: Vec<Vec<u8>> = Vec::new();
    let total: usize = codes.len();
    let mut deleted: usize = 0;
    proof {
        reveal(Seq::filter);
        assert(all.take(0).filter(keeps) =~= Seq::empty());
    }
    for code in it: codes
        invariant
            it.seq() == all,
            total == all.len(),
            keeps == (|code: Vec<u8>| is_referenced(code@, accounts@, cutoff as int)),
            kept@ == all.take(it.index() as int).filter(keeps),
            deleted == it.index() - kept@.len(),
            kept@.len() <= it.index(),
    {
        proof {
            let i = it.index() as int;
            reveal(Seq::filter);
            assert(all.take(i + 1).drop_last() =~= all.take(i));
            assert(all.take(i + 1).last() == code);
        }
        if check_referenced(&code, accounts, cutoff) {
            kept.push(code);
        } else {
            deleted = deleted + 1;
        }
    }
    assert(all.take(total as int) =~= all);
    (kept, deleted)
}

/// The rows of the tables that pruning goes through.
#[derive(Clone, Debug, PartialEq, Eq)]
pub struct HistoryTables {
    pub vault_assets: Vec<AccountAssetRowInsert>,
    pub storage_map_values: Vec<AccountStorageMapRowInsert>,
    pub code_commitments: Vec<Vec<u8>>,
    pub accounts: Vec<CodeReferenceRow>,
}

/// Deletes what lies before the retention window: assets and map entries that are not the latest,
/// and codes that are no longer referred to. Returns the remaining rows, and how many assets, map
/// entries and codes were deleted.
pub fn prune_history(tables: HistoryTables, chain_tip: BlockNumber) -> (r: (
    HistoryTables,
    (usize, usize, usize),
))
    ensures
        ({
            let cutoff = cutoff_block(chain_tip.0);
            &&& r.0.vault_assets@ == kept_rows(tables.vault_assets@, cutoff)
            &&& r.0.storage_map_values@ == kept_rows(tables.storage_map_values@, cutoff)
            &&& r.0.code_commitments@ == kept_codes(
                tables.code_commitments@,
                tables.accounts@,
                cutoff,
            )
            &&& r.0.accounts == tables.accounts
            &&& r.1.0 == tables.vault_assets@.len() - r.0.vault_assets@.len()
            &&& r.1.1 == tables.storage_map_values@.len() - r.0.storage_map_values@.len()
            &&& r.1.2 == tables.code_commitments@.len() - r.0.code_commitments@.len()
        }),
        forall|row: AccountAssetRowInsert| #[trigger]
            r.0.vault_assets@.contains(row) <==> tables.vault_assets@.contains(row) && (
            row.is_latest || (row.block_num >= 0 && row.block_num >= chain_tip.0 - 50)),
        forall|row: AccountStorageMapRowInsert| #[trigger]
            r.0.storage_map_values@.contains(row) <==> tables.storage_map_values@.contains(row) && (
            row.is_latest || (row.block_num >= 0 && row.block_num >= chain_tip.0 - 50)),
{
    let cutoff: i64 = history_cutoff(chain_tip);
    let (vault_assets, vault_deleted) = prune_rows(tables.vault_assets, cutoff);
    let (storage_map_values, storage_deleted) = prune_rows(tables.storage_map_values, cutoff);
    let accounts = tables.accounts;
    let (code_commitments, codes_deleted) = prune_account_codes(
        tables.code_commitments,
        &accounts,
        cutoff,
    );
    proof {
        lemma_prune_keeps_latest(tables.vault_assets@, cutoff as int);
        lemma_prune_keeps_latest(tables.storage_map_values@, cutoff as int);
    }
    (
        HistoryTables { vault_assets, storage_map_values, code_commitments, accounts },
        (vault_deleted, storage_deleted, codes_deleted),
    )
}

} // verus!
