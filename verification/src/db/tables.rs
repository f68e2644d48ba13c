//! The tables of accounts, and what writing the rows of an update does to them.

use vstd::prelude::*;

use crate::account_id::AccountId;
use crate::block_number::BlockNumber;
use crate::bytes::{copy_bytes, equal_bytes};
use crate::db::block_updates::{is_block_written, lemma_block_of_updates_is_written};
use crate::db::delta::{
    balance_query_keys, fungible_vault_key, AccountStateDeltaRow, MapEntryRow, VaultAssetRow,
};
use crate::db::history::{
    has_one_latest_row, lemma_write_keeps_history, row_after_write, rows_after_write,
    supersede_rows, HistoryRow, RowSubject,
};
use crate::db::stored::{is_latest_of, latest_rows};
use crate::db::updates::{
    changed_faucets, changed_slot_names, changed_slots, faucets_of_changes, is_account_update,
    AccountReads, AccountUpdateDetails, BlockAccountUpdate,
};
use crate::db::upsert::{
    column, is_written_update, upsert_account, AccountAssetRowInsert, AccountCodeRowInsert,
    AccountRowInsert, AccountStorageMapRowInsert, AccountWrites, WritesView,
};
use crate::errors::DatabaseError;
use crate::protocol::{
    account_id_bytes, account_id_to_bytes, is_fungible_faucet, word_bytes, word_to_bytes,
};
use crate::word::Word;

verus! {

// TABLES
// ================================================================================================

/// The rows of accounts, of their code, of the entries of their storage maps and of their assets.
#[derive(Clone, Debug, PartialEq, Eq)]
pub struct AccountTables {
    pub accounts: Vec<AccountRowInsert>,
    pub codes: Vec<AccountCodeRowInsert>,
    pub storage: Vec<AccountStorageMapRowInsert>,
    pub assets: Vec<AccountAssetRowInsert>,
}

impl HistoryRow for AccountRowInsert {
    open spec fn subject(&self) -> RowSubject {
        RowSubject { account_id: self.account_id@, slot_name: Seq::empty(), key: Seq::empty() }
    }

    open spec fn raw_block(&self) -> i64 {
        self.block_num
    }

    open spec fn latest(&self) -> bool {
        self.is_latest
    }

    open spec fn superseded(self) -> Self {
        AccountRowInsert { is_latest: false, ..self }
    }

    proof fn lemma_superseded(self) {
    }

    fn has_subject_of(&self, other: &Self) -> (r: bool) {
        equal_bytes(&self.account_id, &other.account_id)
    }

    fn raw_block_num(&self) -> (r: i64) {
        self.block_num
    }

    fn is_latest_row(&self) -> (r: bool) {
        self.is_latest
    }

    fn supersede(self) -> (r: Self) {
        AccountRowInsert { is_latest: false, ..self }
    }
}

impl AccountTables {
    /// Whether each table has at most one latest row of a subject, and at most one row of an account at
    /// a block.
    pub open spec fn is_consistent(self) -> bool {
        &&& has_one_latest_row(self.accounts@)
        &&& has_one_row_per_block(self.accounts@)
        &&& has_one_latest_row(self.storage@)
        &&& has_one_latest_row(self.assets@)
    }

    /// Creates the empty tables.
    pub fn new() -> (r: Self)
        ensures
            r.accounts@.len() == 0,
            r.codes@.len() == 0,
            r.storage@.len() == 0,
            r.assets@.len() == 0,
            r.is_consistent(),
    {
        AccountTables {
            accounts: Vec::new(),
            codes: Vec::new(),
            storage: Vec::new(),
            assets: Vec::new(),
        }
    }
}

// ROWS OF ACCOUNTS
// ================================================================================================

/// Whether two rows are of the same subject at the same block.
pub open spec fn is_same_version<R: HistoryRow>(a: R, b: R) -> bool {
    a.subject() == b.subject() && a.raw_block() == b.raw_block()
}

/// Whether no subject has two rows at the same block.
pub open spec fn has_one_row_per_block<R: HistoryRow>(rows: Seq<R>) -> bool {
    forall|i: int, j: int|
        0 <= i < j < rows.len() ==> !is_same_version(#[trigger] rows[i], #[trigger] rows[j])
}

/// The position of the first row of the same subject at the same block, or the number of rows.
pub open spec fn version_position<R: HistoryRow>(rows: Seq<R>, row: R) -> int
    decreases rows.len(),
{
    if rows.len() == 0 || is_same_version(rows[0], row) {
        0
    } else {
        1 + version_position(rows.drop_first(), row)
    }
}

/// The rows once a row was written that takes the place of one of the same block: the earlier rows of
/// its subject are no longer the latest.
pub open spec fn rows_after_upsert<R: HistoryRow>(rows: Seq<R>, row: R) -> Seq<R> {
    let earlier = rows.map_values(|earlier: R| row_after_write(earlier, row));
    let position = version_position(rows, row);
    if position < rows.len() {
        earlier.update(position, row)
    } else {
        earlier.push(row)
    }
}

proof fn lemma_version_position<R: HistoryRow>(rows: Seq<R>, row: R, position: int)
    requires
        0 <= position <= rows.len(),
        forall|i: int| 0 <= i < position ==> !is_same_version(#[trigger] rows[i], row),
        position < rows.len() ==> is_same_version(rows[position], row),
    ensures
        version_position(rows, row) == position,
    decreases position,
{
    if position > 0 {
        let rest = rows.drop_first();
        assert(!is_same_version(rows[0], row));
        assert forall|i: int| 0 <= i < position - 1 implies !is_same_version(
            #[trigger] rest[i],
            row,
        ) by {
            assert(rest[i] == rows[i + 1]);
        }
        lemma_version_position(rest, row, position - 1);
    }
}

/// No row before the position is of the same subject and block, but the row at the position is.
pub proof fn lemma_no_version_before<R: HistoryRow>(rows: Seq<R>, row: R)
    ensures
        0 <= version_position(rows, row) <= rows.len(),
        forall|i: int|
            0 <= i < version_position(rows, row) ==> !is_same_version(#[trigger] rows[i], row),
        version_position(rows, row) < rows.len() ==> is_same_version(
            rows[version_position(rows, row)],
            row,
        ),
    decreases rows.len(),
{
    if rows.len() > 0 && !is_same_version(rows[0], row) {
        let rest = rows.drop_first();
        lemma_no_version_before(rest, row);
        assert forall|i: int| 0 <= i < version_position(rows, row) implies !is_same_version(
            #[trigger] rows[i],
            row,
        ) by {
            if i > 0 {
                assert(rest[i - 1] == rows[i]);
            }
        }
    }
}

/// Writing a latest row of an account leaves one latest row of it, and one row at the block.
pub proof fn lemma_upsert_keeps_history<R: HistoryRow>(rows: Seq<R>, row: R)
    requires
        has_one_latest_row(rows),
        has_one_row_per_block(rows),
        row.latest(),
    ensures
        has_one_latest_row(rows_after_upsert(rows, row)),
        has_one_row_per_block(rows_after_upsert(rows, row)),
        rows_after_upsert(rows, row).contains(row),
{
    let after = rows_after_upsert(rows, row);
    let position = version_position(rows, row);
    lemma_no_version_before(rows, row);
    assert(after[position] == row);
    assert forall|i: int| 0 <= i < rows.len() && i != position implies {
        let changed = #[trigger] after[i];
        &&& changed.latest() ==> rows[i].latest() && rows[i].subject() != row.subject()
        &&& changed.subject() == rows[i].subject()
        &&& changed.raw_block() == rows[i].raw_block()
        &&& !is_same_version(changed, row)
    } by {
        rows[i].lemma_superseded();
        if i > position {
            assert(!is_same_version(rows[position], rows[i]));
        }
    }
    assert forall|i: int, j: int|
        0 <= i < j < after.len() && (#[trigger] after[i]).latest() && (
        #[trigger] after[j]).latest() implies after[i].subject() != after[j].subject() by {
        if i != position && j != position {
            assert(rows[i].subject() != rows[j].subject());
        }
    }
    assert forall|i: int, j: int| 0 <= i < j < after.len() implies !is_same_version(
        #[trigger] after[i],
        #[trigger] after[j],
    ) by {
        if i != position && j != position {
            assert(!is_same_version(rows[i], rows[j]));
        }
    }
}

/// Writes a row of an account as the latest of it, in the place of one of the same block.
pub fn upsert_account_row(rows: Vec<AccountRowInsert>, row: AccountRowInsert) -> (r: Vec<
    AccountRowInsert,
>)
    ensures
        r@ == rows_after_upsert(rows@, row),
{
    let ghost all = rows@;
    let total: usize = rows.len();
    let mut written: Vec<AccountRowInsert> = Vec::new();
    let mut position: Option<usize> = None;
    for earlier in it: rows
        invariant
            it.seq() == all,
            total == all.len(),
            written@ =~= all.take(it.index() as int).map_values(
                |earlier: AccountRowInsert| row_after_write(earlier, row),
            ),
            match position {
                None => forall|i: int|
                    0 <= i < it.index() ==> !is_same_version(#[trigger] all[i], row),
                Some(found) => {
                    &&& found < it.index()
                    &&& is_same_version(all[found as int], row)
                    &&& forall|i: int| 0 <= i < found ==> !is_same_version(#[trigger] all[i], row)
                },
            },
    {
        assert(earlier == all[it.index() as int]);
        let same_subject = earlier.has_subject_of(&row);
        if position.is_none() && same_subject && earlier.block_num == row.block_num {
            position = Some(written.len());
        }
        if same_subject && earlier.is_latest {
            written.push(earlier.supersede());
        } else {
            written.push(earlier);
        }
    }
    assert(all.take(total as int) =~= all);
    match position {
        Some(found) => {
            proof {
                lemma_version_position(all, row, found as int);
            }
            written.set(found, row);
        },
        None => {
            proof {
                lemma_version_position(all, row, all.len() as int);
            }
            written.push(row);
        },
    }
    written
}

// CODE
// ================================================================================================

/// Whether a row holds the code with a commitment.
pub open spec fn holds_code(rows: Seq<AccountCodeRowInsert>, code_commitment: Seq<u8>) -> bool {
    exists|i: int|
        0 <= i < rows.len() && (#[trigger] rows[i]).code_commitment@ == code_commitment
}

/// The rows of code once a row was written, unless one with its commitment is there already.
pub open spec fn codes_after_insert(
    rows: Seq<AccountCodeRowInsert>,
    row: AccountCodeRowInsert,
) -> Seq<AccountCodeRowInsert> {
    if holds_code(rows, row.code_commitment@) {
        rows
    } else {
        rows.push(row)
    }
}

fn find_code(rows: &Vec<AccountCodeRowInsert>, code_commitment: &Vec<u8>) -> (r: Option<usize>)
    ensures
        match r {
            None => !holds_code(rows@, code_commitment@),
            Some(found) => {
                &&& found < rows@.len()
                &&& rows@[found as int].code_commitment@ == code_commitment@
                &&& !holds_code(rows@.take(found as int), code_commitment@)
            },
        },
{
    let mut i: usize = 0;
    while i < rows.len()
        invariant
            i <= rows@.len(),
            forall|k: int|
                0 <= k < i ==> (#[trigger] rows@[k]).code_commitment@ != code_commitment@,
        decreases rows@.len() - i,
    {
        if equal_bytes(&rows[i].code_commitment, code_commitment) {
            return Some(i);
        }
        i = i + 1;
    }
    None
}

/// Writes a row of code unless one with its commitment is there already.
pub fn insert_account_code(
    rows: Vec<AccountCodeRowInsert>,
    row: AccountCodeRowInsert,
) -> (r: Vec<AccountCodeRowInsert>)
    ensures
        r@ == codes_after_insert(rows@, row),
{
    let mut rows = rows;
    if find_code(&rows, &row.code_commitment).is_none() {
        rows.push(row);
    }
    rows
}

/// Returns the code with a commitment, if there is one.
pub fn select_account_code_by_commitment(
    rows: &Vec<AccountCodeRowInsert>,
    code_commitment: Word,
) -> (r: Option<Vec<u8>>)
    ensures
        match r {
            None => !holds_code(rows@, word_bytes(code_commitment)),
            Some(code) => exists|i: int|
                {
                    &&& 0 <= i < rows@.len()
                    &&& (#[trigger] rows@[i]).code_commitment@ == word_bytes(code_commitment)
                    &&& !holds_code(rows@.take(i), word_bytes(code_commitment))
                    &&& code@ == rows@[i].code@
                },
        },
{
    match find_code(rows, &word_to_bytes(code_commitment)) {
        None => None,
        Some(found) => Some(copy_bytes(&rows[found].code)),
    }
}

/// Code that is written is found by its commitment, and so is all code that was there.
pub proof fn lemma_code_is_kept(
    rows: Seq<AccountCodeRowInsert>,
    row: AccountCodeRowInsert,
    code_commitment: Seq<u8>,
)
    ensures
        holds_code(codes_after_insert(rows, row), row.code_commitment@),
        holds_code(rows, code_commitment) ==> holds_code(
            codes_after_insert(rows, row),
            code_commitment,
        ),
        rows.is_prefix_of(codes_after_insert(rows, row)),
{
    let after = codes_after_insert(rows, row);
    if !holds_code(rows, row.code_commitment@) {
        assert(after[rows.len() as int] == row);
    }
    if holds_code(rows, code_commitment) {
        let i = choose|i: int|
            0 <= i < rows.len() && (#[trigger] rows[i]).code_commitment@ == code_commitment;
        assert(after[i] == rows[i]);
    }
}

// UPDATES
// ================================================================================================

/// The rows once others were written one after another.
pub open spec fn rows_after_writes<R: HistoryRow>(rows: Seq<R>, written: Seq<R>) -> Seq<R>
    decreases written.len(),
{
    if written.len() == 0 {
        rows
    } else {
        rows_after_write(rows_after_writes(rows, written.drop_last()), written.last())
    }
}

/// Writing latest rows leaves one latest row of each subject.
pub proof fn lemma_writes_keep_history<R: HistoryRow>(rows: Seq<R>, written: Seq<R>)
    requires
        has_one_latest_row(rows),
        forall|i: int| 0 <= i < written.len() ==> (#[trigger] written[i]).latest(),
    ensures
        has_one_latest_row(rows_after_writes(rows, written)),
    decreases written.len(),
{
    if written.len() > 0 {
        let before = written.drop_last();
        assert forall|i: int| 0 <= i < before.len() implies (#[trigger] before[i]).latest() by {
            assert(before[i] == written[i]);
        }
        lemma_writes_keep_history(rows, before);
        assert(written[written.len() - 1].latest());
        lemma_write_keeps_history(rows_after_writes(rows, before), written.last());
    }
}

fn write_rows<R: HistoryRow>(rows: Vec<R>, written: Vec<R>) -> (r: Vec<R>)
    ensures
        r@ == rows_after_writes(rows@, written@),
{
    let ghost start = rows@;
    let ghost all = written@;
    let total: usize = written.len();
    let mut rows = rows;
    assert(all.take(0) =~= Seq::empty());
    for row in it: written
        invariant
            it.seq() == all,
            total == all.len(),
            rows@ == rows_after_writes(start, all.take(it.index() as int)),
    {
        proof {
            let i = it.index() as int;
            assert(all.take(i + 1).drop_last() =~= all.take(i));
            assert(all.take(i + 1).last() == row);
        }
        let mut next = supersede_rows(rows, &row);
        next.push(row);
        rows = next;
    }
    assert(all.take(total as int) =~= all);
    rows
}

/// Whether tables are others once the rows of an update were written to them.
pub open spec fn are_written(
    tables: AccountTables,
    writes: AccountWrites,
    after: AccountTables,
) -> bool {
    &&& after.accounts@ == rows_after_upsert(tables.accounts@, writes.account)
    &&& after.codes@ == (match writes.code {
        None => tables.codes@,
        Some(row) => codes_after_insert(tables.codes@, row),
    })
    &&& after.storage@ == rows_after_writes(tables.storage@, writes.storage@)
    &&& after.assets@ == rows_after_writes(tables.assets@, writes.assets@)
}

/// Writes the rows of an update: its code if it is new, its row, and then its map entries and assets.
pub fn apply_account_writes(tables: AccountTables, writes: AccountWrites) -> (r: AccountTables)
    ensures
        are_written(tables, writes, r),
{
    let codes = match writes.code {
        None => tables.codes,
        Some(row) => insert_account_code(tables.codes, row),
    };
    let accounts = upsert_account_row(tables.accounts, writes.account);
    let storage = write_rows(tables.storage, writes.storage);
    let assets = write_rows(tables.assets, writes.assets);
    AccountTables { accounts, codes, storage, assets }
}

// READING
// ================================================================================================

/// Whether a row that a query returned has the columns of an asset row of the table.
pub open spec fn is_asset_columns(found: VaultAssetRow, row: AccountAssetRowInsert) -> bool {
    found.vault_key@ == row.vault_key@ && column(found.asset) == column(row.asset)
}

/// Whether a row that a query returned has the columns of a row of a storage map entry of the table.
pub open spec fn is_entry_columns(found: MapEntryRow, row: AccountStorageMapRowInsert) -> bool {
    found.slot_name@ == row.slot_name@ && found.key@ == row.key@ && found.value@ == row.value@
}

/// Whether a query returned exactly the asset rows of the table that are given.
pub open spec fn are_asset_columns(
    found: Seq<VaultAssetRow>,
    rows: Seq<AccountAssetRowInsert>,
) -> bool {
    found.len() == rows.len() && forall|i: int|
        0 <= i < rows.len() ==> is_asset_columns(found[i], #[trigger] rows[i])
}

/// Whether a query returned exactly the rows of storage map entries of the table that are given.
pub open spec fn are_entry_columns(
    found: Seq<MapEntryRow>,
    rows: Seq<AccountStorageMapRowInsert>,
) -> bool {
    found.len() == rows.len() && forall|i: int|
        0 <= i < rows.len() ==> is_entry_columns(found[i], #[trigger] rows[i])
}

/// The latest rows of an account's assets under the keys of faucets.
pub open spec fn balance_rows(
    rows: Seq<AccountAssetRowInsert>,
    account_id: Seq<u8>,
    faucet_ids: Seq<AccountId>,
) -> Seq<AccountAssetRowInsert> {
    latest_rows(rows, account_id).filter(
        |row: AccountAssetRowInsert| is_balance_key(row.vault_key@, faucet_ids),
    )
}

/// Whether bytes are the key of the fungible assets of one of the faucets.
pub open spec fn is_balance_key(key: Seq<u8>, faucet_ids: Seq<AccountId>) -> bool {
    exists|i: int|
        0 <= i < faucet_ids.len() && key == word_bytes(
            fungible_vault_key(#[trigger] faucet_ids[i]),
        )
}

/// The latest rows of an account's storage map entries in some slots.
pub open spec fn slot_rows(
    rows: Seq<AccountStorageMapRowInsert>,
    account_id: Seq<u8>,
    slot_names: Seq<Seq<char>>,
) -> Seq<AccountStorageMapRowInsert> {
    latest_rows(rows, account_id).filter(
        |row: AccountStorageMapRowInsert| slot_names.contains(row.slot_name@),
    )
}

/// The latest row of an account, if there is one.
pub open spec fn latest_account_row(
    rows: Seq<AccountRowInsert>,
    account_id: Seq<u8>,
) -> Option<AccountRowInsert> {
    let latest = latest_rows(rows, account_id);
    if latest.len() == 0 {
        None
    } else {
        Some(latest[0])
    }
}

/// Whether the columns are those of an account's latest row that a delta builds on.
pub open spec fn are_header_columns(
    headers: Option<AccountStateDeltaRow>,
    row: Option<AccountRowInsert>,
) -> bool {
    match row {
        None => headers is None,
        Some(row) => {
            &&& headers matches Some(found)
            &&& found.nonce == row.nonce
            &&& column(found.code_commitment) == column(row.code_commitment)
            &&& column(found.storage_header) == column(row.storage_header)
        },
    }
}

/// Whether reads are what the tables hold of the account of an update.
pub open spec fn are_reads_of(
    reads: AccountReads,
    tables: AccountTables,
    update: BlockAccountUpdate,
) -> bool {
    let id = account_id_bytes(update.account_id);
    let row = latest_account_row(tables.accounts@, id);
    &&& reads.created_at_block == (match row {
        None => None,
        Some(row) => Some(row.created_at_block),
    })
    &&& update.details matches AccountUpdateDetails::Delta(delta) ==> {
        &&& are_header_columns(reads.headers, row)
        &&& are_asset_columns(
            reads.balances@,
            balance_rows(tables.assets@, id, faucets_of_changes(delta.vault.fungible@)),
        )
        &&& are_entry_columns(
            reads.map_entries@,
            slot_rows(tables.storage@, id, changed_slots(delta.storage.maps@)),
        )
        &&& are_asset_columns(reads.assets@, latest_rows(tables.assets@, id))
    }
}

fn copy_column(bytes: &Option<Vec<u8>>) -> (r: Option<Vec<u8>>)
    ensures
        column(r) == column(*bytes),
{
    match bytes {
        None => None,
        Some(bytes) => Some(copy_bytes(bytes)),
    }
}

fn find_latest_account(rows: &Vec<AccountRowInsert>, account_id: &Vec<u8>) -> (r: Option<usize>)
    ensures
        match r {
            None => latest_account_row(rows@, account_id@) is None,
            Some(i) => i < rows@.len() && latest_account_row(rows@, account_id@) == Some(
                rows@[i as int],
            ),
        },
{
    let ghost wanted = |row: AccountRowInsert| is_latest_of(row, account_id@);
    let mut i: usize = 0;
    proof {
        reveal(Seq::filter);
        assert(rows@.take(0).filter(wanted) =~= Seq::empty());
    }
    while i < rows.len()
        invariant
            i <= rows@.len(),
            wanted == (|row: AccountRowInsert| is_latest_of(row, account_id@)),
            rows@.take(i as int).filter(wanted).len() == 0,
        decreases rows@.len() - i,
    {
        proof {
            reveal(Seq::filter);
            assert(rows@.take(i + 1).drop_last() =~= rows@.take(i as int));
            assert(rows@.take(i + 1).last() == rows@[i as int]);
        }
        if rows[i].is_latest && equal_bytes(&rows[i].account_id, account_id) {
            proof {
                assert(rows@.take(i + 1).filter(wanted)[0] == rows@[i as int]);
                lemma_filter_prefix(rows@, i + 1, wanted);
            }
            return Some(i);
        }
        i = i + 1;
    }
    assert(rows@.take(i as int) =~= rows@);
    None
}

proof fn lemma_filter_prefix<R>(rows: Seq<R>, count: int, wanted: spec_fn(R) -> bool)
    requires
        0 <= count <= rows.len(),
    ensures
        rows.take(count).filter(wanted).is_prefix_of(rows.filter(wanted)),
    decreases rows.len() - count,
{
    if count < rows.len() {
        reveal(Seq::filter);
        lemma_filter_prefix(rows, count + 1, wanted);
        assert(rows.take(count + 1).drop_last() =~= rows.take(count));
    } else {
        assert(rows.take(count) =~= rows);
    }
}

fn contains_balance_key(keys: &Vec<Word>, key: &Vec<u8>) -> (r: bool)
    ensures
        r == exists|i: int| 0 <= i < keys@.len() && key@ == word_bytes(#[trigger] keys@[i]),
{
    let mut i: usize = 0;
    while i < keys.len()
        invariant
            i <= keys@.len(),
            forall|k: int| 0 <= k < i ==> key@ != word_bytes(#[trigger] keys@[k]),
        decreases keys@.len() - i,
    {
        if equal_bytes(key, &word_to_bytes(keys[i])) {
            assert(key@ == word_bytes(keys@[i as int]));
            return true;
        }
        i = i + 1;
    }
    false
}

fn contains_name(names: &Vec<String>, name: &String) -> (r: bool)
    ensures
        r == names@.map_values(|n: String| n@).contains(name@),
{
    let ghost views = names@.map_values(|n: String| n@);
    let mut i: usize = 0;
    while i < names.len()
        invariant
            i <= names@.len(),
            views == names@.map_values(|n: String| n@),
            forall|k: int| 0 <= k < i ==> #[trigger] views[k] != name@,
        decreases names@.len() - i,
    {
        if names[i] == *name {
            assert(views[i as int] == name@);
            return true;
        }
        i = i + 1;
    }
    false
}

fn select_asset_rows(
    rows: &Vec<AccountAssetRowInsert>,
    account_id: &Vec<u8>,
) -> (r: Vec<VaultAssetRow>)
    ensures
        are_asset_columns(r@, latest_rows(rows@, account_id@)),
{
    let ghost wanted = |row: AccountAssetRowInsert| is_latest_of(row, account_id@);
    let mut found: Vec<VaultAssetRow> = Vec::new();
    let mut i: usize = 0;
    proof {
        reveal(Seq::filter);
        assert(rows@.take(0).filter(wanted) =~= Seq::empty());
    }
    while i < rows.len()
        invariant
            i <= rows@.len(),
            wanted == (|row: AccountAssetRowInsert| is_latest_of(row, account_id@)),
            are_asset_columns(found@, rows@.take(i as int).filter(wanted)),
        decreases rows@.len() - i,
    {
        proof {
            reveal(Seq::filter);
            assert(rows@.take(i + 1).drop_last() =~= rows@.take(i as int));
            assert(rows@.take(i + 1).last() == rows@[i as int]);
        }
        if rows[i].is_latest && equal_bytes(&rows[i].account_id, account_id) {
            found.push(
                VaultAssetRow {
                    vault_key: copy_bytes(&rows[i].vault_key),
                    asset: copy_column(&rows[i].asset),
                },
            );
        }
        i = i + 1;
    }
    assert(rows@.take(i as int) =~= rows@);
    found
}

fn select_balance_rows(
    rows: &Vec<AccountAssetRowInsert>,
    account_id: &Vec<u8>,
    keys: &Vec<Word>,
    Ghost(faucet_ids): Ghost<Seq<AccountId>>,
) -> (r: Vec<VaultAssetRow>)
    requires
        keys@ =~= faucet_ids.map_values(|faucet_id: AccountId| fungible_vault_key(faucet_id)),
    ensures
        are_asset_columns(r@, balance_rows(rows@, account_id@, faucet_ids)),
{
    let ghost wanted = |row: AccountAssetRowInsert| is_latest_of(row, account_id@);
    let ghost kept = |row: AccountAssetRowInsert| is_balance_key(row.vault_key@, faucet_ids);
    let mut found: Vec<VaultAssetRow> = Vec::new();
    let mut i: usize = 0;
    proof {
        reveal(Seq::filter);
        assert(rows@.take(0).filter(wanted) =~= Seq::empty());
        assert(rows@.take(0).filter(wanted).filter(kept) =~= Seq::empty());
    }
    while i < rows.len()
        invariant
            i <= rows@.len(),
            keys@ =~= faucet_ids.map_values(|faucet_id: AccountId| fungible_vault_key(faucet_id)),
            wanted == (|row: AccountAssetRowInsert| is_latest_of(row, account_id@)),
            kept == (|row: AccountAssetRowInsert| is_balance_key(row.vault_key@, faucet_ids)),
            are_asset_columns(found@, rows@.take(i as int).filter(wanted).filter(kept)),
        decreases rows@.len() - i,
    {
        proof {
            reveal(Seq::filter);
            let latest = rows@.take(i as int).filter(wanted);
            assert(rows@.take(i + 1).drop_last() =~= rows@.take(i as int));
            assert(rows@.take(i + 1).last() == rows@[i as int]);
            assert(latest.push(rows@[i as int]).drop_last() =~= latest);
            if exists|k: int|
                0 <= k < keys@.len() && rows@[i as int].vault_key@ == word_bytes(
                    #[trigger] keys@[k],
                ) {
                let k = choose|k: int|
                    0 <= k < keys@.len() && rows@[i as int].vault_key@ == word_bytes(
                        #[trigger] keys@[k],
                    );
                assert(keys@[k] == fungible_vault_key(faucet_ids[k]));
            }
            if is_balance_key(rows@[i as int].vault_key@, faucet_ids) {
                let k = choose|k: int|
                    0 <= k < faucet_ids.len() && rows@[i as int].vault_key@ == word_bytes(
                        fungible_vault_key(#[trigger] faucet_ids[k]),
                    );
                assert(keys@[k] == fungible_vault_key(faucet_ids[k]));
            }
        }
        if rows[i].is_latest && equal_bytes(&rows[i].account_id, account_id)
            && contains_balance_key(keys, &rows[i].vault_key) {
            found.push(
                VaultAssetRow {
                    vault_key: copy_bytes(&rows[i].vault_key),
                    asset: copy_column(&rows[i].asset),
                },
            );
        }
        i = i + 1;
    }
    assert(rows@.take(i as int) =~= rows@);
    found
}

fn select_slot_rows(
    rows: &Vec<AccountStorageMapRowInsert>,
    account_id: &Vec<u8>,
    slot_names: &Vec<String>,
) -> (r: Vec<MapEntryRow>)
    ensures
        are_entry_columns(
            r@,
            slot_rows(rows@, account_id@, slot_names@.map_values(|name: String| name@)),
        ),
{
    let ghost names = slot_names@.map_values(|name: String| name@);
    let ghost wanted = |row: AccountStorageMapRowInsert| is_latest_of(row, account_id@);
    let ghost kept = |row: AccountStorageMapRowInsert| names.contains(row.slot_name@);
    let mut found: Vec<MapEntryRow> = Vec::new();
    let mut i: usize = 0;
    proof {
        reveal(Seq::filter);
        assert(rows@.take(0).filter(wanted) =~= Seq::empty());
        assert(rows@.take(0).filter(wanted).filter(kept) =~= Seq::empty());
    }
    while i < rows.len()
        invariant
            i <= rows@.len(),
            names == slot_names@.map_values(|name: String| name@),
            wanted == (|row: AccountStorageMapRowInsert| is_latest_of(row, account_id@)),
            kept == (|row: AccountStorageMapRowInsert| names.contains(row.slot_name@)),
            are_entry_columns(found@, rows@.take(i as int).filter(wanted).filter(kept)),
        decreases rows@.len() - i,
    {
        proof {
            reveal(Seq::filter);
            let latest = rows@.take(i as int).filter(wanted);
            assert(rows@.take(i + 1).drop_last() =~= rows@.take(i as int));
            assert(rows@.take(i + 1).last() == rows@[i as int]);
            assert(latest.push(rows@[i as int]).drop_last() =~= latest);
        }
        if rows[i].is_latest && equal_bytes(&rows[i].account_id, account_id) && contains_name(
            slot_names,
            &rows[i].slot_name,
        ) {
            found.push(
                MapEntryRow {
                    slot_name: rows[i].slot_name.clone(),
                    key: copy_bytes(&rows[i].key),
                    value: copy_bytes(&rows[i].value),
                },
            );
        }
        i = i + 1;
    }
    assert(rows@.take(i as int) =~= rows@);
    found
}

/// Returns what the tables hold of the account of an update, as far as the update needs it.
pub fn select_account_reads(tables: &AccountTables, update: &BlockAccountUpdate) -> (r:
    AccountReads)
    requires
        is_account_update(*update),
    ensures
        are_reads_of(r, *tables, *update),
{
    let id = account_id_to_bytes(update.account_id);
    let (created_at_block, headers) = match find_latest_account(&tables.accounts, &id) {
        None => (None, None),
        Some(i) => (
            Some(tables.accounts[i].created_at_block),
            Some(
                AccountStateDeltaRow {
                    nonce: tables.accounts[i].nonce,
                    code_commitment: copy_column(&tables.accounts[i].code_commitment),
                    storage_header: copy_column(&tables.accounts[i].storage_header),
                },
            ),
        ),
    };
    match &update.details {
        AccountUpdateDetails::Delta(delta) => {
            let faucet_ids = changed_faucets(&delta.vault);
            let slot_names = changed_slot_names(&delta.storage);
            proof {
                assert forall|i: int| 0 <= i < faucet_ids@.len() implies is_fungible_faucet(
                    #[trigger] faucet_ids@[i],
                ) by {
                    assert(delta.vault.fungible@[i].0 == delta.vault.fungible@[i].0);
                }
            }
            let balances = match balance_query_keys(&faucet_ids) {
                Ok(keys) => select_balance_rows(
                    &tables.assets,
                    &id,
                    &keys,
                    Ghost(faucet_ids@),
                ),
                Err(_) => Vec::new(),
            };
            let map_entries = select_slot_rows(&tables.storage, &id, &slot_names);
            let assets = select_asset_rows(&tables.assets, &id);
            AccountReads { created_at_block, headers, balances, map_entries, assets }
        },
        _ => AccountReads {
            created_at_block,
            headers,
            balances: Vec::new(),
            map_entries: Vec::new(),
            assets: Vec::new(),
        },
    }
}

/// The columns of an account's latest rows that make up its whole state.
#[derive(Clone, Debug, PartialEq, Eq)]
pub struct AccountColumns {
    pub nonce: Option<i64>,
    /// The encoded code.
    pub code: Vec<u8>,
    pub storage_header: Option<Vec<u8>>,
    pub map_entries: Vec<MapEntryRow>,
    pub assets: Vec<VaultAssetRow>,
}

/// Whether the columns are those of the latest rows of an account, with the code that its row names.
pub open spec fn are_account_columns(
    columns: AccountColumns,
    tables: AccountTables,
    account_id: Seq<u8>,
) -> bool {
    &&& latest_account_row(tables.accounts@, account_id) matches Some(row)
    &&& columns.nonce == row.nonce
    &&& column(columns.storage_header) == column(row.storage_header)
    &&& exists|i: int|
        {
            &&& 0 <= i < tables.codes@.len()
            &&& column(row.code_commitment) == Some(
                (#[trigger] tables.codes@[i]).code_commitment@,
            )
            &&& columns.code@ == tables.codes@[i].code@
        }
    &&& are_entry_columns(columns.map_entries@, latest_rows(tables.storage@, account_id))
    &&& are_asset_columns(columns.assets@, latest_rows(tables.assets@, account_id))
}

fn select_entry_rows(
    rows: &Vec<AccountStorageMapRowInsert>,
    account_id: &Vec<u8>,
) -> (r: Vec<MapEntryRow>)
    ensures
        are_entry_columns(r@, latest_rows(rows@, account_id@)),
{
    let ghost wanted = |row: AccountStorageMapRowInsert| is_latest_of(row, account_id@);
    let mut found: Vec<MapEntryRow> = Vec::new();
    let mut i: usize = 0;
    proof {
        reveal(Seq::filter);
        assert(rows@.take(0).filter(wanted) =~= Seq::empty());
    }
    while i < rows.len()
        invariant
            i <= rows@.len(),
            wanted == (|row: AccountStorageMapRowInsert| is_latest_of(row, account_id@)),
            are_entry_columns(found@, rows@.take(i as int).filter(wanted)),
        decreases rows@.len() - i,
    {
        proof {
            reveal(Seq::filter);
            assert(rows@.take(i + 1).drop_last() =~= rows@.take(i as int));
            assert(rows@.take(i + 1).last() == rows@[i as int]);
        }
        if rows[i].is_latest && equal_bytes(&rows[i].account_id, account_id) {
            found.push(
                MapEntryRow {
                    slot_name: rows[i].slot_name.clone(),
                    key: copy_bytes(&rows[i].key),
                    value: copy_bytes(&rows[i].value),
                },
            );
        }
        i = i + 1;
    }
    assert(rows@.take(i as int) =~= rows@);
    found
}

/// Returns the columns that make up the whole state of an account, or `None` if the account has no
/// latest row or no code.
pub fn select_account_columns(tables: &AccountTables, account_id: AccountId) -> (r: Option<
    AccountColumns,
>)
    ensures
        match r {
            Some(columns) => are_account_columns(columns, *tables, account_id_bytes(account_id)),
            None => latest_account_row(tables.accounts@, account_id_bytes(account_id)) matches Some(
                row,
            ) ==> (row.code_commitment matches Some(code_commitment) ==> !holds_code(
                tables.codes@,
                code_commitment@,
            )),
        },
{
    let id = account_id_to_bytes(account_id);
    let position: usize = match find_latest_account(&tables.accounts, &id) {
        Some(position) => position,
        None => return None,
    };
    let row = &tables.accounts[position];
    let code_position: usize = match &row.code_commitment {
        None => return None,
        Some(code_commitment) => match find_code(&tables.codes, code_commitment) {
            Some(code_position) => code_position,
            None => return None,
        },
    };
    let columns = AccountColumns {
        nonce: row.nonce,
        code: copy_bytes(&tables.codes[code_position].code),
        storage_header: copy_column(&row.storage_header),
        map_entries: select_entry_rows(&tables.storage, &id),
        assets: select_asset_rows(&tables.assets, &id),
    };
    proof {
        let code_row = tables.codes@[code_position as int];
        assert(column(row.code_commitment) == Some(code_row.code_commitment@));
        assert(columns.code@ == code_row.code@);
    }
    Some(columns)
}

// UPSERT
// ================================================================================================

/// Whether an update leads from tables to others: it is computed from what they hold of its account,
/// and its rows are written.
pub open spec fn is_upserted(
    tables: AccountTables,
    update: BlockAccountUpdate,
    block_num: BlockNumber,
    after: AccountTables,
) -> bool {
    exists|reads: AccountReads, writes: AccountWrites|
        {
            &&& are_reads_of(reads, tables, update)
            &&& #[trigger] is_written_update(
                update,
                reads,
                block_num,
                Ok::<WritesView, DatabaseError>(writes@),
            )
            &&& are_written(tables, writes, after)
        }
}

/// Whether an update fails on tables with an error.
pub open spec fn is_refused(
    tables: AccountTables,
    update: BlockAccountUpdate,
    block_num: BlockNumber,
    error: DatabaseError,
) -> bool {
    exists|reads: AccountReads|
        {
            &&& are_reads_of(reads, tables, update)
            &&& #[trigger] is_written_update(
                update,
                reads,
                block_num,
                Err::<WritesView, DatabaseError>(error),
            )
        }
}

/// Whether the tables are those that updates lead through one after another.
pub open spec fn are_upserted(
    steps: Seq<AccountTables>,
    updates: Seq<BlockAccountUpdate>,
    block_num: BlockNumber,
) -> bool {
    &&& steps.len() == updates.len() + 1
    &&& forall|i: int|
        0 <= i < updates.len() ==> is_upserted(
            steps[i],
            #[trigger] updates[i],
            block_num,
            steps[i + 1],
        )
}

/// Applies the updates of a block to the tables one after another, and returns them with the number of
/// updates. Fails with the error of the first update that fails.
pub fn upsert_accounts(
    tables: AccountTables,
    updates: &Vec<BlockAccountUpdate>,
    block_num: BlockNumber,
) -> (r: Result<(AccountTables, usize), DatabaseError>)
    requires
        forall|i: int| 0 <= i < updates@.len() ==> is_account_update(#[trigger] updates@[i]),
    ensures
        match r {
            Ok((after, count)) => {
                &&& count == updates@.len()
                &&& exists|steps: Seq<AccountTables>|
                    {
                        &&& #[trigger] are_upserted(steps, updates@, block_num)
                        &&& steps[0] == tables
                        &&& steps.last() == after
                    }
                &&& tables.is_consistent() ==> is_block_written(tables, updates@, block_num, after)
            },
            Err(error) => exists|steps: Seq<AccountTables>, failed: int|
                {
                    &&& 0 <= failed < updates@.len()
                    &&& #[trigger] are_upserted(steps, updates@.take(failed), block_num)
                    &&& steps[0] == tables
                    &&& is_refused(steps.last(), updates@[failed], block_num, error)
                },
        },
{
    let mut current = tables;
    let ghost mut steps: Seq<AccountTables> = seq![tables];
    let mut i: usize = 0;
    while i < updates.len()
        invariant
            i <= updates@.len(),
            forall|k: int| 0 <= k < updates@.len() ==> is_account_update(#[trigger] updates@[k]),
            are_upserted(steps, updates@.take(i as int), block_num),
            steps[0] == tables,
            steps.last() == current,
        decreases updates@.len() - i,
    {
        let reads = select_account_reads(&current, &updates[i]);
        match upsert_account(&updates[i], &reads, block_num) {
            Ok(writes) => {
                let ghost before = current;
                current = apply_account_writes(current, writes);
                proof {
                    assert(is_upserted(before, updates@[i as int], block_num, current));
                    let next = steps.push(current);
                    let upto = updates@.take(i + 1);
                    assert forall|k: int| 0 <= k < upto.len() implies is_upserted(
                        next[k],
                        #[trigger] upto[k],
                        block_num,
                        next[k + 1],
                    ) by {
                        if k < i {
                            assert(updates@.take(i as int)[k] == upto[k]);
                        }
                    }
                    steps = next;
                }
            },
            Err(error) => {
                assert(is_refused(current, updates@[i as int], block_num, error));
                return Err(error);
            },
        }
        i = i + 1;
    }
    assert(updates@.take(i as int) =~= updates@);
    proof {
        if tables.is_consistent() {
            lemma_block_of_updates_is_written(steps, updates@, block_num);
        }
    }
    Ok((current, updates.len()))
}

} // verus!
