//! Queries of account rows: what the rows mean, and which of them a response holds.

use vstd::prelude::*;

use crate::account_id::AccountId;
use crate::block_number::{BlockNumber, BlockRange};
use crate::db::conv::{
    block_number_from_raw_sql, block_number_of_raw, collect_results, lemma_collect_prefix_error,
    lemma_collect_step, lemma_collect_values,
};
use crate::db::pages::{
    complete_row_count, count_complete_rows, is_ascending, is_by_block, joined_pages,
    lemma_block_pages_continue, lemma_blocks_split, lemma_pages_are_complete,
    lemma_pages_continue, page_cursor, page_rows, query_after, query_blocks, rows_after,
    rows_of_blocks, trim_page, BlockRow,
};
use crate::errors::{DataCorruption, DatabaseError};
use crate::protocol::{
    account_id_from_bytes, account_id_of_bytes, asset_from_bytes, asset_of_bytes, check_slot_name,
    check_vault_key, is_slot_name, is_vault_key, storage_header_from_bytes, storage_header_of_bytes,
    word_from_bytes, word_of_bytes,
};
use crate::state::account::{AccountStorageHeader, Asset};
use crate::word::Word;

verus! {

// DECODING
// ================================================================================================

/// The word that stored bytes stand for.
pub open spec fn word_column(bytes: Seq<u8>) -> Result<Word, DatabaseError> {
    match word_of_bytes(bytes) {
        Some(word) => Ok(word),
        None => Err(DatabaseError::DeserializationError),
    }
}

/// Decodes a stored word.
pub fn read_word(bytes: &Vec<u8>) -> (r: Result<Word, DatabaseError>)
    ensures
        r == word_column(bytes@),
        r matches Ok(word) ==> word.is_canonical(),
{
    match word_from_bytes(bytes) {
        Some(word) => Ok(word),
        None => Err(DatabaseError::DeserializationError),
    }
}

/// The account identifier that stored bytes stand for.
pub open spec fn account_id_column(bytes: Seq<u8>) -> Result<AccountId, DatabaseError> {
    match account_id_of_bytes(bytes) {
        Some(id) => Ok(id),
        None => Err(DatabaseError::DeserializationError),
    }
}

/// Decodes a stored account identifier.
pub fn read_account_id(bytes: &Vec<u8>) -> (r: Result<AccountId, DatabaseError>)
    ensures
        r == account_id_column(bytes@),
{
    match account_id_from_bytes(bytes) {
        Some(id) => Ok(id),
        None => Err(DatabaseError::DeserializationError),
    }
}

/// The asset that stored bytes stand for.
pub open spec fn asset_column(bytes: Seq<u8>) -> Result<Asset, DatabaseError> {
    match asset_of_bytes(bytes) {
        Some(asset) => Ok(asset),
        None => Err(DatabaseError::DeserializationError),
    }
}

/// Decodes a stored asset.
pub fn read_asset(bytes: &Vec<u8>) -> (r: Result<Asset, DatabaseError>)
    ensures
        r == asset_column(bytes@),
        r matches Ok(asset) ==> crate::protocol::is_asset(asset),
{
    match asset_from_bytes(bytes) {
        Some(asset) => Ok(asset),
        None => Err(DatabaseError::DeserializationError),
    }
}

// ACCOUNT SUMMARIES
// ================================================================================================

/// The commitment to an account's state, and the block that last changed it.
#[derive(Clone, Copy, Debug, PartialEq, Eq, Structural)]
pub struct AccountSummary {
    pub account_id: AccountId,
    pub account_commitment: Word,
    pub block_num: BlockNumber,
}

/// A row of an account summary.
#[derive(Clone, Debug, PartialEq, Eq)]
pub struct AccountSummaryRaw {
    pub account_id: Vec<u8>,
    pub account_commitment: Vec<u8>,
    pub block_num: i64,
}

impl AccountSummaryRaw {
    /// The summary that the row stands for.
    pub open spec fn decoded(self) -> Result<AccountSummary, DatabaseError> {
        match account_id_column(self.account_id@) {
            Err(error) => Err(error),
            Ok(account_id) => match word_column(self.account_commitment@) {
                Err(error) => Err(error),
                Ok(account_commitment) => match block_number_of_raw(self.block_num) {
                    Err(error) => Err(error),
                    Ok(block_num) => Ok(
                        AccountSummary { account_id, account_commitment, block_num },
                    ),
                },
            },
        }
    }

    /// Decodes the row.
    pub fn try_into_summary(self) -> (r: Result<AccountSummary, DatabaseError>)
        ensures
            r == self.decoded(),
    {
        let account_id = read_account_id(&self.account_id)?;
        let account_commitment = read_word(&self.account_commitment)?;
        let block_num = block_number_from_raw_sql(self.block_num)?;
        Ok(AccountSummary { account_id, account_commitment, block_num })
    }
}

// PAGES OF ACCOUNTS
// ================================================================================================

/// A page of account commitments.
#[derive(Clone, Debug, PartialEq, Eq)]
pub struct AccountCommitmentsPage {
    pub commitments: Vec<(AccountId, Word)>,
    /// The identifier after which the next page starts, if more rows follow.
    pub next_cursor: Option<AccountId>,
}

/// A page of identifiers of public accounts.
#[derive(Clone, Debug, PartialEq, Eq)]
pub struct PublicAccountIdsPage {
    pub account_ids: Vec<AccountId>,
    /// The identifier after which the next page starts, if more rows follow.
    pub next_cursor: Option<AccountId>,
}

/// The roots of a public account's latest state.
#[derive(Clone, Debug, PartialEq, Eq)]
pub struct PublicAccountStateRoots {
    pub account_id: AccountId,
    pub vault_root: Word,
    pub storage_header: AccountStorageHeader,
}

/// A page of the roots of public accounts.
#[derive(Clone, Debug, PartialEq, Eq)]
pub struct PublicAccountStateRootsPage {
    pub accounts: Vec<PublicAccountStateRoots>,
    /// The identifier after which the next page starts, if more rows follow.
    pub next_cursor: Option<AccountId>,
}

/// The commitment that a row of an identifier and a commitment stands for.
pub open spec fn commitment_row(row: (Vec<u8>, Vec<u8>)) -> Result<(AccountId, Word), DatabaseError> {
    match account_id_column(row.0@) {
        Err(error) => Err(error),
        Ok(account_id) => match word_column(row.1@) {
            Err(error) => Err(error),
            Ok(commitment) => Ok((account_id, commitment)),
        },
    }
}

/// Makes a page of up to `page_size` account commitments from the rows that follow a cursor in the
/// order of the identifiers, queried with one row more than the page holds.
pub fn select_account_commitments_paged(
    rows: Vec<(Vec<u8>, Vec<u8>)>,
    page_size: usize,
) -> (r: Result<AccountCommitmentsPage, DatabaseError>)
    ensures
        match collect_results(rows@.map_values(|row: (Vec<u8>, Vec<u8>)| commitment_row(row))) {
            Err(error) => r == Err::<AccountCommitmentsPage, DatabaseError>(error),
            Ok(commitments) => {
                &&& r matches Ok(page)
                &&& page.commitments@ == page_rows(commitments, page_size as nat)
                &&& page.next_cursor == (match page_cursor(commitments, page_size as nat) {
                    Some((account_id, _)) => Some(account_id),
                    None => None,
                })
            },
        },
{
    let ghost results = rows@.map_values(|row: (Vec<u8>, Vec<u8>)| commitment_row(row));
    let mut commitments: Vec<(AccountId, Word)> = Vec::new();
    let mut i: usize = 0;
    while i < rows.len()
        invariant
            i <= rows@.len(),
            results == rows@.map_values(|row: (Vec<u8>, Vec<u8>)| commitment_row(row)),
            collect_results(results.take(i as int)) == Ok::<Seq<(AccountId, Word)>, DatabaseError>(
                commitments@,
            ),
        decreases rows@.len() - i,
    {
        proof {
            lemma_collect_step(results, i as int);
            if commitment_row(rows@[i as int]) is Err {
                lemma_collect_prefix_error(results, i + 1);
            }
        }
        let account_id = read_account_id(&rows[i].0)?;
        let commitment = read_word(&rows[i].1)?;
        commitments.push((account_id, commitment));
        i = i + 1;
    }
    assert(results.take(i as int) =~= results);
    let ghost all = commitments@;
    let more = trim_page(&mut commitments, page_size);
    let next_cursor: Option<AccountId> = if more && commitments.len() > 0 {
        Some(commitments[commitments.len() - 1].0)
    } else {
        None
    };
    Ok(AccountCommitmentsPage { commitments, next_cursor })
}

/// Makes a page of up to `page_size` identifiers of public accounts from the rows that follow a
/// cursor in the order of the identifiers, queried with one row more than the page holds.
pub fn select_public_account_ids_paged(rows: Vec<Vec<u8>>, page_size: usize) -> (r: Result<
    PublicAccountIdsPage,
    DatabaseError,
>)
    ensures
        match collect_results(rows@.map_values(|row: Vec<u8>| account_id_column(row@))) {
            Err(error) => r == Err::<PublicAccountIdsPage, DatabaseError>(error),
            Ok(account_ids) => {
                &&& r matches Ok(page)
                &&& page.account_ids@ == page_rows(account_ids, page_size as nat)
                &&& page.next_cursor == page_cursor(account_ids, page_size as nat)
            },
        },
{
    let ghost results = rows@.map_values(|row: Vec<u8>| account_id_column(row@));
    let mut account_ids: Vec<AccountId> = Vec::new();
    let mut i: usize = 0;
    while i < rows.len()
        invariant
            i <= rows@.len(),
            results == rows@.map_values(|row: Vec<u8>| account_id_column(row@)),
            collect_results(results.take(i as int)) == Ok::<Seq<AccountId>, DatabaseError>(
                account_ids@,
            ),
        decreases rows@.len() - i,
    {
        proof {
            lemma_collect_step(results, i as int);
            if account_id_column(rows@[i as int]@) is Err {
                lemma_collect_prefix_error(results, i + 1);
            }
        }
        let account_id = read_account_id(&rows[i])?;
        account_ids.push(account_id);
        i = i + 1;
    }
    assert(results.take(i as int) =~= results);
    let more = trim_page(&mut account_ids, page_size);
    let next_cursor: Option<AccountId> = if more && account_ids.len() > 0 {
        Some(account_ids[account_ids.len() - 1])
    } else {
        None
    };
    Ok(PublicAccountIdsPage { account_ids, next_cursor })
}

/// A row of the roots of a public account.
#[derive(Clone, Debug, PartialEq, Eq)]
pub struct StateRootsRow {
    pub account_id: Vec<u8>,
    pub vault_root: Option<Vec<u8>>,
    pub storage_header: Option<Vec<u8>>,
}

/// What the roots of an account are, with the slots of the storage header.
pub struct StateRootsView {
    pub account_id: AccountId,
    pub vault_root: Word,
    pub storage_header: Seq<crate::state::account::SlotHeaderView>,
}

impl View for PublicAccountStateRoots {
    type V = StateRootsView;

    open spec fn view(&self) -> StateRootsView {
        StateRootsView {
            account_id: self.account_id,
            vault_root: self.vault_root,
            storage_header: self.storage_header@,
        }
    }
}

impl StateRootsRow {
    /// The roots that the row stands for.
    pub open spec fn decoded(self) -> Result<StateRootsView, DatabaseError> {
        match account_id_column(self.account_id@) {
            Err(error) => Err(error),
            Ok(account_id) => match self.vault_root {
                None => Err(
                    DatabaseError::DataCorrupted(DataCorruption::MissingVaultRoot(account_id)),
                ),
                Some(vault_root) => match self.storage_header {
                    None => Err(
                        DatabaseError::DataCorrupted(
                            DataCorruption::MissingStorageHeader(account_id),
                        ),
                    ),
                    Some(storage_header) => match word_column(vault_root@) {
                        Err(error) => Err(error),
                        Ok(vault_root) => match storage_header_of_bytes(storage_header@) {
                            None => Err(DatabaseError::DeserializationError),
                            Some(storage_header) => Ok(
                                StateRootsView { account_id, vault_root, storage_header },
                            ),
                        },
                    },
                },
            },
        }
    }

    /// Decodes the row.
    pub fn decode(&self) -> (r: Result<PublicAccountStateRoots, DatabaseError>)
        ensures
            match self.decoded() {
                Err(error) => r == Err::<PublicAccountStateRoots, DatabaseError>(error),
                Ok(roots) => r matches Ok(decoded) && decoded@ == roots,
            },
    {
        let account_id = read_account_id(&self.account_id)?;
        let vault_root_bytes = match &self.vault_root {
            Some(bytes) => bytes,
            None => return Err(
                DatabaseError::DataCorrupted(DataCorruption::MissingVaultRoot(account_id)),
            ),
        };
        let storage_header_bytes = match &self.storage_header {
            Some(bytes) => bytes,
            None => return Err(
                DatabaseError::DataCorrupted(DataCorruption::MissingStorageHeader(account_id)),
            ),
        };
        let vault_root = read_word(vault_root_bytes)?;
        match storage_header_from_bytes(storage_header_bytes) {
            Some(storage_header) => Ok(
                PublicAccountStateRoots { account_id, vault_root, storage_header },
            ),
            None => Err(DatabaseError::DeserializationError),
        }
    }
}

/// Whether a result is the page of up to `page_size` roots among rows that were queried with one row more
/// than the page holds: a failure if one of the rows cannot be decoded.
pub open spec fn is_state_roots_page(
    rows: Seq<StateRootsRow>,
    page_size: nat,
    result: Result<PublicAccountStateRootsPage, DatabaseError>,
) -> bool {
    match collect_results(rows.map_values(|row: StateRootsRow| row.decoded())) {
        Err(error) => result == Err::<PublicAccountStateRootsPage, DatabaseError>(error),
        Ok(accounts) => {
            &&& result matches Ok(page)
            &&& page.accounts@.map_values(|roots: PublicAccountStateRoots| roots@) == page_rows(
                accounts,
                page_size,
            )
            &&& page.next_cursor == (match page_cursor(accounts, page_size) {
                Some(roots) => Some(roots.account_id),
                None => None,
            })
        },
    }
}

/// Makes a page of up to `page_size` roots of public accounts from the rows that follow a cursor in
/// the order of the identifiers, queried with one row more than the page holds.
pub fn select_public_account_state_roots_paged(
    rows: Vec<StateRootsRow>,
    page_size: usize,
) -> (r: Result<PublicAccountStateRootsPage, DatabaseError>)
    ensures
        is_state_roots_page(rows@, page_size as nat, r),
{
    let ghost results = rows@.map_values(|row: StateRootsRow| row.decoded());
    let ghost mut views: Seq<StateRootsView> = Seq::empty();
    let mut accounts: Vec<PublicAccountStateRoots> = Vec::new();
    let mut i: usize = 0;
    while i < rows.len()
        invariant
            i <= rows@.len(),
            results == rows@.map_values(|row: StateRootsRow| row.decoded()),
            collect_results(results.take(i as int)) == Ok::<Seq<StateRootsView>, DatabaseError>(
                views,
            ),
            views =~= accounts@.map_values(|roots: PublicAccountStateRoots| roots@),
        decreases rows@.len() - i,
    {
        proof {
            lemma_collect_step(results, i as int);
            if rows@[i as int].decoded() is Err {
                lemma_collect_prefix_error(results, i + 1);
            }
        }
        let roots = rows[i].decode()?;
        proof {
            views = views.push(roots@);
        }
        accounts.push(roots);
        i = i + 1;
    }
    assert(results.take(i as int) =~= results);
    let more = trim_page(&mut accounts, page_size);
    let next_cursor: Option<AccountId> = if more && accounts.len() > 0 {
        Some(accounts[accounts.len() - 1].account_id)
    } else {
        None
    };
    assert(accounts@.map_values(|roots: PublicAccountStateRoots| roots@) =~= page_rows(
        views,
        page_size as nat,
    ));
    Ok(PublicAccountStateRootsPage { accounts, next_cursor })
}

/// Pages of roots are complete: read one after the other until there is no cursor, they hold the
/// roots of all public accounts, each one once, in the order of the identifiers. A page holds at
/// most `page_size` roots, and has a cursor if and only if roots are left after it.
pub proof fn lemma_state_root_pages_are_complete(
    accounts: Seq<StateRootsView>,
    order: spec_fn(AccountId) -> int,
    after: Option<AccountId>,
    page_size: nat,
)
    requires
        is_ascending(accounts, |roots: StateRootsView| order(roots.account_id)),
        page_size > 0,
        after matches Some(id) ==> exists|i: int|
            0 <= i < accounts.len() && (#[trigger] accounts[i]).account_id == id,
    ensures
        ({
            let key = |roots: StateRootsView| order(roots.account_id);
            let cursor = match after {
                Some(id) => Some(order(id)),
                None => None,
            };
            let found = query_after(accounts, key, cursor, page_size + 1);
            let rest = rows_after(accounts, key, cursor);
            &&& joined_pages(accounts, key, None, page_size) == accounts
            &&& joined_pages(accounts, key, cursor, page_size) == rest
            &&& page_rows(found, page_size).len() <= page_size
            &&& page_cursor(found, page_size) is Some <==> page_rows(found, page_size).len()
                < rest.len()
        }),
{
    let key = |roots: StateRootsView| order(roots.account_id);
    let cursor = match after {
        Some(id) => Some(order(id)),
        None => None,
    };
    if let Some(id) = after {
        let i = choose|i: int|
            0 <= i < accounts.len() && (#[trigger] accounts[i]).account_id == id;
        assert(key(accounts[i]) == order(id));
    }
    lemma_pages_continue(accounts, key, cursor, page_size);
    lemma_pages_are_complete(accounts, key, None, page_size);
    lemma_pages_are_complete(accounts, key, cursor, page_size);
}

// ROWS BY BLOCK RANGE
// ================================================================================================

/// A change of an account's vault: the asset under a key from a block on, or its removal.
#[derive(Clone, Copy, Debug, PartialEq, Eq, Structural)]
pub struct AccountVaultValue {
    pub block_num: BlockNumber,
    pub vault_key: Word,
    pub asset: Option<Asset>,
}

/// A row of a change of an account's vault.
#[derive(Clone, Debug, PartialEq, Eq)]
pub struct AccountVaultUpdateRaw {
    pub vault_key: Vec<u8>,
    pub asset: Option<Vec<u8>>,
    pub block_num: i64,
}

impl BlockRow for AccountVaultUpdateRaw {
    open spec fn raw_block(&self) -> i64 {
        self.block_num
    }

    fn raw_block_num(&self) -> (r: i64) {
        self.block_num
    }
}

impl AccountVaultUpdateRaw {
    /// The change that the row stands for.
    pub open spec fn decoded(self) -> Result<AccountVaultValue, DatabaseError> {
        match word_column(self.vault_key@) {
            Err(error) => Err(error),
            Ok(vault_key) => if !is_vault_key(vault_key) {
                Err(DatabaseError::AssetError)
            } else {
                match self.decoded_asset() {
                    Err(error) => Err(error),
                    Ok(asset) => match block_number_of_raw(self.block_num) {
                        Err(error) => Err(error),
                        Ok(block_num) => Ok(AccountVaultValue { block_num, vault_key, asset }),
                    },
                }
            },
        }
    }

    /// The asset of the row, if it holds one.
    pub open spec fn decoded_asset(self) -> Result<Option<Asset>, DatabaseError> {
        match self.asset {
            None => Ok(None),
            Some(bytes) => match asset_column(bytes@) {
                Err(error) => Err(error),
                Ok(asset) => Ok(Some(asset)),
            },
        }
    }

    /// Decodes the row.
    pub fn decode(&self) -> (r: Result<AccountVaultValue, DatabaseError>)
        ensures
            r == self.decoded(),
    {
        let vault_key = read_word(&self.vault_key)?;
        if !check_vault_key(vault_key) {
            return Err(DatabaseError::AssetError);
        }
        let asset: Option<Asset> = match &self.asset {
            None => None,
            Some(bytes) => Some(read_asset(bytes)?),
        };
        let block_num = block_number_from_raw_sql(self.block_num)?;
        Ok(AccountVaultValue { block_num, vault_key, asset })
    }
}

/// A storage map entry from a block on.
#[derive(Clone, Debug, PartialEq, Eq)]
pub struct StorageMapValue {
    pub block_num: BlockNumber,
    pub slot_name: String,
    pub key: Word,
    pub value: Word,
}

/// A row of a storage map entry.
#[derive(Clone, Debug, PartialEq, Eq)]
pub struct StorageMapValueRow {
    pub block_num: i64,
    pub slot_name: String,
    pub key: Vec<u8>,
    pub value: Vec<u8>,
}

impl BlockRow for StorageMapValueRow {
    open spec fn raw_block(&self) -> i64 {
        self.block_num
    }

    fn raw_block_num(&self) -> (r: i64) {
        self.block_num
    }
}

/// A page of storage map entries.
#[derive(Clone, Debug, PartialEq, Eq)]
pub struct StorageMapValuesPage {
    /// The last block of which the page holds all entries, or the first block of the range if the
    /// page is empty.
    pub last_block_included: BlockNumber,
    pub values: Vec<StorageMapValue>,
}

impl StorageMapValue {
    /// The entry that a row stands for.
    pub open spec fn of_row(row: StorageMapValueRow) -> Result<StorageMapValue, DatabaseError> {
        match block_number_of_raw(row.block_num) {
            Err(error) => Err(error),
            Ok(block_num) => if !is_slot_name(row.slot_name@) {
                Err(
                    DatabaseError::DataCorrupted(DataCorruption::InvalidSlotName(row.slot_name)),
                )
            } else {
                match word_column(row.key@) {
                    Err(error) => Err(error),
                    Ok(key) => match word_column(row.value@) {
                        Err(error) => Err(error),
                        Ok(value) => Ok(
                            StorageMapValue { block_num, slot_name: row.slot_name, key, value },
                        ),
                    },
                }
            },
        }
    }

    /// Decodes a row.
    pub fn from_raw_row(row: &StorageMapValueRow) -> (r: Result<StorageMapValue, DatabaseError>)
        ensures
            r == StorageMapValue::of_row(*row),
    {
        let block_num = block_number_from_raw_sql(row.block_num)?;
        if !check_slot_name(row.slot_name.as_str()) {
            return Err(
                DatabaseError::DataCorrupted(
                    DataCorruption::InvalidSlotName(row.slot_name.clone()),
                ),
            );
        }
        let key = read_word(&row.key)?;
        let value = read_word(&row.value)?;
        Ok(StorageMapValue { block_num, slot_name: row.slot_name.clone(), key, value })
    }
}

/// The error with which a range query of an account is refused before any row is read, if it is.
pub open spec fn range_query_error(account_id: AccountId, block_range: BlockRange) -> Option<
    DatabaseError,
> {
    if !account_id.has_public_state() {
        Some(DatabaseError::AccountNotPublic(account_id))
    } else if block_range.is_empty() {
        Some(DatabaseError::InvalidBlockRange { from: block_range.start, to: block_range.end })
    } else {
        None
    }
}

/// Checks a range query of an account before any row is read.
pub fn check_range_query(account_id: AccountId, block_range: BlockRange) -> (r: Result<
    (),
    DatabaseError,
>)
    ensures
        r == (match range_query_error(account_id, block_range) {
            Some(error) => Err::<(), DatabaseError>(error),
            None => Ok(()),
        }),
{
    if !account_id.has_public_state() {
        return Err(DatabaseError::AccountNotPublic(account_id));
    }
    if block_range.is_empty() {
        return Err(
            DatabaseError::InvalidBlockRange { from: block_range.start, to: block_range.end },
        );
    }
    Ok(())
}

/// The last block of which a page holds all rows, given the blocks of the rows it keeps: the end of
/// the range if no row was left out, and the block of the last kept row otherwise. If no row is
/// kept it is the start of the range: no progress was made.
pub open spec fn last_complete_block(
    block_range: BlockRange,
    truncated: bool,
    kept_blocks: Seq<BlockNumber>,
) -> BlockNumber {
    if !truncated {
        block_range.end
    } else if kept_blocks.len() > 0 {
        kept_blocks.last()
    } else {
        block_range.start
    }
}

/// The last block of a page of storage map entries, given the blocks of the entries it keeps: that
/// of which it holds all entries, or the start of the range if it holds none.
pub open spec fn last_block_of_page(
    block_range: BlockRange,
    truncated: bool,
    kept_blocks: Seq<BlockNumber>,
) -> BlockNumber {
    if kept_blocks.len() == 0 {
        block_range.start
    } else {
        last_complete_block(block_range, truncated, kept_blocks)
    }
}

/// Makes the response to a query of an account's vault changes within a block range from the rows
/// in the order of their blocks, queried with one row more than `max_rows`.
pub fn select_account_vault_assets(
    account_id: AccountId,
    block_range: BlockRange,
    rows: Vec<AccountVaultUpdateRaw>,
    max_rows: usize,
) -> (r: Result<(BlockNumber, Vec<AccountVaultValue>), DatabaseError>)
    ensures
        match range_query_error(account_id, block_range) {
            Some(error) => r == Err::<(BlockNumber, Vec<AccountVaultValue>), DatabaseError>(error),
            None => {
                let kept = rows@.take(complete_row_count(rows@, max_rows as nat) as int);
                match collect_results(kept.map_values(|row: AccountVaultUpdateRaw| row.decoded())) {
                    Err(error) => r == Err::<
                        (BlockNumber, Vec<AccountVaultValue>),
                        DatabaseError,
                    >(error),
                    Ok(values) => {
                        &&& r matches Ok((last_block_included, found))
                        &&& found@ == values
                        &&& last_block_included == last_complete_block(
                            block_range,
                            rows@.len() > max_rows,
                            values.map_values(|value: AccountVaultValue| value.block_num),
                        )
                    },
                }
            },
        },
{
    check_range_query(account_id, block_range)?;
    let count: usize = count_complete_rows(&rows, max_rows);
    let ghost kept = rows@.take(count as int);
    let ghost results = kept.map_values(|row: AccountVaultUpdateRaw| row.decoded());
    let mut values: Vec<AccountVaultValue> = Vec::new();
    let mut i: usize = 0;
    while i < count
        invariant
            i <= count <= rows@.len(),
            kept == rows@.take(count as int),
            results == kept.map_values(|row: AccountVaultUpdateRaw| row.decoded()),
            collect_results(results.take(i as int)) == Ok::<Seq<AccountVaultValue>, DatabaseError>(
                values@,
            ),
            range_query_error(account_id, block_range) is None,
            count == complete_row_count(rows@, max_rows as nat),
        decreases count - i,
    {
        proof {
            lemma_collect_step(results, i as int);
            if rows@[i as int].decoded() is Err {
                lemma_collect_prefix_error(results, i + 1);
            }
        }
        let value = rows[i].decode()?;
        values.push(value);
        i = i + 1;
    }
    assert(results.take(i as int) =~= results);
    let last_block_included: BlockNumber = if rows.len() > max_rows {
        if values.len() > 0 {
            values[values.len() - 1].block_num
        } else {
            block_range.start
        }
    } else {
        block_range.end
    };
    Ok((last_block_included, values))
}

/// Whether a result is the page of up to `limit` storage map entries of an account within a block range,
/// among rows that were queried with one row more: all rows of complete blocks, and the last block that
/// they are complete up to.
pub open spec fn is_storage_map_page(
    account_id: AccountId,
    block_range: BlockRange,
    rows: Seq<StorageMapValueRow>,
    limit: nat,
    result: Result<StorageMapValuesPage, DatabaseError>,
) -> bool {
    match range_query_error(account_id, block_range) {
        Some(error) => result == Err::<StorageMapValuesPage, DatabaseError>(error),
        None => {
            let kept = rows.take(complete_row_count(rows, limit) as int);
            match collect_results(
                kept.map_values(|row: StorageMapValueRow| StorageMapValue::of_row(row)),
            ) {
                Err(error) => result == Err::<StorageMapValuesPage, DatabaseError>(error),
                Ok(values) => {
                    &&& result matches Ok(page)
                    &&& page.values@ == values
                    &&& page.last_block_included == last_block_of_page(
                        block_range,
                        rows.len() > limit,
                        values.map_values(|value: StorageMapValue| value.block_num),
                    )
                },
            }
        },
    }
}

/// Makes the response to a query of an account's storage map entries within a block range from the
/// rows in the order of their blocks, queried with one row more than `limit`.
pub fn select_account_storage_map_values_paged(
    account_id: AccountId,
    block_range: BlockRange,
    rows: Vec<StorageMapValueRow>,
    limit: usize,
) -> (r: Result<StorageMapValuesPage, DatabaseError>)
    ensures
        is_storage_map_page(account_id, block_range, rows@, limit as nat, r),
{
    check_range_query(account_id, block_range)?;
    let count: usize = count_complete_rows(&rows, limit);
    let ghost kept = rows@.take(count as int);
    let ghost results = kept.map_values(|row: StorageMapValueRow| StorageMapValue::of_row(row));
    let mut values: Vec<StorageMapValue> = Vec::new();
    let mut i: usize = 0;
    while i < count
        invariant
            i <= count <= rows@.len(),
            kept == rows@.take(count as int),
            results == kept.map_values(|row: StorageMapValueRow| StorageMapValue::of_row(row)),
            collect_results(results.take(i as int)) == Ok::<Seq<StorageMapValue>, DatabaseError>(
                values@,
            ),
            range_query_error(account_id, block_range) is None,
            count == complete_row_count(rows@, limit as nat),
        decreases count - i,
    {
        proof {
            lemma_collect_step(results, i as int);
            if StorageMapValue::of_row(rows@[i as int]) is Err {
                lemma_collect_prefix_error(results, i + 1);
            }
        }
        let value = StorageMapValue::from_raw_row(&rows[i])?;
        values.push(value);
        i = i + 1;
    }
    assert(results.take(i as int) =~= results);
    let last_block_included: BlockNumber = if values.len() == 0 {
        block_range.start
    } else if rows.len() > limit {
        values[values.len() - 1].block_num
    } else {
        block_range.end
    };
    Ok(StorageMapValuesPage { last_block_included, values })
}

/// Pages of storage map entries continue each other: of an account's rows in the order of their
/// blocks, a page of a range holds at most `limit`, all those of the blocks up to its last block, and
/// followed by the rows of the blocks after that it makes up all rows of the range.
///
/// A page that is empty although the range has rows makes no progress: its first block alone has
/// more rows than the limit.
pub proof fn lemma_storage_map_pages_continue(
    rows: Seq<StorageMapValueRow>,
    block_range: BlockRange,
    limit: nat,
    values: Seq<StorageMapValue>,
)
    requires
        is_by_block(rows),
        !block_range.is_empty(),
        ({
            let found = query_blocks(
                rows,
                block_range.start.0 as int,
                block_range.end.0 as int,
                limit + 1,
            );
            let kept = found.take(complete_row_count(found, limit) as int);
            &&& found.len() > limit ==> kept.len() > 0
            &&& collect_results(
                kept.map_values(|row: StorageMapValueRow| StorageMapValue::of_row(row)),
            ) == Ok::<Seq<StorageMapValue>, DatabaseError>(values)
        }),
    ensures
        ({
            let (start, end) = (block_range.start.0 as int, block_range.end.0 as int);
            let found = query_blocks(rows, start, end, limit + 1);
            let kept = found.take(complete_row_count(found, limit) as int);
            let last = last_block_of_page(
                block_range,
                found.len() > limit,
                values.map_values(|value: StorageMapValue| value.block_num),
            ).0 as int;
            &&& values.len() == kept.len() <= limit
            &&& is_by_block(kept)
            &&& start <= last <= end
            &&& kept == rows_of_blocks(rows, start, last)
            &&& rows_of_blocks(rows, start, end) == kept + rows_of_blocks(rows, last + 1, end)
        }),
{
    let (start, end) = (block_range.start.0 as int, block_range.end.0 as int);
    let found = query_blocks(rows, start, end, limit + 1);
    let kept = found.take(complete_row_count(found, limit) as int);
    let results = kept.map_values(|row: StorageMapValueRow| StorageMapValue::of_row(row));
    lemma_collect_values(results);
    lemma_block_pages_continue(rows, start, end, limit);
    if kept.len() > 0 {
        assert(results[kept.len() - 1] == StorageMapValue::of_row(kept.last()));
        let blocks = values.map_values(|value: StorageMapValue| value.block_num);
        assert(blocks.last() == values.last().block_num);
    } else {
        lemma_blocks_split(rows, start, start, end);
        assert(kept =~= rows_of_blocks(rows, start, start));
    }
}

// NETWORK ACCOUNTS
// ================================================================================================

/// Whether an account is a network account.
#[derive(Clone, Copy, Debug, PartialEq, Eq, Structural)]
pub enum NetworkAccountType {
    /// Not a network account.
    NotNetwork,
    /// A network account.
    Network,
}

/// A row of a network account: its identifier and the block that created it.
#[derive(Clone, Debug, PartialEq, Eq)]
pub struct NetworkAccountRow {
    pub account_id: Vec<u8>,
    pub created_at_block: i64,
}

impl BlockRow for NetworkAccountRow {
    open spec fn raw_block(&self) -> i64 {
        self.created_at_block
    }

    fn raw_block_num(&self) -> (r: i64) {
        self.created_at_block
    }
}

/// The block before a stored block, as it is stored.
pub open spec fn raw_block_before(raw: i64) -> i64 {
    if raw == i64::MIN {
        raw
    } else {
        (raw - 1) as i64
    }
}

/// Whether a result is the page of up to `max_rows` network accounts that were created within a block
/// range, among rows that were queried with one row more: the accounts of complete blocks, and the last
/// block that was included.
pub open spec fn is_network_page(
    result: Result<(Vec<AccountId>, BlockNumber), DatabaseError>,
    block_range: BlockRange,
    rows: Seq<NetworkAccountRow>,
    max_rows: nat,
) -> bool {
    let kept = rows.take(complete_row_count(rows, max_rows) as int);
    let last_block = if rows.len() > max_rows {
        block_number_of_raw(raw_block_before(rows.last().created_at_block))
    } else {
        Ok(block_range.end)
    };
    if block_range.is_empty() {
        result == Err::<(Vec<AccountId>, BlockNumber), DatabaseError>(
            DatabaseError::InvalidBlockRange { from: block_range.start, to: block_range.end },
        )
    } else {
        match collect_results(
            kept.map_values(|row: NetworkAccountRow| account_id_column(row.account_id@)),
        ) {
            Err(error) => result == Err::<(Vec<AccountId>, BlockNumber), DatabaseError>(error),
            Ok(account_ids) => match last_block {
                Err(error) => result == Err::<(Vec<AccountId>, BlockNumber), DatabaseError>(error),
                Ok(block_num) => {
                    &&& result matches Ok((found, last_block_included))
                    &&& found@ == account_ids
                    &&& last_block_included == block_num
                },
            },
        }
    }
}

/// Makes the response to a query of the network accounts that were created within a block range
/// from the rows in the order of their creation, queried with one row more than `max_rows`.
///
/// If there are more than `max_rows`, the result ends before the block of the last row, which may
/// be there only in part, and the last block that was included is the one before it.
pub fn select_all_network_account_ids(
    block_range: BlockRange,
    rows: Vec<NetworkAccountRow>,
    max_rows: usize,
) -> (r: Result<(Vec<AccountId>, BlockNumber), DatabaseError>)
    ensures
        is_network_page(r, block_range, rows@, max_rows as nat),
{
    if block_range.is_empty() {
        return Err(
            DatabaseError::InvalidBlockRange { from: block_range.start, to: block_range.end },
        );
    }
    let count: usize = count_complete_rows(&rows, max_rows);
    let ghost kept = rows@.take(count as int);
    let ghost results = kept.map_values(
        |row: NetworkAccountRow| account_id_column(row.account_id@),
    );
    let mut account_ids: Vec<AccountId> = Vec::new();
    let mut i: usize = 0;
    while i < count
        invariant
            i <= count <= rows@.len(),
            kept == rows@.take(count as int),
            results == kept.map_values(
                |row: NetworkAccountRow| account_id_column(row.account_id@),
            ),
            collect_results(results.take(i as int)) == Ok::<Seq<AccountId>, DatabaseError>(
                account_ids@,
            ),
            !block_range.is_empty(),
            count == complete_row_count(rows@, max_rows as nat),
        decreases count - i,
    {
        proof {
            lemma_collect_step(results, i as int);
            if account_id_column(rows@[i as int].account_id@) is Err {
                lemma_collect_prefix_error(results, i + 1);
            }
        }
        let account_id = read_account_id(&rows[i].account_id)?;
        account_ids.push(account_id);
        i = i + 1;
    }
    assert(results.take(i as int) =~= results);
    if rows.len() > max_rows {
        let last_created_at: i64 = rows[rows.len() - 1].created_at_block;
        let raw: i64 = if last_created_at == i64::MIN {
            last_created_at
        } else {
            last_created_at - 1
        };
        let last_block_included = block_number_from_raw_sql(raw)?;
        Ok((account_ids, last_block_included))
    } else {
        Ok((account_ids, block_range.end))
    }
}

} // verus!
