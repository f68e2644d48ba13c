//! Accounts are read from the tables as blocks left them: what `upsert_accounts` wrote,
//! `read_full_account` returns.

use vstd::prelude::*;

use crate::account_code::code_commitment_of_bytes;
use crate::account_id::AccountId;
use crate::block_number::BlockNumber;
use crate::db::consistency::{
    are_account_tables, is_delta_of, is_stored, lemma_changed_account_is_stored,
    lemma_new_account_is_stored, lemma_stored_account_is_read,
};
use crate::db::delta::{
    assets_of_rows, contents_after_delta, contents_after_fungible, contents_after_non_fungible,
    delta_fits, fungible_fits, non_fungible_fits, slots_after, VaultDelta,
};
use crate::db::entries::{lemma_pairs_by_key, pairs_by_key};
use crate::db::full_account::{
    full_state_of_rows, full_state_view, is_account_of_state, select_full_account, slot_of_header,
    FullAccountRow, StorageSlotView,
};
use crate::db::read_back::{
    are_latest_columns, header_of_slot, header_of_state, lemma_changed_account_is_read,
    lemma_new_account_is_read, lemma_stored_account_has_its_header,
};
use crate::db::stored::{latest_rows, stored_maps};
use crate::db::stored_assets::{row_assets, stored_vault};
use crate::db::tables::{
    are_account_columns, are_reads_of, are_upserted, are_written, holds_code, is_upserted,
    latest_account_row, select_account_columns, AccountColumns, AccountTables,
};
use crate::db::updates::{
    is_account_update, nonce_after, slot_header, AccountDelta, AccountReads, AccountUpdateDetails,
    BlockAccountUpdate, FullAccountState, PartialStateView, StorageSlot,
};
use crate::db::upsert::{
    column, is_written_update, is_written_with_root, AccountCodeRowInsert, AccountWrites, WritesView,
};
use crate::errors::DatabaseError;
use crate::protocol::{
    account_commitment_of, account_id_bytes, are_distinct_assets, are_vault_assets, asset_keys,
    asset_pairs, lemma_word_round_trip, storage_commitment_of, word_bytes,
};
use crate::smt_forest::{has_room, leaf_len, lemma_fits_leaves, MAX_SMT_LEAF_ENTRIES};
use crate::state::account::Asset;
use crate::word::{Word, FIELD_ORDER};

verus! {

// READING
// ================================================================================================

/// Whether a result is the account that the tables hold: the state of its latest rows, or a failure
/// if it has no latest row or no code.
pub open spec fn is_read_account(
    tables: AccountTables,
    account_id: AccountId,
    result: Result<FullAccountState, DatabaseError>,
) -> bool {
    let id = account_id_bytes(account_id);
    if has_public_row(tables, id) {
        exists|columns: AccountColumns| #[trigger]
            are_account_columns(columns, tables, id) && is_state_of_columns(
                columns,
                account_id,
                result,
            )
    } else {
        result == Err::<FullAccountState, DatabaseError>(
            DatabaseError::AccountNotFoundInDb(account_id),
        )
    }
}

/// Whether an account has a latest row that names a code of the tables.
pub open spec fn has_public_row(tables: AccountTables, id: Seq<u8>) -> bool {
    &&& latest_account_row(tables.accounts@, id) matches Some(row)
    &&& row.code_commitment matches Some(code_commitment)
    &&& holds_code(tables.codes@, code_commitment@)
}

/// Whether a result is the account with the given columns.
pub open spec fn is_state_of_columns(
    columns: AccountColumns,
    account_id: AccountId,
    result: Result<FullAccountState, DatabaseError>,
) -> bool {
    let row = FullAccountRow { nonce: columns.nonce, code: columns.code };
    match full_state_of_rows(
        account_id,
        Some(row),
        columns.storage_header,
        columns.map_entries@,
        columns.assets@,
    ) {
        Err(error) => result == Err::<FullAccountState, DatabaseError>(error),
        Ok(state) => is_account_of_state(state, result),
    }
}

/// Reads the whole state of an account from the tables.
pub fn read_full_account(tables: &AccountTables, account_id: AccountId) -> (r: Result<
    FullAccountState,
    DatabaseError,
>)
    ensures
        is_read_account(*tables, account_id, r),
{
    match select_account_columns(tables, account_id) {
        None => Err(DatabaseError::AccountNotFoundInDb(account_id)),
        Some(columns) => {
            let ghost all = columns;
            let AccountColumns { nonce, code, storage_header, map_entries, assets } = columns;
            let r = select_full_account(
                account_id,
                Some(FullAccountRow { nonce, code }),
                &storage_header,
                &map_entries,
                &assets,
            );
            proof {
                let id = account_id_bytes(account_id);
                assert(are_account_columns(all, *tables, id));
                assert(is_state_of_columns(all, account_id, r));
                let row = latest_account_row(tables.accounts@, id)->0;
                assert(holds_code(tables.codes@, row.code_commitment->0@));
            }
            r
        },
    }
}

// VAULTS
// ================================================================================================

/// Whether no leaf of the tree of a vault has too many entries.
pub open spec fn has_fitting_leaves(contents: vstd::map::Map<Word, Word>) -> bool {
    &&& contents.dom().finite()
    &&& forall|element: u64| #[trigger] leaf_len(contents, element) <= MAX_SMT_LEAF_ENTRIES
}

proof fn lemma_vault_assets(assets: Seq<Asset>)
    requires
        are_distinct_assets(assets),
    ensures
        are_vault_assets(assets) <==> has_fitting_leaves(pairs_by_key(asset_pairs(assets))),
{
    let pairs = asset_pairs(assets);
    let keys = asset_keys(assets);
    let contents = pairs_by_key(pairs);
    lemma_pairs_by_key(pairs);
    assert forall|i: int, j: int| 0 <= i < keys.len() && 0 <= j < keys.len() && i != j implies keys[i]
        != keys[j] by {
        assert(keys[i] == pairs[i].0 && keys[j] == pairs[j].0);
    }
    assert(contents.dom() =~= keys.to_set()) by {
        assert forall|key: Word| contents.dom().contains(key) <==> keys.to_set().contains(key) by {
            if contents.contains_key(key) {
                let i = choose|i: int| 0 <= i < pairs.len() && (#[trigger] pairs[i]).0 == key;
                assert(keys[i] == key);
            }
            if keys.contains(key) {
                let i = choose|i: int| 0 <= i < keys.len() && keys[i] == key;
                assert(pairs[i].0 == key);
            }
        }
    }
    lemma_fits_leaves(keys, contents);
}

proof fn lemma_leaves_after_insert(contents: vstd::map::Map<Word, Word>, key: Word, value: Word)
    requires
        has_fitting_leaves(contents),
        has_room(contents, key),
    ensures
        has_fitting_leaves(contents.insert(key, value)),
{
    let after = contents.insert(key, value);
    assert forall|element: u64| #[trigger] leaf_len(after, element) <= MAX_SMT_LEAF_ENTRIES by {
        let wanted = |k: Word| k.3 == element;
        let before = contents.dom().filter(wanted);
        assert(leaf_len(contents, element) == before.len());
        if element == key.3 {
            assert(after.dom().filter(wanted) =~= before.insert(key));
            if contents.contains_key(key) {
                assert(before.insert(key) =~= before);
            }
        } else {
            assert(after.dom().filter(wanted) =~= before);
        }
    }
}

proof fn lemma_leaves_after_remove(contents: vstd::map::Map<Word, Word>, key: Word)
    requires
        has_fitting_leaves(contents),
    ensures
        has_fitting_leaves(contents.remove(key)),
{
    let after = contents.remove(key);
    assert forall|element: u64| #[trigger] leaf_len(after, element) <= MAX_SMT_LEAF_ENTRIES by {
        let wanted = |k: Word| k.3 == element;
        let before = contents.dom().filter(wanted);
        assert(leaf_len(contents, element) == before.len());
        assert(after.dom().filter(wanted) =~= before.remove(key));
    }
}

proof fn lemma_leaves_after_fungible(
    contents: vstd::map::Map<Word, Word>,
    fungible: Seq<(Word, i64)>,
)
    requires
        has_fitting_leaves(contents),
        fungible_fits(contents, fungible),
    ensures
        contents_after_fungible(contents, fungible) matches Some(after) ==> has_fitting_leaves(after),
    decreases fungible.len(),
{
    if fungible.len() > 0 {
        lemma_leaves_after_fungible(contents, fungible.drop_last());
        let (key, change) = fungible.last();
        if let Some(before) = contents_after_fungible(contents, fungible.drop_last()) {
            if contents_after_fungible(contents, fungible) is Some && change != 0 {
                let after = contents_after_fungible(contents, fungible)->0;
                if after.contains_key(key) {
                    if change < 0 {
                        assert(before.contains_key(key));
                    }
                    lemma_leaves_after_insert(before, key, after[key]);
                    assert(after =~= before.insert(key, after[key]));
                } else {
                    lemma_leaves_after_remove(before, key);
                    assert(after =~= before.remove(key));
                }
            }
        }
    }
}

proof fn lemma_leaves_after_non_fungible(
    contents: vstd::map::Map<Word, Word>,
    non_fungible: Seq<(Asset, bool)>,
)
    requires
        has_fitting_leaves(contents),
        non_fungible_fits(contents, non_fungible),
    ensures
        contents_after_non_fungible(contents, non_fungible) matches Some(after)
            ==> has_fitting_leaves(after),
    decreases non_fungible.len(),
{
    if non_fungible.len() > 0 {
        lemma_leaves_after_non_fungible(contents, non_fungible.drop_last());
        let (asset, added) = non_fungible.last();
        let key = asset.key;
        if let Some(before) = contents_after_non_fungible(contents, non_fungible.drop_last()) {
            if contents_after_non_fungible(contents, non_fungible) is Some {
                let after = contents_after_non_fungible(contents, non_fungible)->0;
                if after.contains_key(key) {
                    if !added {
                        assert(before.contains_key(key));
                    }
                    lemma_leaves_after_insert(before, key, after[key]);
                    assert(after =~= before.insert(key, after[key]));
                } else {
                    lemma_leaves_after_remove(before, key);
                    assert(after =~= before.remove(key));
                }
            }
        }
    }
}

proof fn lemma_leaves_after_delta(
    contents: vstd::map::Map<Word, Word>,
    delta: VaultDelta,
)
    requires
        has_fitting_leaves(contents),
        delta_fits(contents, delta),
    ensures
        contents_after_delta(contents, delta) matches Some(after) ==> has_fitting_leaves(after),
{
    lemma_leaves_after_fungible(contents, delta.fungible@);
    if let Some(after) = contents_after_fungible(contents, delta.fungible@) {
        lemma_leaves_after_non_fungible(after, delta.non_fungible@);
    }
}

// READ BACK
// ================================================================================================

/// Whether the code of each row is the one with the row's commitment.
pub open spec fn are_code_rows(rows: Seq<AccountCodeRowInsert>) -> bool {
    forall|i: int, commitment: Word|
        #![trigger rows[i], word_bytes(commitment)]
        0 <= i < rows.len() && commitment.is_canonical() && rows[i].code_commitment@ == word_bytes(
            commitment,
        ) ==> code_commitment_of_bytes(rows[i].code@) == Some(commitment)
}

proof fn lemma_word_bytes_differ(a: Word, b: Word)
    requires
        a.is_canonical(),
        b.is_canonical(),
        word_bytes(a) == word_bytes(b),
    ensures
        a == b,
{
    lemma_word_round_trip(a, Seq::empty());
    lemma_word_round_trip(b, Seq::empty());
}

proof fn lemma_columns_are_latest(
    columns: AccountColumns,
    tables: AccountTables,
    account_id: AccountId,
    state: PartialStateView,
)
    requires
        are_account_columns(columns, tables, account_id_bytes(account_id)),
        is_stored(state, tables, account_id),
        state.code_commitment.is_canonical(),
        are_code_rows(tables.codes@),
    ensures
        are_latest_columns(
            tables,
            account_id,
            state.code_commitment,
            (FullAccountRow { nonce: columns.nonce, code: columns.code }),
            columns.storage_header,
            columns.map_entries@,
            columns.assets@,
        ),
{
    let row = latest_account_row(tables.accounts@, account_id_bytes(account_id))->0;
    let i = choose|i: int|
        {
            &&& 0 <= i < tables.codes@.len()
            &&& column(row.code_commitment) == Some(
                (#[trigger] tables.codes@[i]).code_commitment@,
            )
            &&& columns.code@ == tables.codes@[i].code@
        };
    assert(tables.codes@[i].code_commitment@ == word_bytes(state.code_commitment));
}

/// A new account that `upsert_accounts` wrote is returned by `read_full_account` as the block gave it:
/// with its nonce, its code, its slots and its assets, and so with the commitment that the block gives
/// it. The tables stay valid.
pub proof fn lemma_upserted_account_is_read(
    steps: Seq<AccountTables>,
    update: BlockAccountUpdate,
    account: FullAccountState,
    block_num: BlockNumber,
    result: Result<FullAccountState, DatabaseError>,
)
    requires
        are_upserted(steps, seq![update], block_num),
        are_account_tables(steps[0]),
        are_code_rows(steps[0].codes@),
        latest_rows(steps[0].storage@, account_id_bytes(update.account_id)).len() == 0,
        latest_rows(steps[0].assets@, account_id_bytes(update.account_id)).len() == 0,
        is_account_update(update),
        update.details == AccountUpdateDetails::FullState(account),
        0 < account.nonce < FIELD_ORDER,
        account.code_commitment.is_canonical(),
        code_commitment_of_bytes(account.code@) == Some(account.code_commitment),
        is_read_account(steps[1], update.account_id, result),
    ensures
        are_account_tables(steps[1]),
        are_code_rows(steps[1].codes@),
        exists|state: PartialStateView| #[trigger]
            is_stored(state, steps[1], update.account_id) && state.nonce == account.nonce
                && state.code_commitment == account.code_commitment,
        ({
            &&& result matches Ok(read)
            &&& account_commitment_of(header_of_state(update.account_id, full_state_view(read)))
                == update.final_state_commitment
            &&& read.nonce == account.nonce
            &&& read.code_commitment == account.code_commitment
            &&& full_state_view(read).slots == full_state_view(account).slots
            &&& pairs_by_key(asset_pairs(read.assets@)) == pairs_by_key(asset_pairs(account.assets@))
        }),
{
    let tables = steps[0];
    let after = steps[1];
    assert(seq![update][0] == update);
    assert(is_upserted(tables, update, block_num, after));
    let (reads, writes) = choose|reads: AccountReads, writes: AccountWrites|
        {
            &&& are_reads_of(reads, tables, update)
            &&& #[trigger] is_written_update(
                update,
                reads,
                block_num,
                Ok::<WritesView, DatabaseError>(writes@),
            )
            &&& are_written(tables, writes, after)
        };
    let vault_root = choose|vault_root: Result<Word, DatabaseError>| #[trigger]
        is_written_with_root(update, reads, block_num, vault_root, Ok(writes@));
    let id = account_id_bytes(update.account_id);
    lemma_new_account_is_stored(
        tables,
        update,
        account,
        reads,
        block_num,
        vault_root,
        writes,
        after,
    );
    let state = PartialStateView {
        nonce: account.nonce,
        code_commitment: account.code_commitment,
        storage_header: account.slots@.map_values(|slot: StorageSlot| slot_header(slot)),
        vault_root: vault_root->Ok_0,
    };
    assert(is_stored(state, after, update.account_id));
    let code_row = writes.code->0;
    assert(writes@.code == Some(code_row@));
    assert(code_row.code_commitment@ == word_bytes(account.code_commitment));
    assert(code_row.code@ == account.code@);
    assert forall|i: int, commitment: Word|
        #![trigger after.codes@[i], word_bytes(commitment)]
        0 <= i < after.codes@.len() && commitment.is_canonical() && after.codes@[i].code_commitment@
            == word_bytes(commitment) implies code_commitment_of_bytes(after.codes@[i].code@) == Some(commitment) by {
        if i < tables.codes@.len() {
            assert(after.codes@[i] == tables.codes@[i]);
        } else {
            lemma_word_bytes_differ(commitment, account.code_commitment);
        }
    }
    let row = latest_account_row(after.accounts@, id)->0;
    assert(holds_code(after.codes@, code_row.code_commitment@)) by {
        if !holds_code(tables.codes@, code_row.code_commitment@) {
            assert(after.codes@.last() == code_row);
        }
    }
    assert(has_public_row(after, id));
    let columns = choose|columns: AccountColumns| #[trigger]
        are_account_columns(columns, after, id) && is_state_of_columns(
            columns,
            update.account_id,
            result,
        );
    lemma_columns_are_latest(columns, after, update.account_id, state);
    let account_row = FullAccountRow { nonce: columns.nonce, code: columns.code };
    lemma_new_account_is_read(
        tables,
        update,
        account,
        reads,
        block_num,
        vault_root,
        writes,
        after,
        account_row,
        columns.storage_header,
        columns.map_entries@,
        columns.assets@,
    );
    lemma_stored_account_is_read(
        after,
        update.account_id,
        state,
        account_row,
        columns.storage_header,
        columns.map_entries@,
        columns.assets@,
    );
    let found = full_state_of_rows(
        update.account_id,
        Some(account_row),
        columns.storage_header,
        columns.map_entries@,
        columns.assets@,
    )->Ok_0;
    lemma_vault_assets(account.assets@);
    lemma_vault_assets(found.assets);
}

/// An account that `upsert_accounts` changed by a delta is returned by `read_full_account` as the
/// account that was returned before, with the delta applied: its nonce is higher by that of the delta,
/// its code is the same, and its storage and its vault are those that the delta leads to. So it has the
/// commitment that the block gives it. The tables stay valid.
pub proof fn lemma_upserted_delta_is_read(
    steps: Seq<AccountTables>,
    update: BlockAccountUpdate,
    delta: AccountDelta,
    block_num: BlockNumber,
    state: PartialStateView,
    account: FullAccountState,
    result: Result<FullAccountState, DatabaseError>,
)
    requires
        are_upserted(steps, seq![update], block_num),
        are_account_tables(steps[0]),
        are_code_rows(steps[0].codes@),
        is_stored(state, steps[0], update.account_id),
        state.nonce < FIELD_ORDER,
        state.code_commitment.is_canonical(),
        is_account_update(update),
        update.details == AccountUpdateDetails::Delta(delta),
        is_delta_of(delta, state.storage_header),
        is_read_account(steps[0], update.account_id, Ok(account)),
        account.nonce + delta.nonce_delta < FIELD_ORDER,
        is_read_account(steps[1], update.account_id, result),
    ensures
        are_account_tables(steps[1]),
        are_code_rows(steps[1].codes@),
        exists|changed: PartialStateView| #[trigger]
            is_stored(changed, steps[1], update.account_id) && changed.nonce == account.nonce
                + delta.nonce_delta && changed.code_commitment == account.code_commitment,
        ({
            let maps = stored_maps(steps[0].storage@, account_id_bytes(update.account_id));
            let headers = full_state_view(account).slots.map_values(
                |slot: StorageSlotView| header_of_slot(slot),
            );
            &&& result matches Ok(read)
            &&& account_commitment_of(header_of_state(update.account_id, full_state_view(read)))
                == update.final_state_commitment
            &&& read.nonce == account.nonce + delta.nonce_delta
            &&& read.code_commitment == account.code_commitment
            &&& header_of_state(update.account_id, full_state_view(read)).storage_commitment
                == storage_commitment_of(slots_after(headers, delta.storage, maps))
            &&& contents_after_delta(
                pairs_by_key(asset_pairs(account.assets@)),
                delta.vault,
            ) == Some(pairs_by_key(asset_pairs(read.assets@)))
        }),
{
    let tables = steps[0];
    let after = steps[1];
    assert(seq![update][0] == update);
    assert(is_upserted(tables, update, block_num, after));
    let (reads, writes) = choose|reads: AccountReads, writes: AccountWrites|
        {
            &&& are_reads_of(reads, tables, update)
            &&& #[trigger] is_written_update(
                update,
                reads,
                block_num,
                Ok::<WritesView, DatabaseError>(writes@),
            )
            &&& are_written(tables, writes, after)
        };
    let vault_root = choose|vault_root: Result<Word, DatabaseError>| #[trigger]
        is_written_with_root(update, reads, block_num, vault_root, Ok(writes@));
    let id = account_id_bytes(update.account_id);
    let before = choose|columns: AccountColumns| #[trigger]
        are_account_columns(columns, tables, id) && is_state_of_columns(
            columns,
            update.account_id,
            Ok(account),
        );
    lemma_columns_are_latest(before, tables, update.account_id, state);
    let before_row = FullAccountRow { nonce: before.nonce, code: before.code };
    lemma_stored_account_has_its_header(
        tables,
        update.account_id,
        state,
        before_row,
        before.storage_header,
        before.map_entries@,
        before.assets@,
    );
    let found_before = full_state_of_rows(
        update.account_id,
        Some(before_row),
        before.storage_header,
        before.map_entries@,
        before.assets@,
    )->Ok_0;
    assert(full_state_view(account) == found_before);
    let headers = found_before.slots.map_values(|slot: StorageSlotView| header_of_slot(slot));
    let maps = stored_maps(tables.storage@, id);
    assert(headers =~= state.storage_header) by {
        assert forall|i: int| 0 <= i < headers.len() implies #[trigger] headers[i]
            == state.storage_header[i] by {
            assert(found_before.slots[i] == slot_of_header(state.storage_header[i], maps));
        }
    }
    lemma_changed_account_is_stored(
        tables,
        update,
        delta,
        reads,
        block_num,
        vault_root,
        writes,
        after,
        state,
    );
    let changed = PartialStateView {
        nonce: nonce_after(state.nonce, delta.nonce_delta)->0,
        code_commitment: state.code_commitment,
        storage_header: slots_after(state.storage_header, delta.storage, maps),
        vault_root: vault_root->Ok_0,
    };
    assert(is_stored(changed, after, update.account_id));
    assert(writes@.code is None);
    assert(after.codes@ == tables.codes@);
    let row = latest_account_row(after.accounts@, id)->0;
    let before_latest = latest_account_row(tables.accounts@, id)->0;
    assert(row.code_commitment->0@ == before_latest.code_commitment->0@);
    assert(has_public_row(after, id));
    let columns = choose|columns: AccountColumns| #[trigger]
        are_account_columns(columns, after, id) && is_state_of_columns(
            columns,
            update.account_id,
            result,
        );
    lemma_columns_are_latest(columns, after, update.account_id, changed);
    let account_row = FullAccountRow { nonce: columns.nonce, code: columns.code };
    lemma_changed_account_is_read(
        tables,
        update,
        delta,
        reads,
        block_num,
        vault_root,
        writes,
        after,
        state,
        account_row,
        columns.storage_header,
        columns.map_entries@,
        columns.assets@,
    );
    lemma_stored_account_is_read(
        after,
        update.account_id,
        changed,
        account_row,
        columns.storage_header,
        columns.map_entries@,
        columns.assets@,
    );
    let found = full_state_of_rows(
        update.account_id,
        Some(account_row),
        columns.storage_header,
        columns.map_entries@,
        columns.assets@,
    )->Ok_0;
    // The vault before the delta makes up a vault, and the delta finds room in it.
    lemma_stored_account_is_read(
        tables,
        update.account_id,
        state,
        before_row,
        before.storage_header,
        before.map_entries@,
        reads.assets@,
    );
    let assets = row_assets(latest_rows(tables.assets@, id));
    assert(assets_of_rows(reads.assets@) == Ok::<Seq<Asset>, DatabaseError>(assets));
    lemma_vault_assets(assets);
    lemma_leaves_after_delta(stored_vault(tables.assets@, id), delta.vault);
    lemma_vault_assets(found.assets);
}

/// An account that is read is in the tables: the row that is the latest of the account has the nonce that
/// is read, and names a code with the bytes that are read. An account is not found if it has no such row.
pub proof fn lemma_accounts_that_are_read(
    tables: AccountTables,
    account_id: AccountId,
    result: Result<FullAccountState, DatabaseError>,
)
    requires
        is_read_account(tables, account_id, result),
    ensures
        latest_account_row(tables.accounts@, account_id_bytes(account_id)) is None ==> result
            == Err::<FullAccountState, DatabaseError>(
            DatabaseError::AccountNotFoundInDb(account_id),
        ),
        result matches Ok(account) ==> {
            let row = latest_account_row(tables.accounts@, account_id_bytes(account_id));
            &&& row is Some
            &&& row->0.nonce is Some
            &&& 0 <= row->0.nonce->0 ==> account.nonce == row->0.nonce->0
            &&& account.nonce != 0
            &&& code_commitment_of_bytes(account.code@) == Some(account.code_commitment)
            &&& row->0.code_commitment is Some
            &&& exists|i: int|
                0 <= i < tables.codes@.len() && (#[trigger] tables.codes@[i]).code_commitment@
                    == row->0.code_commitment->0@ && tables.codes@[i].code@ == account.code@
            &&& are_vault_assets(account.assets@)
        },
{
    let id = account_id_bytes(account_id);
    if result is Ok {
        let account = result->Ok_0;
        let columns = choose|columns: AccountColumns| #[trigger]
            are_account_columns(columns, tables, id) && is_state_of_columns(
                columns,
                account_id,
                result,
            );
        let row = latest_account_row(tables.accounts@, id)->0;
        let i = choose|i: int|
            {
                &&& 0 <= i < tables.codes@.len()
                &&& column(row.code_commitment) == Some(
                    (#[trigger] tables.codes@[i]).code_commitment@,
                )
                &&& columns.code@ == tables.codes@[i].code@
            };
        let state = full_state_of_rows(
            account_id,
            Some(FullAccountRow { nonce: columns.nonce, code: columns.code }),
            columns.storage_header,
            columns.map_entries@,
            columns.assets@,
        )->Ok_0;
        assert(full_state_view(account) == state);
        assert(full_state_view(account).code == account.code@);
        assert(full_state_view(account).assets == account.assets@);
        assert(tables.codes@[i].code@ == account.code@);
    }
}

} // verus!
