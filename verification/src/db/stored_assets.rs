//! What is read back of the assets that were written: the vault of an account as its latest rows hold
//! it, and that its root is the one that is stored with the account.

use vstd::prelude::*;

use crate::db::conv::lemma_collect_values;
use crate::db::delta::{
    contents_after_delta, contents_after_fungible, contents_after_non_fungible, fungible_vault_key,
    is_vault_delta, VaultDelta,
};
use crate::db::entries::{lemma_pairs_by_key, pairs_by_key};
use crate::db::history::{
    has_one_latest_row, lemma_contains_split, lemma_write_keeps_history, rows_after_write,
    HistoryRow,
};
use crate::db::stored::{
    has_distinct_subjects, latest_rows, lemma_latest_rows, lemma_latest_rows_after_write,
};
use crate::db::tables::rows_after_writes;
use crate::db::updates::{
    change_results, new_assets, pending_fungible, pending_non_fungible, pending_of_change,
    PendingAssetInsert,
};
use crate::db::upsert::AccountAssetRowInsert;
use crate::errors::DatabaseError;
use crate::protocol::{
    are_distinct_assets, asset_of_bytes, asset_pairs, faucet_of_key, is_asset, is_fungible_faucet,
    vault_amount, word_bytes, word_of_bytes,
};
use crate::state::account::Asset;
use crate::word::Word;

verus! {

// VAULTS
// ================================================================================================

/// The vault key of a row.
pub open spec fn key_of_row(row: AccountAssetRowInsert) -> Word {
    word_of_bytes(row.vault_key@)->Some_0
}

/// The asset that a row holds, if it is not that of a removal.
pub open spec fn asset_of_row(row: AccountAssetRowInsert) -> Option<Asset> {
    match row.asset {
        None => None,
        Some(bytes) => asset_of_bytes(bytes@),
    }
}

/// Whether a row is that of an asset, or of its removal, under its vault key.
pub open spec fn holds_asset(row: AccountAssetRowInsert) -> bool {
    &&& word_of_bytes(row.vault_key@) is Some
    &&& row.vault_key@ == word_bytes(key_of_row(row))
    &&& row.asset is Some ==> {
        &&& asset_of_row(row) matches Some(asset)
        &&& is_asset(asset)
        &&& asset.key == key_of_row(row)
        &&& asset.value != Word::empty()
    }
}

/// Whether all rows are those of assets, with one latest row each.
pub open spec fn is_asset_table(rows: Seq<AccountAssetRowInsert>) -> bool {
    &&& has_one_latest_row(rows)
    &&& forall|i: int| 0 <= i < rows.len() ==> holds_asset(#[trigger] rows[i])
}

/// The assets that rows hold, in order.
pub open spec fn row_assets(rows: Seq<AccountAssetRowInsert>) -> Seq<Asset>
    decreases rows.len(),
{
    if rows.len() == 0 {
        Seq::empty()
    } else {
        match asset_of_row(rows.last()) {
            None => row_assets(rows.drop_last()),
            Some(asset) => row_assets(rows.drop_last()).push(asset),
        }
    }
}

/// What the vault of an account holds, as its latest rows hold it.
pub open spec fn stored_vault(
    rows: Seq<AccountAssetRowInsert>,
    account_id: Seq<u8>,
) -> vstd::map::Map<Word, Word> {
    pairs_by_key(asset_pairs(row_assets(latest_rows(rows, account_id))))
}

/// Rows of distinct subjects hold distinct assets, each asset in one of the rows.
pub proof fn lemma_row_assets(rows: Seq<AccountAssetRowInsert>, account_id: Seq<u8>)
    requires
        has_distinct_subjects(rows),
        forall|i: int|
            0 <= i < rows.len() ==> holds_asset(#[trigger] rows[i]) && rows[i].account_id@
                == account_id,
    ensures
        are_distinct_assets(row_assets(rows)),
        forall|asset: Asset| #[trigger]
            row_assets(rows).contains(asset) <==> exists|i: int|
                0 <= i < rows.len() && asset_of_row(#[trigger] rows[i]) == Some(asset),
    decreases rows.len(),
{
    let assets = row_assets(rows);
    if rows.len() > 0 {
        let before = rows.drop_last();
        let row = rows.last();
        let assets_before = row_assets(before);
        assert forall|i: int| 0 <= i < before.len() implies holds_asset(#[trigger] before[i])
            && before[i].account_id@ == account_id by {
            assert(before[i] == rows[i]);
        }
        lemma_row_assets(before, account_id);
        assert(holds_asset(rows[rows.len() - 1]));
        if let Some(asset) = asset_of_row(row) {
            assert forall|i: int| 0 <= i < assets_before.len() implies (
            #[trigger] assets_before[i]).key != asset.key by {
                assert(assets_before.contains(assets_before[i]));
                let j = choose|j: int|
                    0 <= j < before.len() && asset_of_row(#[trigger] before[j]) == Some(
                        assets_before[i],
                    );
                assert(before[j] == rows[j]);
                assert(holds_asset(rows[j]));
                assert(rows[j].subject() != rows[rows.len() - 1].subject());
            }
            let pairs = asset_pairs(assets);
            assert forall|i: int, j: int| 0 <= i < j < pairs.len() implies (#[trigger] pairs[i]).0
                != (#[trigger] pairs[j]).0 by {
                assert(pairs[i].0 == assets[i].key && pairs[j].0 == assets[j].key);
                if j < assets_before.len() {
                    assert(asset_pairs(assets_before)[i] == pairs[i]);
                    assert(asset_pairs(assets_before)[j] == pairs[j]);
                } else {
                    assert(assets_before[i].key != asset.key);
                }
            }
        }
        assert forall|asset: Asset| #[trigger] assets.contains(asset) <==> exists|i: int|
            0 <= i < rows.len() && asset_of_row(#[trigger] rows[i]) == Some(asset) by {
            if assets.contains(asset) {
                if asset_of_row(row) is Some {
                    lemma_contains_split(assets, asset);
                    assert(assets.drop_last() =~= assets_before);
                }
                if asset_of_row(row) == Some(asset) {
                    assert(asset_of_row(rows[rows.len() - 1]) == Some(asset));
                } else {
                    assert(assets_before.contains(asset));
                    let i = choose|i: int|
                        0 <= i < before.len() && asset_of_row(#[trigger] before[i]) == Some(asset);
                    assert(rows[i] == before[i]);
                }
            }
            if exists|i: int|
                0 <= i < rows.len() && asset_of_row(#[trigger] rows[i]) == Some(asset) {
                let i = choose|i: int|
                    0 <= i < rows.len() && asset_of_row(#[trigger] rows[i]) == Some(asset);
                if i < before.len() {
                    assert(before[i] == rows[i]);
                    assert(assets_before.contains(asset));
                }
                if asset_of_row(row) is Some {
                    lemma_contains_split(assets, asset);
                    assert(assets.drop_last() =~= assets_before);
                }
            }
        }
    }
}

pub proof fn lemma_latest_assets(rows: Seq<AccountAssetRowInsert>, account_id: Seq<u8>)
    requires
        is_asset_table(rows),
    ensures
        has_distinct_subjects(latest_rows(rows, account_id)),
        forall|i: int|
            0 <= i < latest_rows(rows, account_id).len() ==> holds_asset(
                #[trigger] latest_rows(rows, account_id)[i],
            ) && latest_rows(rows, account_id)[i].account_id@ == account_id,
        are_distinct_assets(row_assets(latest_rows(rows, account_id))),
{
    let latest = latest_rows(rows, account_id);
    lemma_latest_rows(rows, account_id);
    assert forall|i: int| 0 <= i < latest.len() implies holds_asset(#[trigger] latest[i])
        && latest[i].account_id@ == account_id by {
        assert(latest.contains(latest[i]));
        let j = choose|j: int| 0 <= j < rows.len() && rows[j] == latest[i];
        assert(holds_asset(rows[j]));
    }
    lemma_row_assets(latest, account_id);
}

/// The vault of an account holds a value under a key exactly if one of its latest rows does, and all
/// that it holds are assets.
pub proof fn lemma_stored_vault(
    rows: Seq<AccountAssetRowInsert>,
    account_id: Seq<u8>,
    key: Word,
    value: Word,
)
    requires
        is_asset_table(rows),
    ensures
        ({
            let vault = stored_vault(rows, account_id);
            vault.contains_key(key) && vault[key] == value
        }) <==> exists|row: AccountAssetRowInsert| #[trigger]
            latest_rows(rows, account_id).contains(row) && asset_of_row(row) == Some(
                Asset { key, value },
            ),
        is_vault(stored_vault(rows, account_id)),
{
    let latest = latest_rows(rows, account_id);
    let assets = row_assets(latest);
    let pairs = asset_pairs(assets);
    let vault = stored_vault(rows, account_id);
    let asset = Asset { key, value };
    lemma_latest_assets(rows, account_id);
    lemma_row_assets(latest, account_id);
    lemma_pairs_by_key(pairs);
    assert forall|k: Word| #[trigger] vault.contains_key(k) implies assets.contains(
        Asset { key: k, value: vault[k] },
    ) by {
        let i = choose|i: int| 0 <= i < pairs.len() && (#[trigger] pairs[i]).0 == k;
        assert(assets[i] == Asset { key: k, value: vault[k] });
    }
    assert forall|k: Word| #[trigger] vault.contains_key(k) implies is_asset(
        Asset { key: k, value: vault[k] },
    ) && vault[k] != Word::empty() by {
        let i = choose|i: int|
            0 <= i < assets.len() && assets[i] == (Asset { key: k, value: vault[k] });
        assert(is_asset(assets[i]));
    }
    if vault.contains_key(key) && vault[key] == value {
        assert(assets.contains(asset));
        let i = choose|i: int|
            0 <= i < latest.len() && asset_of_row(#[trigger] latest[i]) == Some(asset);
        assert(latest.contains(latest[i]));
    }
    if exists|row: AccountAssetRowInsert| #[trigger]
        latest.contains(row) && asset_of_row(row) == Some(asset) {
        let row = choose|row: AccountAssetRowInsert| #[trigger]
            latest.contains(row) && asset_of_row(row) == Some(asset);
        let j = choose|j: int| 0 <= j < latest.len() && latest[j] == row;
        assert(asset_of_row(latest[j]) == Some(asset));
        assert(assets.contains(asset));
        let i = choose|i: int| 0 <= i < assets.len() && assets[i] == asset;
        assert(pairs[i].0 == key);
    }
}

/// Whether all that a vault holds are assets, none of them empty.
pub open spec fn is_vault(contents: vstd::map::Map<Word, Word>) -> bool {
    forall|key: Word| #[trigger]
        contents.contains_key(key) ==> is_asset(Asset { key, value: contents[key] })
            && contents[key] != Word::empty()
}

/// A vault once the asset of a row was written to it, or removed from it.
pub open spec fn vault_with_row(
    contents: vstd::map::Map<Word, Word>,
    row: AccountAssetRowInsert,
) -> vstd::map::Map<Word, Word> {
    match asset_of_row(row) {
        None => contents.remove(key_of_row(row)),
        Some(asset) => contents.insert(asset.key, asset.value),
    }
}

/// Writing an asset changes the value under its key, and no other value of the account or of another
/// account.
pub proof fn lemma_written_asset_is_read(
    rows: Seq<AccountAssetRowInsert>,
    row: AccountAssetRowInsert,
    account_id: Seq<u8>,
)
    requires
        is_asset_table(rows),
        holds_asset(row),
        row.is_latest,
    ensures
        is_asset_table(rows_after_write(rows, row)),
        stored_vault(rows_after_write(rows, row), account_id) == (if row.account_id@
            == account_id {
            vault_with_row(stored_vault(rows, account_id), row)
        } else {
            stored_vault(rows, account_id)
        }),
{
    let after = rows_after_write(rows, row);
    lemma_write_keeps_history(rows, row);
    assert forall|i: int| 0 <= i < after.len() implies holds_asset(#[trigger] after[i]) by {
        if i < rows.len() {
            assert(holds_asset(rows[i]));
            assert(after[i] == rows[i] || after[i] == rows[i].superseded());
        }
    }
    let old_vault = stored_vault(rows, account_id);
    let new_vault = stored_vault(after, account_id);
    let written = row.account_id@ == account_id;
    let expected = if written {
        vault_with_row(old_vault, row)
    } else {
        old_vault
    };
    lemma_latest_rows_after_write(rows, row, account_id);
    assert forall|key: Word|
        {
            &&& #[trigger] new_vault.contains_key(key) == expected.contains_key(key)
            &&& new_vault.contains_key(key) ==> new_vault[key] == expected[key]
        } by {
        if new_vault.contains_key(key) {
            let value = new_vault[key];
            lemma_stored_vault(after, account_id, key, value);
            let found = choose|found: AccountAssetRowInsert| #[trigger]
                latest_rows(after, account_id).contains(found) && asset_of_row(found) == Some(
                    Asset { key, value },
                );
            if found != row {
                lemma_stored_vault(rows, account_id, key, value);
                lemma_row_of_vault(rows, account_id, found);
                if written && key == key_of_row(row) {
                    assert(found.subject() == row.subject());
                }
            }
        }
        if expected.contains_key(key) {
            let value = expected[key];
            lemma_stored_vault(after, account_id, key, value);
            if written && key == key_of_row(row) {
                assert(latest_rows(after, account_id).contains(row));
                assert(asset_of_row(row) == Some(Asset { key, value }));
            } else {
                lemma_stored_vault(rows, account_id, key, value);
                let found = choose|found: AccountAssetRowInsert| #[trigger]
                    latest_rows(rows, account_id).contains(found) && asset_of_row(found) == Some(
                        Asset { key, value },
                    );
                lemma_row_of_vault(rows, account_id, found);
                if found.subject() == row.subject() {
                    assert(key_of_row(row) == key);
                }
                assert(latest_rows(after, account_id).contains(found));
            }
        }
    }
    assert(new_vault =~= expected);
}

proof fn lemma_row_of_vault(
    rows: Seq<AccountAssetRowInsert>,
    account_id: Seq<u8>,
    row: AccountAssetRowInsert,
)
    requires
        is_asset_table(rows),
        latest_rows(rows, account_id).contains(row),
    ensures
        holds_asset(row),
        row.account_id@ == account_id,
{
    lemma_latest_rows(rows, account_id);
    let i = choose|i: int| 0 <= i < rows.len() && rows[i] == row;
    assert(holds_asset(rows[i]));
}

/// A vault once assets were written to it in order.
pub open spec fn vault_with_pending(
    contents: vstd::map::Map<Word, Word>,
    pending: Seq<PendingAssetInsert>,
) -> vstd::map::Map<Word, Word>
    decreases pending.len(),
{
    if pending.len() == 0 {
        contents
    } else {
        let before = vault_with_pending(contents, pending.drop_last());
        match pending.last().asset {
            None => before.remove(pending.last().vault_key),
            Some(asset) => before.insert(asset.key, asset.value),
        }
    }
}

/// What rows write.
pub open spec fn pending_of_rows(rows: Seq<AccountAssetRowInsert>) -> Seq<PendingAssetInsert> {
    rows.map_values(
        |row: AccountAssetRowInsert|
            PendingAssetInsert { vault_key: key_of_row(row), asset: asset_of_row(row) },
    )
}

/// Writing rows of an account one after another changes the values under their keys, the last row of
/// a key counting, and nothing else.
pub proof fn lemma_written_assets_are_read(
    rows: Seq<AccountAssetRowInsert>,
    written: Seq<AccountAssetRowInsert>,
    account_id: Seq<u8>,
)
    requires
        is_asset_table(rows),
        forall|i: int|
            0 <= i < written.len() ==> holds_asset(#[trigger] written[i]) && written[i].is_latest
                && written[i].account_id@ == account_id,
    ensures
        is_asset_table(rows_after_writes(rows, written)),
        stored_vault(rows_after_writes(rows, written), account_id) == vault_with_pending(
            stored_vault(rows, account_id),
            pending_of_rows(written),
        ),
    decreases written.len(),
{
    if written.len() > 0 {
        let before = written.drop_last();
        assert forall|i: int| 0 <= i < before.len() implies holds_asset(#[trigger] before[i])
            && before[i].is_latest && before[i].account_id@ == account_id by {
            assert(before[i] == written[i]);
        }
        lemma_written_assets_are_read(rows, before, account_id);
        assert(holds_asset(written[written.len() - 1]));
        lemma_written_asset_is_read(
            rows_after_writes(rows, before),
            written.last(),
            account_id,
        );
        assert(pending_of_rows(written).drop_last() =~= pending_of_rows(before));
    } else {
        assert(pending_of_rows(written) =~= Seq::empty());
    }
}

// VAULT ROOTS
// ================================================================================================

/// Whether no two fungible changes are of the same key.
pub open spec fn has_distinct_changes(fungible: Seq<(Word, i64)>) -> bool {
    forall|i: int, j: int|
        0 <= i < j < fungible.len() ==> (#[trigger] fungible[i]).0 != (#[trigger] fungible[j]).0
}

/// Whether all fungible changes are under the keys by which balances are queried and stored.
pub open spec fn has_plain_keys(fungible: Seq<(Word, i64)>) -> bool {
    forall|i: int|
        0 <= i < fungible.len() ==> (#[trigger] fungible[i]).0 == fungible_vault_key(
            faucet_of_key(fungible[i].0),
        )
}

/// The balances of the faucets of changes are the amounts that the vault holds.
pub open spec fn are_amounts(
    balances: Seq<u64>,
    contents: vstd::map::Map<Word, Word>,
    fungible: Seq<(Word, i64)>,
) -> bool {
    &&& balances.len() == fungible.len()
    &&& forall|i: int|
        0 <= i < fungible.len() ==> vault_amount(contents, (#[trigger] fungible[i]).0)
            == balances[i]
}

proof fn lemma_pending_keeps_others(
    contents: vstd::map::Map<Word, Word>,
    pending: Seq<PendingAssetInsert>,
    key: Word,
)
    requires
        forall|i: int|
            0 <= i < pending.len() ==> (#[trigger] pending[i]).vault_key != key && (
            pending[i].asset matches Some(asset) ==> asset.key == pending[i].vault_key),
    ensures
        vault_with_pending(contents, pending).contains_key(key) == contents.contains_key(key),
        contents.contains_key(key) ==> vault_with_pending(contents, pending)[key] == contents[key],
    decreases pending.len(),
{
    if pending.len() > 0 {
        let before = pending.drop_last();
        assert(pending[pending.len() - 1].vault_key != key);
        assert forall|i: int| 0 <= i < before.len() implies (#[trigger] before[i]).vault_key != key
            && (before[i].asset matches Some(asset) ==> asset.key == before[i].vault_key) by {
            assert(before[i] == pending[i]);
        }
        lemma_pending_keeps_others(contents, before, key);
    }
}

proof fn lemma_fungible_changes(
    contents: vstd::map::Map<Word, Word>,
    balances: Seq<u64>,
    fungible: Seq<(Word, i64)>,
    pending: Seq<PendingAssetInsert>,
)
    requires
        is_vault(contents),
        are_amounts(balances, contents, fungible),
        has_distinct_changes(fungible),
        has_plain_keys(fungible),
        pending.len() == fungible.len(),
        forall|i: int|
            0 <= i < fungible.len() ==> is_fungible_faucet(
                faucet_of_key((#[trigger] fungible[i]).0),
            ),
        forall|i: int|
            0 <= i < fungible.len() ==> pending_of_change(
                balances[i],
                #[trigger] fungible[i],
            ) == Ok::<PendingAssetInsert, DatabaseError>(pending[i]),
    ensures
        contents_after_fungible(contents, fungible) matches Some(after) ==> after
            == vault_with_pending(contents, pending),
    decreases fungible.len(),
{
    if fungible.len() > 0 {
        let last = fungible.len() - 1;
        let before = fungible.drop_last();
        let balances_before = balances.drop_last();
        let pending_before = pending.drop_last();
        assert forall|i: int| 0 <= i < before.len() implies vault_amount(
            contents,
            (#[trigger] before[i]).0,
        ) == balances_before[i] && is_fungible_faucet(faucet_of_key(before[i].0))
            && pending_of_change(balances_before[i], before[i]) == Ok::<
            PendingAssetInsert,
            DatabaseError,
        >(pending_before[i]) && before[i].0 == fungible_vault_key(faucet_of_key(before[i].0)) by {
            assert(before[i] == fungible[i]);
        }
        assert forall|i: int, j: int| 0 <= i < j < before.len() implies (#[trigger] before[i]).0
            != (#[trigger] before[j]).0 by {
            assert(before[i] == fungible[i] && before[j] == fungible[j]);
        }
        lemma_fungible_changes(contents, balances_before, before, pending_before);
        let (key, change) = fungible[last];
        let balance = balances[last];
        assert(fungible.last() == fungible[last]);
        assert forall|i: int| 0 <= i < pending_before.len() implies (
        #[trigger] pending_before[i]).vault_key != key && (
        pending_before[i].asset matches Some(asset) ==> asset.key
            == pending_before[i].vault_key) by {
            assert(fungible[i].0 != fungible[last].0);
            assert(pending_of_change(balances[i], fungible[i]) == Ok::<
                PendingAssetInsert,
                DatabaseError,
            >(pending[i]));
        }
        lemma_pending_keeps_others(contents, pending_before, key);
        let here = vault_with_pending(contents, pending_before);
        assert(vault_amount(here, key) == balance);
        assert(pending_of_change(balance, fungible[last]) == Ok::<
            PendingAssetInsert,
            DatabaseError,
        >(pending[last]));
        let expected = vault_with_pending(contents, pending);
        if contents_after_fungible(contents, fungible) is Some {
            let after = contents_after_fungible(contents, fungible)->0;
            if contents.contains_key(key) {
                assert(is_asset(Asset { key, value: contents[key] }));
                assert(contents[key] == Word(balance, 0, 0, 0));
                assert(balance > 0);
            }
            if change == 0 {
                assert(after =~= expected);
            } else if change > 0 {
                assert(after =~= expected);
            } else {
                assert(after =~= expected);
            }
        }
    }
}

proof fn lemma_non_fungible_changes(
    contents: vstd::map::Map<Word, Word>,
    non_fungible: Seq<(Asset, bool)>,
    pending: Seq<PendingAssetInsert>,
    start: vstd::map::Map<Word, Word>,
)
    requires
        contents == vault_with_pending(start, pending),
        forall|i: int|
            0 <= i < non_fungible.len() ==> !is_fungible_faucet(
                faucet_of_key((#[trigger] non_fungible[i]).0.key),
            ),
    ensures
        contents_after_non_fungible(contents, non_fungible) matches Some(after) ==> after
            == vault_with_pending(
            start,
            pending + non_fungible.map_values(|change: (Asset, bool)| pending_non_fungible(change)),
        ),
    decreases non_fungible.len(),
{
    let all = pending + non_fungible.map_values(
        |change: (Asset, bool)| pending_non_fungible(change),
    );
    if non_fungible.len() > 0 {
        let before = non_fungible.drop_last();
        assert forall|i: int| 0 <= i < before.len() implies !is_fungible_faucet(
            faucet_of_key((#[trigger] before[i]).0.key),
        ) by {
            assert(before[i] == non_fungible[i]);
        }
        assert(!is_fungible_faucet(faucet_of_key(non_fungible[non_fungible.len() - 1].0.key)));
        lemma_non_fungible_changes(contents, before, pending, start);
        assert(all.drop_last() =~= pending + before.map_values(
            |change: (Asset, bool)| pending_non_fungible(change),
        ));
        assert(all.last() == pending_non_fungible(non_fungible.last()));
    } else {
        assert(all =~= pending);
    }
}

/// The vault root that a delta stores is the root of the vault that is read back: what the stored
/// vault holds after a delta was applied to it is what it holds once the assets of the delta were
/// written.
pub proof fn lemma_vault_root_matches_assets(
    rows: Seq<AccountAssetRowInsert>,
    written: Seq<AccountAssetRowInsert>,
    account_id: Seq<u8>,
    delta: VaultDelta,
    balances: Seq<u64>,
    fungible: Seq<PendingAssetInsert>,
)
    requires
        is_asset_table(rows),
        forall|i: int|
            0 <= i < written.len() ==> holds_asset(#[trigger] written[i]) && written[i].is_latest
                && written[i].account_id@ == account_id,
        is_vault_delta(delta),
        has_distinct_changes(delta.fungible@),
        has_plain_keys(delta.fungible@),
        are_amounts(balances, stored_vault(rows, account_id), delta.fungible@),
        pending_fungible(balances, delta.fungible@) == Ok::<
            Seq<PendingAssetInsert>,
            DatabaseError,
        >(fungible),
        pending_of_rows(written) == fungible + delta.non_fungible@.map_values(
            |change: (Asset, bool)| pending_non_fungible(change),
        ),
    ensures
        contents_after_delta(stored_vault(rows, account_id), delta) matches Some(after)
            ==> stored_vault(rows_after_writes(rows, written), account_id) == after,
{
    let contents = stored_vault(rows, account_id);
    lemma_stored_vault(rows, account_id, Word::empty(), Word::empty());
    lemma_written_assets_are_read(rows, written, account_id);
    lemma_collect_values(change_results(balances, delta.fungible@));
    assert forall|i: int| 0 <= i < delta.fungible@.len() implies pending_of_change(
        balances[i],
        #[trigger] delta.fungible@[i],
    ) == Ok::<PendingAssetInsert, DatabaseError>(fungible[i]) by {
        assert(change_results(balances, delta.fungible@)[i] == Ok::<
            PendingAssetInsert,
            DatabaseError,
        >(fungible[i]));
    }
    lemma_fungible_changes(contents, balances, delta.fungible@, fungible);
    if let Some(middle) = contents_after_fungible(contents, delta.fungible@) {
        lemma_non_fungible_changes(middle, delta.non_fungible@, fungible, contents);
    }
}

/// The assets of a new account are read back as its vault.
pub proof fn lemma_new_vault_matches_assets(
    rows: Seq<AccountAssetRowInsert>,
    written: Seq<AccountAssetRowInsert>,
    account_id: Seq<u8>,
    assets: Seq<Asset>,
)
    requires
        is_asset_table(rows),
        latest_rows(rows, account_id).len() == 0,
        forall|i: int|
            0 <= i < written.len() ==> holds_asset(#[trigger] written[i]) && written[i].is_latest
                && written[i].account_id@ == account_id,
        pending_of_rows(written) == new_assets(assets),
    ensures
        stored_vault(rows_after_writes(rows, written), account_id) == pairs_by_key(
            asset_pairs(assets),
        ),
{
    lemma_written_assets_are_read(rows, written, account_id);
    assert(asset_pairs(row_assets(latest_rows(rows, account_id))) =~= Seq::empty());
    lemma_vault_with_new_assets(assets);
}

proof fn lemma_vault_with_new_assets(assets: Seq<Asset>)
    ensures
        vault_with_pending(vstd::map::Map::empty(), new_assets(assets)) == pairs_by_key(
            asset_pairs(assets),
        ),
    decreases assets.len(),
{
    if assets.len() > 0 {
        lemma_vault_with_new_assets(assets.drop_last());
        assert(new_assets(assets).drop_last() =~= new_assets(assets.drop_last()));
        assert(asset_pairs(assets).drop_last() =~= asset_pairs(assets.drop_last()));
    } else {
        assert(new_assets(assets) =~= Seq::empty());
        assert(asset_pairs(assets) =~= Seq::empty());
    }
}

} // verus!
