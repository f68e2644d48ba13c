//! The rows that a block writes for each account that it changes.

use vstd::prelude::*;

use crate::account_id::AccountId;
use crate::block_number::BlockNumber;
use crate::bytes::copy_bytes;
use crate::db::accounts::NetworkAccountType;
use crate::db::conv::{
    block_number_from_raw_sql, block_number_of_raw, block_number_to_raw_sql, lemma_collect_values,
    nonce_to_raw_sql,
};
use crate::db::delta::{balances_of_rows, MapEntryView};
use crate::db::updates::{
    change_results, faucets_of_changes, full_update, full_vault_root, has_canonical_state,
    is_account_update, partial_update, partial_vault_root, pending_fungible, pending_non_fungible,
    pending_of_change, prepare_full_account_update, prepare_partial_account_update, stored_state,
    AccountReads, AccountStateForInsert, AccountUpdateDetails, BlockAccountUpdate,
    PartialAccountState, PartialStateView, PendingAssetInsert, PendingStorageInsert, PreparedUpdate,
    PreparedView, StateForInsertView,
};
use crate::errors::{DataCorruption, DatabaseError};
use crate::protocol::{
    account_commitment_of, account_id_bytes, account_id_to_bytes, asset_bytes, asset_of_bytes,
    asset_to_bytes, has_canonical_values, has_slot_names, is_asset, is_storage_header, is_vault_key,
    storage_header_bytes, storage_header_of_bytes, storage_header_to_bytes, word_bytes,
    word_to_bytes,
};
use crate::state::account::SlotHeaderView;
use crate::word::Word;

verus! {

// ROWS
// ================================================================================================

/// A row of account code.
#[derive(Clone, Debug, PartialEq, Eq)]
pub struct AccountCodeRowInsert {
    pub code_commitment: Vec<u8>,
    pub code: Vec<u8>,
}

/// A row of an account at a block.
#[derive(Clone, Debug, PartialEq, Eq)]
pub struct AccountRowInsert {
    pub account_id: Vec<u8>,
    pub network_account_type: i32,
    pub block_num: i64,
    pub account_commitment: Vec<u8>,
    pub code_commitment: Option<Vec<u8>>,
    pub nonce: Option<i64>,
    pub storage_header: Option<Vec<u8>>,
    pub vault_root: Option<Vec<u8>>,
    pub is_latest: bool,
    pub created_at_block: i64,
}

/// A row of an asset of an account at a block.
#[derive(Clone, Debug, PartialEq, Eq)]
pub struct AccountAssetRowInsert {
    pub account_id: Vec<u8>,
    pub block_num: i64,
    pub vault_key: Vec<u8>,
    pub asset: Option<Vec<u8>>,
    pub is_latest: bool,
}

/// A row of a storage map entry of an account at a block.
#[derive(Clone, Debug, PartialEq, Eq)]
pub struct AccountStorageMapRowInsert {
    pub account_id: Vec<u8>,
    pub block_num: i64,
    pub slot_name: String,
    pub key: Vec<u8>,
    pub value: Vec<u8>,
    pub is_latest: bool,
}

/// The columns of a row of account code.
#[verifier::ext_equal]
pub struct CodeRowView {
    pub code_commitment: Seq<u8>,
    pub code: Seq<u8>,
}

/// The columns of a row of an account.
#[verifier::ext_equal]
pub struct AccountRowView {
    pub account_id: Seq<u8>,
    pub network_account_type: i32,
    pub block_num: i64,
    pub account_commitment: Seq<u8>,
    pub code_commitment: Option<Seq<u8>>,
    pub nonce: Option<i64>,
    pub storage_header: Option<Seq<u8>>,
    pub vault_root: Option<Seq<u8>>,
    pub is_latest: bool,
    pub created_at_block: i64,
}

/// The columns of a row of an asset.
#[verifier::ext_equal]
pub struct AssetRowView {
    pub account_id: Seq<u8>,
    pub block_num: i64,
    pub vault_key: Seq<u8>,
    pub asset: Option<Seq<u8>>,
    pub is_latest: bool,
}

/// The columns of a row of a storage map entry.
#[verifier::ext_equal]
pub struct StorageRowView {
    pub account_id: Seq<u8>,
    pub block_num: i64,
    pub slot_name: Seq<char>,
    pub key: Seq<u8>,
    pub value: Seq<u8>,
    pub is_latest: bool,
}

/// The bytes of an optional column.
pub open spec fn column(bytes: Option<Vec<u8>>) -> Option<Seq<u8>> {
    match bytes {
        None => None,
        Some(bytes) => Some(bytes@),
    }
}

impl View for AccountCodeRowInsert {
    type V = CodeRowView;

    open spec fn view(&self) -> CodeRowView {
        CodeRowView { code_commitment: self.code_commitment@, code: self.code@ }
    }
}

impl View for AccountRowInsert {
    type V = AccountRowView;

    open spec fn view(&self) -> AccountRowView {
        AccountRowView {
            account_id: self.account_id@,
            network_account_type: self.network_account_type,
            block_num: self.block_num,
            account_commitment: self.account_commitment@,
            code_commitment: column(self.code_commitment),
            nonce: self.nonce,
            storage_header: column(self.storage_header),
            vault_root: column(self.vault_root),
            is_latest: self.is_latest,
            created_at_block: self.created_at_block,
        }
    }
}

impl View for AccountAssetRowInsert {
    type V = AssetRowView;

    open spec fn view(&self) -> AssetRowView {
        AssetRowView {
            account_id: self.account_id@,
            block_num: self.block_num,
            vault_key: self.vault_key@,
            asset: column(self.asset),
            is_latest: self.is_latest,
        }
    }
}

impl View for AccountStorageMapRowInsert {
    type V = StorageRowView;

    open spec fn view(&self) -> StorageRowView {
        StorageRowView {
            account_id: self.account_id@,
            block_num: self.block_num,
            slot_name: self.slot_name@,
            key: self.key@,
            value: self.value@,
            is_latest: self.is_latest,
        }
    }
}

impl NetworkAccountType {
    /// The integer that is stored for the type.
    pub open spec fn raw(self) -> i32 {
        match self {
            NetworkAccountType::NotNetwork => 0,
            NetworkAccountType::Network => 1,
        }
    }

    /// Converts the type to the integer that is stored for it.
    pub fn to_raw_sql(self) -> (r: i32)
        ensures
            r == self.raw(),
    {
        match self {
            NetworkAccountType::NotNetwork => 0,
            NetworkAccountType::Network => 1,
        }
    }

    /// The type of the account with the given identifier.
    pub open spec fn of_account(account_id: AccountId) -> NetworkAccountType {
        if account_id.is_network() {
            NetworkAccountType::Network
        } else {
            NetworkAccountType::NotNetwork
        }
    }
}

/// The latest row of an account at a block.
pub open spec fn account_row(
    account_id: AccountId,
    commitment: Word,
    block_num: BlockNumber,
    created_at_block: BlockNumber,
    state: Option<PartialStateView>,
) -> AccountRowView {
    AccountRowView {
        account_id: account_id_bytes(account_id),
        network_account_type: NetworkAccountType::of_account(account_id).raw(),
        block_num: block_num.0 as i64,
        account_commitment: word_bytes(commitment),
        code_commitment: match state {
            None => None,
            Some(state) => Some(word_bytes(state.code_commitment)),
        },
        nonce: match state {
            None => None,
            Some(state) => Some(state.nonce as i64),
        },
        storage_header: match state {
            None => None,
            Some(state) => Some(storage_header_bytes(state.storage_header)),
        },
        vault_root: match state {
            None => None,
            Some(state) => Some(word_bytes(state.vault_root)),
        },
        is_latest: true,
        created_at_block: created_at_block.0 as i64,
    }
}

/// Whether the slots of a storage header have valid and distinct names, and can be read back once they
/// were stored.
pub open spec fn is_readable_header(slots: Seq<SlotHeaderView>) -> bool {
    &&& has_slot_names(slots)
    &&& has_canonical_values(slots) ==> storage_header_of_bytes(storage_header_bytes(slots))
        == Some(slots)
}

impl AccountRowInsert {
    /// Creates the row of an account without public state.
    pub fn new_private(
        account_id: AccountId,
        network_account_type: NetworkAccountType,
        account_commitment: Word,
        block_num: BlockNumber,
        created_at_block: BlockNumber,
    ) -> (r: Self)
        ensures
            r@ == (AccountRowView {
                network_account_type: network_account_type.raw(),
                ..account_row(account_id, account_commitment, block_num, created_at_block, None)
            }),
    {
        AccountRowInsert {
            account_id: account_id_to_bytes(account_id),
            network_account_type: network_account_type.to_raw_sql(),
            block_num: block_number_to_raw_sql(block_num),
            account_commitment: word_to_bytes(account_commitment),
            code_commitment: None,
            nonce: None,
            storage_header: None,
            vault_root: None,
            is_latest: true,
            created_at_block: block_number_to_raw_sql(created_at_block),
        }
    }

    /// Creates the row of an account with public state, or `None` if the slots of the state do not
    /// make up a storage header.
    pub fn new_from_partial(
        account_id: AccountId,
        network_account_type: NetworkAccountType,
        account_commitment: Word,
        block_num: BlockNumber,
        created_at_block: BlockNumber,
        state: &PartialAccountState,
    ) -> (r: Option<Self>)
        ensures
            r is Some <==> is_storage_header(state@.storage_header),
            r matches Some(row) ==> row@ == (AccountRowView {
                network_account_type: network_account_type.raw(),
                ..account_row(
                    account_id,
                    account_commitment,
                    block_num,
                    created_at_block,
                    Some(state@),
                )
            }),
            r is Some ==> is_readable_header(state@.storage_header),
    {
        let storage_header = match storage_header_to_bytes(&state.storage_header) {
            Some(bytes) => bytes,
            None => return None,
        };
        Some(
            AccountRowInsert {
                account_id: account_id_to_bytes(account_id),
                network_account_type: network_account_type.to_raw_sql(),
                block_num: block_number_to_raw_sql(block_num),
                account_commitment: word_to_bytes(account_commitment),
                code_commitment: Some(word_to_bytes(state.code_commitment)),
                nonce: Some(nonce_to_raw_sql(state.nonce)),
                storage_header: Some(storage_header),
                vault_root: Some(word_to_bytes(state.vault_root)),
                is_latest: true,
                created_at_block: block_number_to_raw_sql(created_at_block),
            },
        )
    }
}

/// The row of an asset at a block.
pub open spec fn asset_row(
    account_id: AccountId,
    block_num: BlockNumber,
    pending: PendingAssetInsert,
) -> AssetRowView {
    AssetRowView {
        account_id: account_id_bytes(account_id),
        block_num: block_num.0 as i64,
        vault_key: word_bytes(pending.vault_key),
        asset: match pending.asset {
            None => None,
            Some(asset) => Some(asset_bytes(asset)),
        },
        is_latest: true,
    }
}

/// Whether an asset to store can be read back once it was stored.
pub open spec fn is_readable_asset(pending: PendingAssetInsert) -> bool {
    pending.asset matches Some(asset) ==> asset_of_bytes(asset_bytes(asset)) == Some(asset)
}

/// The row of a storage map entry at a block.
pub open spec fn storage_row(
    account_id: AccountId,
    block_num: BlockNumber,
    entry: MapEntryView,
) -> StorageRowView {
    StorageRowView {
        account_id: account_id_bytes(account_id),
        block_num: block_num.0 as i64,
        slot_name: entry.slot_name,
        key: word_bytes(entry.key),
        value: word_bytes(entry.value),
        is_latest: true,
    }
}

impl AccountAssetRowInsert {
    /// Creates the row of an asset, or of its removal, at a block.
    pub fn new(account_id: AccountId, block_num: BlockNumber, pending: PendingAssetInsert) -> (r:
        Self)
        requires
            pending.asset matches Some(asset) ==> is_asset(asset),
        ensures
            r@ == asset_row(account_id, block_num, pending),
            is_readable_asset(pending),
    {
        let asset = match pending.asset {
            None => None,
            Some(asset) => Some(asset_to_bytes(asset)),
        };
        AccountAssetRowInsert {
            account_id: account_id_to_bytes(account_id),
            block_num: block_number_to_raw_sql(block_num),
            vault_key: word_to_bytes(pending.vault_key),
            asset,
            is_latest: true,
        }
    }
}

impl AccountStorageMapRowInsert {
    /// Creates the row of a storage map entry at a block.
    pub fn new(account_id: AccountId, block_num: BlockNumber, pending: &PendingStorageInsert) -> (r:
        Self)
        ensures
            r@ == storage_row(account_id, block_num, pending@),
    {
        AccountStorageMapRowInsert {
            account_id: account_id_to_bytes(account_id),
            block_num: block_number_to_raw_sql(block_num),
            slot_name: pending.slot_name.clone(),
            key: word_to_bytes(pending.key),
            value: word_to_bytes(pending.value),
            is_latest: true,
        }
    }
}

// UPSERT
// ================================================================================================

/// The rows that an update writes. Each row becomes the latest one with its key.
#[derive(Clone, Debug, PartialEq, Eq)]
pub struct AccountWrites {
    /// The code of a new account, written unless it is there already.
    pub code: Option<AccountCodeRowInsert>,
    pub account: AccountRowInsert,
    pub storage: Vec<AccountStorageMapRowInsert>,
    pub assets: Vec<AccountAssetRowInsert>,
}

/// The rows that an update writes.
#[verifier::ext_equal]
pub struct WritesView {
    pub code: Option<CodeRowView>,
    pub account: AccountRowView,
    pub storage: Seq<StorageRowView>,
    pub assets: Seq<AssetRowView>,
}

impl View for AccountWrites {
    type V = WritesView;

    open spec fn view(&self) -> WritesView {
        WritesView {
            code: match self.code {
                None => None,
                Some(row) => Some(row@),
            },
            account: self.account@,
            storage: self.storage@.map_values(|row: AccountStorageMapRowInsert| row@),
            assets: self.assets@.map_values(|row: AccountAssetRowInsert| row@),
        }
    }
}

/// The rows that a prepared update writes.
pub open spec fn writes_of(
    update: BlockAccountUpdate,
    block_num: BlockNumber,
    created_at_block: BlockNumber,
    prepared: PreparedView,
) -> WritesView {
    WritesView {
        code: match prepared.state {
            StateForInsertView::FullAccount(state, code) => Some(
                CodeRowView { code_commitment: word_bytes(state.code_commitment), code },
            ),
            _ => None,
        },
        account: account_row(
            update.account_id,
            update.final_state_commitment,
            block_num,
            created_at_block,
            stored_state(prepared.state),
        ),
        storage: prepared.storage.map_values(
            |entry: MapEntryView| storage_row(update.account_id, block_num, entry),
        ),
        assets: prepared.assets.map_values(
            |pending: PendingAssetInsert| asset_row(update.account_id, block_num, pending),
        ),
    }
}

/// What an update prepares, given the root of the account's vault after it.
pub open spec fn prepared_update(
    update: BlockAccountUpdate,
    reads: AccountReads,
    vault_root: Result<Word, DatabaseError>,
) -> Result<PreparedView, DatabaseError> {
    match update.details {
        AccountUpdateDetails::Private => Ok(
            PreparedView {
                state: StateForInsertView::Private,
                storage: Seq::empty(),
                assets: Seq::empty(),
            },
        ),
        AccountUpdateDetails::FullState(account) => full_update(update, account, vault_root),
        AccountUpdateDetails::Delta(delta) => partial_update(update, delta, reads, vault_root),
    }
}

/// Whether a result is the root of the account's vault after an update.
pub open spec fn is_updated_vault_root(
    update: BlockAccountUpdate,
    reads: AccountReads,
    vault_root: Result<Word, DatabaseError>,
) -> bool {
    match update.details {
        AccountUpdateDetails::Private => true,
        AccountUpdateDetails::FullState(account) => vault_root == full_vault_root(account),
        AccountUpdateDetails::Delta(delta) => vault_root
            == partial_vault_root(delta, reads),
    }
}

/// The block that created an account: the stored one, or the current block if there is none.
pub open spec fn creation_block(stored: Option<i64>, block_num: BlockNumber) -> Result<
    BlockNumber,
    DatabaseError,
> {
    match stored {
        None => Ok(block_num),
        Some(raw) => block_number_of_raw(raw),
    }
}

/// What an update writes, given the root of the account's vault after it.
pub open spec fn written_update(
    update: BlockAccountUpdate,
    reads: AccountReads,
    block_num: BlockNumber,
    vault_root: Result<Word, DatabaseError>,
) -> Result<WritesView, DatabaseError> {
    match creation_block(reads.created_at_block, block_num) {
        Err(error) => Err(error),
        Ok(created_at_block) => match prepared_update(update, reads, vault_root) {
            Err(error) => Err(error),
            Ok(prepared) => Ok(writes_of(update, block_num, created_at_block, prepared)),
        },
    }
}

/// Whether what an update stores can be read back.
pub open spec fn is_readable_update(prepared: PreparedView) -> bool {
    &&& stored_state(prepared.state) matches Some(state) ==> is_readable_header(
        state.storage_header,
    ) && has_canonical_values(state.storage_header)
    &&& forall|i: int|
        0 <= i < prepared.assets.len() ==> is_readable_asset(#[trigger] prepared.assets[i])
}

/// Whether a result is what an update writes, given the root of the account's vault after it: what is
/// written can be read back.
pub open spec fn is_written_with_root(
    update: BlockAccountUpdate,
    reads: AccountReads,
    block_num: BlockNumber,
    vault_root: Result<Word, DatabaseError>,
    result: Result<WritesView, DatabaseError>,
) -> bool {
    &&& is_updated_vault_root(update, reads, vault_root)
    &&& result == written_update(update, reads, block_num, vault_root)
    &&& result is Ok ==> is_readable_update(prepared_update(update, reads, vault_root)->Ok_0)
}

/// Whether a result is what an update writes.
pub open spec fn is_written_update(
    update: BlockAccountUpdate,
    reads: AccountReads,
    block_num: BlockNumber,
    result: Result<WritesView, DatabaseError>,
) -> bool {
    exists|vault_root: Result<Word, DatabaseError>| #[trigger]
        is_written_with_root(update, reads, block_num, vault_root, result)
}

/// Whether all assets to store are assets.
pub open spec fn stores_assets(pending: Seq<PendingAssetInsert>) -> bool {
    forall|i: int|
        0 <= i < pending.len() ==> ((#[trigger] pending[i]).asset matches Some(asset) ==> is_asset(
            asset,
        ))
}

/// The public state that an update stores hashes to the commitment of the block, its slots make up a
/// storage header, and the assets that it stores are assets.
pub proof fn lemma_stored_state_matches_commitment(
    update: BlockAccountUpdate,
    reads: AccountReads,
    vault_root: Result<Word, DatabaseError>,
)
    requires
        is_account_update(update),
    ensures
        prepared_update(update, reads, vault_root) matches Ok(prepared) ==> stores_assets(
            prepared.assets,
        ) && (stored_state(prepared.state) matches Some(state) ==> is_storage_header(
            state.storage_header,
        ) && account_commitment_of(state.header(update.account_id))
            == update.final_state_commitment),
{
    if let Ok(prepared) = prepared_update(update, reads, vault_root) {
        match update.details {
            AccountUpdateDetails::Private => {},
            AccountUpdateDetails::FullState(account) => {
                assert forall|i: int| 0 <= i < prepared.assets.len() implies ((
                #[trigger] prepared.assets[i]).asset matches Some(asset) ==> is_asset(asset)) by {
                    assert(is_asset(account.assets@[i]));
                }
            },
            AccountUpdateDetails::Delta(delta) => {
                let balances = balances_of_rows(
                    faucets_of_changes(delta.vault.fungible@),
                    reads.balances@,
                )->Ok_0;
                let fungible = pending_fungible(balances, delta.vault.fungible@)->Ok_0;
                lemma_collect_values(change_results(balances, delta.vault.fungible@));
                assert forall|i: int| 0 <= i < prepared.assets.len() implies ((
                #[trigger] prepared.assets[i]).asset matches Some(asset) ==> is_asset(asset)) by {
                    if i < fungible.len() {
                        assert(prepared.assets[i] == fungible[i]);
                        assert(pending_of_change(balances[i], delta.vault.fungible@[i]) == Ok::<
                            PendingAssetInsert,
                            DatabaseError,
                        >(fungible[i]));
                        assert(is_vault_key(delta.vault.fungible@[i].0));
                    } else {
                        let change = delta.vault.non_fungible@[i - fungible.len()];
                        assert(prepared.assets[i] == pending_non_fungible(change));
                    }
                }
            },
        }
    }
}

/// Returns the rows that an update writes.
pub fn upsert_account(
    update: &BlockAccountUpdate,
    reads: &AccountReads,
    block_num: BlockNumber,
) -> (r: Result<AccountWrites, DatabaseError>)
    requires
        is_account_update(*update),
    ensures
        match r {
            Ok(writes) => is_written_update(
                *update,
                *reads,
                block_num,
                Ok::<WritesView, DatabaseError>(writes@),
            ),
            Err(error) => is_written_update(
                *update,
                *reads,
                block_num,
                Err::<WritesView, DatabaseError>(error),
            ),
        },
{
    let account_id = update.account_id;
    let network_account_type = if account_id.is_network() {
        NetworkAccountType::Network
    } else {
        NetworkAccountType::NotNetwork
    };
    let ghost root: Result<Word, DatabaseError> = match &update.details {
        AccountUpdateDetails::Private => Err(DatabaseError::AssetVaultError),
        AccountUpdateDetails::FullState(account) => full_vault_root(*account),
        AccountUpdateDetails::Delta(delta) => partial_vault_root(*delta, *reads),
    };
    let created_at_block = match reads.created_at_block {
        Some(raw) => match block_number_from_raw_sql(raw) {
            Ok(created_at_block) => created_at_block,
            Err(error) => {
                assert(is_written_with_root(*update, *reads, block_num, root, Err(error)));
                return Err(error);
            },
        },
        None => block_num,
    };
    let prepared_result = match &update.details {
        AccountUpdateDetails::Private => Ok(
            PreparedUpdate {
                state: AccountStateForInsert::Private,
                storage: Vec::new(),
                assets: Vec::new(),
            },
        ),
        AccountUpdateDetails::FullState(account) => prepare_full_account_update(update, account),
        AccountUpdateDetails::Delta(delta) => prepare_partial_account_update(update, delta, reads),
    };
    proof {
        assert(is_updated_vault_root(*update, *reads, root));
        lemma_stored_state_matches_commitment(*update, *reads, root);
    }
    let prepared = match prepared_result {
        Ok(prepared) => prepared,
        Err(error) => {
            assert(is_written_with_root(*update, *reads, block_num, root, Err(error)));
            return Err(error);
        },
    };
    assert(has_canonical_state(prepared@.state));
    let (row, code) = match &prepared.state {
        AccountStateForInsert::Private => (
            Some(
                AccountRowInsert::new_private(
                    account_id,
                    network_account_type,
                    update.final_state_commitment,
                    block_num,
                    created_at_block,
                ),
            ),
            None,
        ),
        AccountStateForInsert::FullAccount(state, code) => (
            AccountRowInsert::new_from_partial(
                account_id,
                network_account_type,
                update.final_state_commitment,
                block_num,
                created_at_block,
                state,
            ),
            Some(
                AccountCodeRowInsert {
                    code_commitment: word_to_bytes(state.code_commitment),
                    code: copy_bytes(code),
                },
            ),
        ),
        AccountStateForInsert::PartialState(state) => (
            AccountRowInsert::new_from_partial(
                account_id,
                network_account_type,
                update.final_state_commitment,
                block_num,
                created_at_block,
                state,
            ),
            None,
        ),
    };
    let account = match row {
        Some(account) => account,
        None => {
            assert(false);
            return Err(DatabaseError::DataCorrupted(DataCorruption::InvalidStorageHeader));
        },
    };
    let mut storage: Vec<AccountStorageMapRowInsert> = Vec::new();
    let mut i: usize = 0;
    while i < prepared.storage.len()
        invariant
            i <= prepared.storage@.len(),
            storage@.len() == i,
            forall|k: int|
                0 <= k < i ==> (#[trigger] storage@[k])@ == storage_row(
                    account_id,
                    block_num,
                    prepared.storage@[k]@,
                ),
        decreases prepared.storage@.len() - i,
    {
        storage.push(AccountStorageMapRowInsert::new(account_id, block_num, &prepared.storage[i]));
        i = i + 1;
    }
    let mut assets: Vec<AccountAssetRowInsert> = Vec::new();
    let mut j: usize = 0;
    while j < prepared.assets.len()
        invariant
            j <= prepared.assets@.len(),
            assets@.len() == j,
            stores_assets(prepared.assets@),
            forall|k: int|
                0 <= k < j ==> (#[trigger] assets@[k])@ == asset_row(
                    account_id,
                    block_num,
                    prepared.assets@[k],
                ),
            forall|k: int| 0 <= k < j ==> is_readable_asset(#[trigger] prepared.assets@[k]),
        decreases prepared.assets@.len() - j,
    {
        assets.push(AccountAssetRowInsert::new(account_id, block_num, prepared.assets[j]));
        j = j + 1;
    }
    let writes = AccountWrites { code, account, storage, assets };
    proof {
        let expected = writes_of(*update, block_num, created_at_block, prepared@);
        assert(writes@.storage =~= expected.storage);
        assert(writes@.assets =~= expected.assets);
        assert(writes@.code =~= expected.code);
        assert(writes@ =~= expected);
        assert(update.details is Private ==> prepared@.storage =~= Seq::empty());
        assert(Ok::<PreparedView, DatabaseError>(prepared@) == prepared_update(
            *update,
            *reads,
            root,
        ));
        assert(is_readable_update(prepared@));
        assert(is_written_with_root(*update, *reads, block_num, root, Ok(writes@)));
    }
    Ok(writes)
}

/// The row of an account keeps the block that created it, and says the current block if the account
/// is new.
pub proof fn lemma_creation_block_is_kept(
    update: BlockAccountUpdate,
    reads: AccountReads,
    block_num: BlockNumber,
    written: WritesView,
)
    requires
        is_written_update(update, reads, block_num, Ok(written)),
    ensures
        reads.created_at_block matches Some(raw) ==> written.account.created_at_block == raw,
        reads.created_at_block is None ==> written.account.created_at_block == block_num@,
{
}

} // verus!
