//! The changes of accounts as blocks hold them, and the accounts that the changes of new accounts stand
//! for.

use miden_protocol::account::delta::{
    AccountDelta as ProtocolDelta, NonFungibleDeltaAction,
};
use miden_protocol::account::{Account, StorageSlotContent as ProtocolSlotContent};
use miden_protocol::utils::serde::Serializable;
use miden_protocol::Word as ProtocolWord;
use vstd::prelude::*;

use crate::account_id::AccountId;
use crate::db::delta::{
    has_bounded_amounts, magnitude, unsigned_abs, MapDelta, StorageDelta, VaultDelta,
};
use crate::db::entries::{has_distinct_keys, pairs_by_key};
use crate::db::full_account::{slot_view, StorageSlotView};
use crate::db::updates::{
    update_details, AccountDelta, AccountUpdateDetails, BlockAccountUpdate, FullAccountState,
    StorageSlot, StorageSlotContent,
};
use crate::errors::DatabaseError;
use crate::protocol::{asset_pairs, MAX_FUNGIBLE_AMOUNT};
use crate::state::account::Asset;
use crate::word::Word;

verus! {

// CHANGES
// ================================================================================================

/// The change of an account, as the protocol library decodes it.
#[verifier::external_type_specification]
#[verifier::external_body]
pub struct ExAccountDelta(ProtocolDelta);

/// What the change of an account's public state holds.
#[verifier::ext_equal]
pub struct DeltaView {
    pub values: Seq<(Seq<char>, Word)>,
    pub maps: Seq<(Seq<char>, Seq<(Word, Word)>)>,
    pub fungible: Seq<(Word, i64)>,
    pub non_fungible: Seq<(Asset, bool)>,
    pub nonce_delta: u64,
}

/// The new values of value slots by their names.
pub open spec fn storage_values(delta: StorageDelta) -> Seq<(Seq<char>, Word)> {
    delta.values@.map_values(|value: (String, Word)| (value.0@, value.1))
}

/// The changed entries of maps by the names of their slots.
pub open spec fn storage_maps(delta: StorageDelta) -> Seq<(Seq<char>, Seq<(Word, Word)>)> {
    delta.maps@.map_values(|map: MapDelta| (map.slot_name@, map.entries@))
}

impl View for AccountDelta {
    type V = DeltaView;

    open spec fn view(&self) -> DeltaView {
        DeltaView {
            values: storage_values(self.storage),
            maps: storage_maps(self.storage),
            fungible: self.vault.fungible@,
            non_fungible: self.vault.non_fungible@,
            nonce_delta: self.nonce_delta,
        }
    }
}

/// What the code of a new account holds: its encoding, and the lengths of the texts that its debug
/// information has for each operation, which are those of a file, a context and an instruction.
#[verifier::ext_equal]
pub struct CodeView {
    pub bytes: Seq<u8>,
    pub texts: Seq<(usize, usize, usize)>,
}

/// What the change of an account holds as a block has it. Only a new account comes with a code.
#[verifier::ext_equal]
pub struct ReceivedDeltaView {
    pub account_id: AccountId,
    pub changes: DeltaView,
    pub code: Option<CodeView>,
}

/// What a change that was decoded holds, by `AccountDelta::id`, `storage`, `vault`, `nonce_delta` and
/// `code`. Slots, keys and assets come in the order of the maps that hold them.
pub uninterp spec fn delta_of(delta: ProtocolDelta) -> ReceivedDeltaView;

/// Reads the changes of storage slots by `AccountDelta::storage`, one by one.
#[verifier::external_body]
fn storage_of_delta(delta: &ProtocolDelta) -> (r: StorageDelta)
    ensures
        storage_values(r) == delta_of(*delta).changes.values,
        storage_maps(r) == delta_of(*delta).changes.maps,
{
    let word = |w: ProtocolWord| { let [a, b, c, d]: [u64; 4] = w.into(); Word(a, b, c, d) };
    let values = delta.storage().values().map(|(name, v)| (name.as_str().to_string(), word(*v)));
    let maps = delta.storage().maps().map(|(name, map)| MapDelta {
        slot_name: name.as_str().to_string(),
        entries: map.entries().iter().map(|(k, v)| (word((*k).into()), word(*v))).collect(),
    });
    StorageDelta { values: values.collect(), maps: maps.collect() }
}

/// Reads the changes of assets by `AccountDelta::vault`, one by one.
#[verifier::external_body]
fn vault_of_delta(delta: &ProtocolDelta) -> (r: VaultDelta)
    ensures
        r.fungible@ == delta_of(*delta).changes.fungible,
        r.non_fungible@ == delta_of(*delta).changes.non_fungible,
{
    let word = |w: ProtocolWord| { let [a, b, c, d]: [u64; 4] = w.into(); Word(a, b, c, d) };
    let fungible = delta.vault().fungible().iter().map(|(k, n)| (word((*k).into()), *n));
    let non_fungible = delta.vault().non_fungible().iter().map(|(asset, action)| (
        Asset { key: word(asset.vault_key().into()), value: word(asset.to_value_word()) },
        matches!(action, NonFungibleDeltaAction::Add),
    ));
    VaultDelta { fungible: fungible.collect(), non_fungible: non_fungible.collect() }
}

/// Reads by how much the nonce grows, by `AccountDelta::nonce_delta`.
#[verifier::external_body]
fn nonce_of_delta(delta: &ProtocolDelta) -> (r: u64)
    ensures
        r == delta_of(*delta).changes.nonce_delta,
{
    delta.nonce_delta().as_canonical_u64()
}

/// Reads the lengths of the texts in the debug information of the code, if there is a code, by
/// `AccountDelta::code` and `DebugInfo::asm_ops`.
#[verifier::external_body]
fn code_texts(delta: &ProtocolDelta) -> (r: Option<Vec<(usize, usize, usize)>>)
    ensures
        match r {
            None => delta_of(*delta).code is None,
            Some(texts) => delta_of(*delta).code matches Some(code) && code.texts == texts@,
        },
{
    let mast = delta.code()?.mast();
    Some(mast.debug_info().asm_ops().iter().map(|op| (
        op.location().map_or(0, |location| location.uri().as_str().len()),
        op.context_name().len(),
        op.op().len(),
    )).collect())
}

// NEW ACCOUNTS
// ================================================================================================

/// The number of storage slots that an account has at most.
pub const MAX_ACCOUNT_SLOTS: usize = 255;

/// The number of bytes that the texts of a code and their lengths take at most.
pub open spec fn text_size(texts: Seq<(usize, usize, usize)>) -> nat
    decreases texts.len(),
{
    if texts.len() == 0 {
        0
    } else {
        let (file, context, instruction) = texts.last();
        text_size(texts.drop_last()) + file as nat + context as nat + instruction as nat + 27
    }
}

/// Whether a change is small enough for an account: it has no more slots than an account can have, the
/// amounts of assets are no larger than amounts can be, and the texts of the code can be encoded.
pub open spec fn fits_account(changes: DeltaView, code: CodeView) -> bool {
    &&& changes.values.len() + changes.maps.len() <= MAX_ACCOUNT_SLOTS
    &&& has_bounded_amounts(changes.fungible)
    &&& text_size(code.texts) < u32::MAX
}

/// An account, as the protocol library makes it.
#[verifier::external_type_specification]
#[verifier::external_body]
pub struct ExAccount(Account);

/// What an account holds. Its assets have no order.
#[verifier::ext_equal]
pub struct AccountView {
    pub nonce: u64,
    pub code: CodeView,
    pub code_commitment: Word,
    pub slots: Seq<StorageSlotView>,
    pub assets: vstd::map::Map<Word, Word>,
}

/// What an account holds, by `Account::nonce`, `code`, `storage` and `vault`.
pub uninterp spec fn account_of(account: Account) -> AccountView;

/// What the account that `Account::try_from` makes from a change holds, or `None` if the change does
/// not make up an account.
pub uninterp spec fn new_account_of(
    account_id: AccountId,
    changes: DeltaView,
    code: CodeView,
) -> Option<AccountView>;

/// Makes an account from a change by `Account::try_from`. The nonce and the code are those of the
/// change.
///
/// Too many slots make it panic (miden-protocol 0.14.5, `account/delta/mod.rs` 380), and so does an
/// amount that is too large (`asset/vault/mod.rs` 186). Two slots of a change never have the same
/// identifier, because names are ordered by it (`account/storage/slot/slot_name.rs` 193). All else
/// returns an error: `asset/vault/mod.rs` 229-269, `account/storage/mod.rs` 208,
/// `account/storage/map/mod.rs` 166 and `account/mod.rs` 101.
#[verifier::external_body]
fn new_account(delta: &ProtocolDelta) -> (r: Option<Account>)
    requires
        delta_of(*delta).code is Some,
        delta_of(*delta).changes.values.len() + delta_of(*delta).changes.maps.len()
            <= MAX_ACCOUNT_SLOTS,
        has_bounded_amounts(delta_of(*delta).changes.fungible),
    ensures
        ({
            let ReceivedDeltaView { account_id, changes, code } = delta_of(*delta);
            match r {
                None => new_account_of(account_id, changes, code->0) is None,
                Some(account) => new_account_of(account_id, changes, code->0) == Some(
                    account_of(account),
                ),
            }
        }),
        r matches Some(account) ==> account_of(account).nonce == delta_of(*delta).changes.nonce_delta
            && Some(account_of(account).code) == delta_of(*delta).code,
{
    Account::try_from(delta).ok()
}

/// Encodes the code of an account by `AccountCode::to_bytes`, and reads its commitment. Texts that take
/// 4 GiB or more cannot be encoded: they make it panic (miden-core 0.22.4,
/// `mast/serialization/string_table.rs` 103).
#[verifier::external_body]
fn code_of_account(account: &Account) -> (r: (Word, Vec<u8>))
    requires
        text_size(account_of(*account).code.texts) < u32::MAX,
    ensures
        r.0 == account_of(*account).code_commitment,
        r.1@ == account_of(*account).code.bytes,
{
    let [a, b, c, d]: [u64; 4] = account.code().commitment().into();
    (Word(a, b, c, d), account.code().to_bytes())
}

/// Reads the slots of an account by `Account::storage`, in the order of the account.
#[verifier::external_body]
fn slots_of_account(account: &Account) -> (r: Vec<StorageSlot>)
    ensures
        r@.map_values(|slot: StorageSlot| slot_view(slot)) == account_of(*account).slots,
{
    let word = |w: ProtocolWord| { let [a, b, c, d]: [u64; 4] = w.into(); Word(a, b, c, d) };
    account.storage().slots().iter().map(|slot| StorageSlot {
        name: slot.name().as_str().to_string(),
        content: match slot.content() {
            ProtocolSlotContent::Value(value) => StorageSlotContent::SingleValue(word(*value)),
            ProtocolSlotContent::Map(map) => StorageSlotContent::MapEntries(
                map.entries().map(|(k, v)| (word((*k).into()), word(*v))).collect(),
            ),
        },
    }).collect()
}

/// Reads the assets of an account by `AssetVault::assets`, in the order of a hash map.
#[verifier::external_body]
fn assets_of_account(account: &Account) -> (r: Vec<Asset>)
    ensures
        has_distinct_keys(asset_pairs(r@)),
        pairs_by_key(asset_pairs(r@)) == account_of(*account).assets,
{
    let word = |w: ProtocolWord| { let [a, b, c, d]: [u64; 4] = w.into(); Word(a, b, c, d) };
    account.vault().assets().map(|asset| Asset {
        key: word(asset.to_key_word()),
        value: word(asset.to_value_word()),
    }).collect()
}

/// Whether a state is that of the given account.
pub open spec fn is_state_of(state: FullAccountState, account: AccountView) -> bool {
    &&& state.nonce == account.nonce
    &&& state.code@ == account.code.bytes
    &&& state.code_commitment == account.code_commitment
    &&& state.slots@.map_values(|slot: StorageSlot| slot_view(slot)) == account.slots
    &&& has_distinct_keys(asset_pairs(state.assets@))
    &&& pairs_by_key(asset_pairs(state.assets@)) == account.assets
}

/// Returns whether texts can be encoded.
fn check_texts(texts: &Vec<(usize, usize, usize)>) -> (r: bool)
    ensures
        r == (text_size(texts@) < u32::MAX),
{
    let limit: u64 = u32::MAX as u64;
    let mut size: u64 = 0;
    let mut i: usize = 0;
    while i < texts.len()
        invariant
            i <= texts@.len(),
            size == text_size(texts@.take(i as int)),
            size < limit == u32::MAX,
        decreases texts@.len() - i,
    {
        let (file, context, instruction) = texts[i];
        let ghost next = texts@.take(i + 1);
        proof {
            assert(next.drop_last() =~= texts@.take(i as int));
            lemma_text_size_grows(texts@, i + 1);
        }
        if file as u64 >= limit || context as u64 >= limit || instruction as u64 >= limit {
            return false;
        }
        size = size + file as u64 + context as u64 + instruction as u64 + 27;
        if size >= limit {
            return false;
        }
        i = i + 1;
    }
    assert(texts@.take(i as int) =~= texts@);
    true
}

proof fn lemma_text_size_grows(texts: Seq<(usize, usize, usize)>, count: int)
    requires
        0 <= count <= texts.len(),
    ensures
        text_size(texts.take(count)) <= text_size(texts),
    decreases texts.len() - count,
{
    if count < texts.len() {
        lemma_text_size_grows(texts, count + 1);
        assert(texts.take(count + 1).drop_last() =~= texts.take(count));
    } else {
        assert(texts.take(count) =~= texts);
    }
}

fn check_amounts(fungible: &Vec<(Word, i64)>) -> (r: bool)
    ensures
        r == has_bounded_amounts(fungible@),
{
    let mut i: usize = 0;
    while i < fungible.len()
        invariant
            i <= fungible@.len(),
            forall|k: int|
                0 <= k < i ==> magnitude((#[trigger] fungible@[k]).1) <= MAX_FUNGIBLE_AMOUNT,
        decreases fungible@.len() - i,
    {
        if unsigned_abs(fungible[i].1) > MAX_FUNGIBLE_AMOUNT {
            assert(magnitude(fungible@[i as int].1) > MAX_FUNGIBLE_AMOUNT);
            return false;
        }
        i = i + 1;
    }
    true
}

// UPDATES
// ================================================================================================

/// An update of an account, as a block holds it. Without a change the state is not public.
pub struct ReceivedUpdate {
    pub account_id: AccountId,
    pub final_state_commitment: Word,
    pub delta: Option<ProtocolDelta>,
}

/// What an update of an account holds as a block has it.
#[verifier::ext_equal]
pub struct ReceivedUpdateView {
    pub account_id: AccountId,
    pub final_state_commitment: Word,
    pub delta: Option<ReceivedDeltaView>,
}

impl View for ReceivedUpdate {
    type V = ReceivedUpdateView;

    open spec fn view(&self) -> ReceivedUpdateView {
        ReceivedUpdateView {
            account_id: self.account_id,
            final_state_commitment: self.final_state_commitment,
            delta: match self.delta {
                None => None,
                Some(delta) => Some(delta_of(delta)),
            },
        }
    }
}

/// The account that the change of a new account stands for, if it stands for one.
pub open spec fn created_account(delta: ReceivedDeltaView) -> Option<AccountView> {
    match delta.code {
        None => None,
        Some(code) => if fits_account(delta.changes, code) {
            new_account_of(delta.account_id, delta.changes, code)
        } else {
            None
        },
    }
}

/// Whether details are those of an update: the change of an existing account, or the whole state of a
/// new one.
pub open spec fn are_details_of(
    details: AccountUpdateDetails,
    delta: Option<ReceivedDeltaView>,
) -> bool {
    match delta {
        None => details is Private,
        Some(delta) => match delta.code {
            None => details matches AccountUpdateDetails::Delta(found) && found@ == delta.changes,
            Some(_) => {
                &&& details matches AccountUpdateDetails::FullState(state)
                &&& created_account(delta) matches Some(account)
                &&& is_state_of(state, account)
            },
        },
    }
}

/// Whether an update brings the code of a new account, but its change stands for no account.
pub open spec fn brings_no_account(update: ReceivedUpdateView) -> bool {
    update.delta matches Some(delta) && delta.code is Some && created_account(delta) is None
}

/// Whether a result is the update of an account as the store works with it.
pub open spec fn is_update_of(
    result: Result<BlockAccountUpdate, DatabaseError>,
    update: ReceivedUpdateView,
) -> bool {
    if brings_no_account(update) {
        result == Err::<BlockAccountUpdate, DatabaseError>(DatabaseError::AccountError)
    } else {
        &&& result matches Ok(found)
        &&& found.account_id == update.account_id
        &&& found.final_state_commitment == update.final_state_commitment
        &&& are_details_of(found.details, update.delta)
    }
}

/// Makes the account that the change of a new account stands for, or returns `None` if the change
/// stands for none.
fn create_account(
    delta: &ProtocolDelta,
    changes: &AccountDelta,
    texts: &Vec<(usize, usize, usize)>,
) -> (r: Option<FullAccountState>)
    requires
        changes@ == delta_of(*delta).changes,
        delta_of(*delta).code matches Some(code) && code.texts == texts@,
    ensures
        match r {
            None => created_account(delta_of(*delta)) is None,
            Some(state) => created_account(delta_of(*delta)) matches Some(account) && is_state_of(
                state,
                account,
            ),
        },
{
    let values: usize = changes.storage.values.len();
    let maps: usize = changes.storage.maps.len();
    if values > MAX_ACCOUNT_SLOTS || maps > MAX_ACCOUNT_SLOTS || values + maps > MAX_ACCOUNT_SLOTS
        || !check_amounts(&changes.vault.fungible) || !check_texts(texts) {
        return None;
    }
    match new_account(delta) {
        None => None,
        Some(account) => {
            let (code_commitment, code) = code_of_account(&account);
            let slots = slots_of_account(&account);
            let assets = assets_of_account(&account);
            let nonce: u64 = changes.nonce_delta;
            Some(FullAccountState { nonce, code_commitment, code, slots, assets })
        },
    }
}

/// Takes an update of an account as a block holds it. An update that brings the code of a new account
/// brings its whole state, and fails if it stands for no account.
pub fn read_account_update(update: &ReceivedUpdate) -> (r: Result<BlockAccountUpdate, DatabaseError>)
    ensures
        is_update_of(r, update@),
{
    let (delta, holds_code, account) = match &update.delta {
        None => (None, false, None),
        Some(delta) => {
            let storage = storage_of_delta(delta);
            let vault = vault_of_delta(delta);
            let nonce_delta: u64 = nonce_of_delta(delta);
            let changes = AccountDelta { storage, vault, nonce_delta };
            assert(changes@ =~= delta_of(*delta).changes);
            match code_texts(delta) {
                None => (Some(changes), false, None),
                Some(texts) => {
                    let account = create_account(delta, &changes, &texts);
                    (Some(changes), true, account)
                },
            }
        },
    };
    match update_details(delta, holds_code, account) {
        Err(error) => Err(error),
        Ok(details) => Ok(
            BlockAccountUpdate {
                account_id: update.account_id,
                final_state_commitment: update.final_state_commitment,
                details,
            },
        ),
    }
}

// LAWS
// ================================================================================================

/// An update that was read is one of the account that the block names, with the commitment that the block
/// gives it. Without a change the state is not public, a change without code is that of an existing
/// account and is kept as it is, and one with code stands for a new account.
pub proof fn lemma_updates_are_read(
    result: Result<BlockAccountUpdate, DatabaseError>,
    update: ReceivedUpdateView,
)
    requires
        is_update_of(result, update),
    ensures
        result matches Err(error) ==> error == DatabaseError::AccountError && update.delta is Some
            && update.delta->0.code is Some,
        result matches Ok(found) ==> {
            &&& found.account_id == update.account_id
            &&& found.final_state_commitment == update.final_state_commitment
            &&& update.delta is None <==> found.details == AccountUpdateDetails::Private
            &&& update.delta is Some && update.delta->0.code is None ==> {
                let changes = update.delta->0.changes;
                &&& found.details matches AccountUpdateDetails::Delta(delta)
                &&& delta.nonce_delta == changes.nonce_delta
                &&& delta.vault.fungible@ == changes.fungible
                &&& delta.vault.non_fungible@ == changes.non_fungible
                &&& delta.storage.values@.len() == changes.values.len()
                &&& forall|i: int|
                    0 <= i < changes.values.len() ==> (#[trigger] delta.storage.values@[i]).0@
                        == changes.values[i].0 && delta.storage.values@[i].1 == changes.values[i].1
                &&& delta.storage.maps@.len() == changes.maps.len()
                &&& forall|i: int|
                    0 <= i < changes.maps.len() ==> (#[trigger] delta.storage.maps@[i]).slot_name@
                        == changes.maps[i].0 && delta.storage.maps@[i].entries@ == changes.maps[i].1
            }
            &&& update.delta is Some && update.delta->0.code is Some ==> {
                let delta = update.delta->0;
                &&& found.details matches AccountUpdateDetails::FullState(state)
                &&& new_account_of(
                    delta.account_id,
                    delta.changes,
                    delta.code->0,
                ) matches Some(account)
                &&& state.nonce == account.nonce
                &&& state.code@ == account.code.bytes
                &&& state.code_commitment == account.code_commitment
                &&& state.slots@.len() == account.slots.len()
                &&& forall|i: int|
                    0 <= i < state.slots@.len() ==> match (#[trigger] state.slots@[i]).content {
                        StorageSlotContent::SingleValue(value) => account.slots[i]
                            == StorageSlotView::SingleValue(state.slots@[i].name@, value),
                        StorageSlotContent::MapEntries(entries) => account.slots[i]
                            == StorageSlotView::MapEntries(
                            state.slots@[i].name@,
                            pairs_by_key(entries@),
                        ),
                    }
                &&& pairs_by_key(asset_pairs(state.assets@)) == account.assets
                &&& delta.changes.values.len() + delta.changes.maps.len() <= 255
                &&& forall|i: int|
                    0 <= i < delta.changes.fungible.len() ==> -0x7fff_ffff_8000_0000 <= (
                    #[trigger] delta.changes.fungible[i]).1 <= 0x7fff_ffff_8000_0000
            }
        },
{
    if result is Ok {
        let found = result->Ok_0;
        if update.delta is Some && update.delta->0.code is None {
            let changes = update.delta->0.changes;
            let delta = found.details->Delta_0;
            assert(storage_values(delta.storage) == changes.values);
            assert(storage_maps(delta.storage) == changes.maps);
            assert forall|i: int| 0 <= i < changes.values.len() implies (
            #[trigger] delta.storage.values@[i]).0@ == changes.values[i].0
                && delta.storage.values@[i].1 == changes.values[i].1 by {
                assert(storage_values(delta.storage)[i] == changes.values[i]);
            }
            assert forall|i: int| 0 <= i < changes.maps.len() implies (
            #[trigger] delta.storage.maps@[i]).slot_name@ == changes.maps[i].0
                && delta.storage.maps@[i].entries@ == changes.maps[i].1 by {
                assert(storage_maps(delta.storage)[i] == changes.maps[i]);
            }
        }
        if update.delta is Some && update.delta->0.code is Some {
            let delta = update.delta->0;
            let state = found.details->FullState_0;
            let account = created_account(delta)->0;
            let slots = state.slots@.map_values(|slot: StorageSlot| slot_view(slot));
            assert(slots == account.slots);
            assert forall|i: int| 0 <= i < state.slots@.len() implies #[trigger] slot_view(
                state.slots@[i],
            ) == account.slots[i] by {
                assert(slots[i] == slot_view(state.slots@[i]));
            }
            assert forall|i: int| 0 <= i < delta.changes.fungible.len() implies
                -0x7fff_ffff_8000_0000 <= (#[trigger] delta.changes.fungible[i]).1
                <= 0x7fff_ffff_8000_0000 by {
                assert(magnitude(delta.changes.fungible[i].1) <= MAX_FUNGIBLE_AMOUNT);
            }
        }
    }
}

/// An update is read whenever it brings no code, and whenever it brings code and its change stands for an
/// account with no more slots, assets and texts than an account can have.
pub proof fn lemma_updates_that_can_be_read(
    result: Result<BlockAccountUpdate, DatabaseError>,
    update: ReceivedUpdateView,
)
    requires
        is_update_of(result, update),
    ensures
        update.delta is None ==> result is Ok,
        update.delta is Some && update.delta->0.code is None ==> result is Ok,
        update.delta is Some && update.delta->0.code is Some && new_account_of(
            update.delta->0.account_id,
            update.delta->0.changes,
            update.delta->0.code->0,
        ) is Some && update.delta->0.changes.values.len() + update.delta->0.changes.maps.len() <= 255
            && (forall|i: int|
            0 <= i < update.delta->0.changes.fungible.len() ==> -0x7fff_ffff_8000_0000 <= (
            #[trigger] update.delta->0.changes.fungible[i]).1 <= 0x7fff_ffff_8000_0000)
            && update.delta->0.code->0.texts.len() == 0 ==> result is Ok,
{
    if update.delta is Some && update.delta->0.code is Some {
        let changes = update.delta->0.changes;
        if forall|i: int|
            0 <= i < changes.fungible.len() ==> -0x7fff_ffff_8000_0000 <= (
            #[trigger] changes.fungible[i]).1 <= 0x7fff_ffff_8000_0000 {
            assert forall|i: int| 0 <= i < changes.fungible.len() implies magnitude(
                (#[trigger] changes.fungible[i]).1,
            ) <= MAX_FUNGIBLE_AMOUNT by {
                assert(-0x7fff_ffff_8000_0000 <= changes.fungible[i].1 <= 0x7fff_ffff_8000_0000);
            }
            assert(has_bounded_amounts(changes.fungible));
        }
        assert(update.delta->0.code->0.texts.len() == 0 ==> text_size(
            update.delta->0.code->0.texts,
        ) == 0);
    }
}

} // verus!
