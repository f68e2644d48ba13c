//! Loading the state from the database.

use miden_protocol::block::Blockchain;
use vstd::prelude::*;

use crate::account_id::AccountId;
use crate::account_state_forest::forest::{update_error, AccountStateForest};
use crate::account_state_forest::model::{fits_account, with_account, with_account_keys};
use crate::block_number::BlockNumber;
use crate::db::full_account::AccountInfo;
use crate::db::updates::{is_full_state, AccountUpdateDetails, BlockAccountUpdate, FullAccountState};
use crate::errors::{StateInitializationError, TreeName};
use crate::protocol::is_valid_account_id;
use crate::state::apply_block::{
    lemma_updates_keep_prefixes_unique, BlockHeader, InnerState, InnerView,
};
use crate::state::inputs::NullifierInfo;
use crate::state::trees::{
    account_root, account_root_of, account_states, any_conflict, any_spent, apply_account_changes,
    apply_nullifier_changes, are_canonical, chain_blocks, chain_tip, check_created_nullifiers,
    compute_account_changes, compute_nullifier_changes, conflicts_with, fits_nullifiers,
    has_unique_prefixes, new_chain, nullifier_block_num, nullifier_blocks, nullifier_root,
    nullifier_root_of, push_block, with_spent, with_updates, AccountCommitments, SpentNullifiers,
};
use crate::word::Word;
use crate::state::block_laws::lemma_updated_accounts;

verus! {

/// The number of account commitments that are read at a time.
pub const ACCOUNT_COMMITMENTS_PAGE_SIZE: usize = 10_000;

/// The number of nullifiers that are read at a time.
pub const NULLIFIERS_PAGE_SIZE: usize = 10_000;

/// The number of public accounts that are read at a time.
pub const PUBLIC_ACCOUNT_IDS_PAGE_SIZE: usize = 1_000;

/// The value of a nullifier in the nullifier tree.
pub fn block_num_to_nullifier_leaf(block_num: BlockNumber) -> (r: Word)
    ensures
        r == Word(block_num@ as u64, 0, 0, 0),
{
    Word(block_num.0 as u64, 0, 0, 0)
}

// CHAIN
// ================================================================================================

/// Builds the chain of the given blocks.
pub fn load_mmr(block_commitments: &Vec<Word>) -> (r: Blockchain)
    requires
        are_canonical(block_commitments@),
    ensures
        chain_blocks(r) == block_commitments@,
{
    let mut chain = new_chain();
    let mut i: usize = 0;
    while i < block_commitments.len()
        invariant
            i <= block_commitments@.len(),
            are_canonical(block_commitments@),
            chain_blocks(chain) =~= block_commitments@.take(i as int),
        decreases block_commitments@.len() - i,
    {
        push_block(&mut chain, block_commitments[i]);
        i = i + 1;
    }
    assert(block_commitments@.take(i as int) =~= block_commitments@);
    chain
}

// TREES
// ================================================================================================

/// What comes after a page.
#[derive(Clone, Copy, Debug, PartialEq, Eq, Structural)]
pub enum LoadStep {
    /// The next page.
    NextPage,
    /// Nothing.
    Done,
}

/// Returns whether there is a next page: the page is not empty and names one.
pub fn next_load_step(page_is_empty: bool, has_next_cursor: bool) -> (r: LoadStep)
    ensures
        r == LoadStep::NextPage <==> !page_is_empty && has_next_cursor,
{
    if page_is_empty || !has_next_cursor {
        LoadStep::Done
    } else {
        LoadStep::NextPage
    }
}

/// Whether all commitments are canonical and belong to valid accounts.
pub open spec fn are_account_states(commitments: Seq<(AccountId, Word)>) -> bool {
    forall|i: int|
        0 <= i < commitments.len() ==> is_valid_account_id((#[trigger] commitments[i]).0)
            && commitments[i].1.is_canonical()
}

/// Whether an account is added that has the prefix of another one, when the commitments are added one
/// after the other.
pub open spec fn adds_conflict(
    accounts: vstd::map::Map<AccountId, Word>,
    commitments: Seq<(AccountId, Word)>,
) -> bool
    decreases commitments.len(),
{
    commitments.len() > 0 && (adds_conflict(accounts, commitments.drop_last()) || conflicts_with(
        with_updates(accounts, commitments.drop_last()),
        commitments.last(),
    ))
}

proof fn lemma_conflict_prefix(
    accounts: vstd::map::Map<AccountId, Word>,
    commitments: Seq<(AccountId, Word)>,
    count: int,
)
    requires
        0 <= count <= commitments.len(),
        adds_conflict(accounts, commitments.take(count)),
    ensures
        adds_conflict(accounts, commitments),
    decreases commitments.len() - count,
{
    if count < commitments.len() {
        assert(commitments.take(count + 1).drop_last() =~= commitments.take(count));
        lemma_conflict_prefix(accounts, commitments, count + 1);
    } else {
        assert(commitments.take(count) =~= commitments);
    }
}

/// Adds a page of account commitments to the account tree. Fails if an account has the prefix of
/// another one.
pub fn load_account_page(tree: &mut AccountCommitments, commitments: &Vec<(AccountId, Word)>) -> (r:
    Result<(), StateInitializationError>)
    requires
        has_unique_prefixes(account_states(*old(tree))),
        are_account_states(commitments@),
    ensures
        r == (if adds_conflict(account_states(*old(tree)), commitments@) {
            Err::<(), StateInitializationError>(
                StateInitializationError::FailedToCreateAccountsTree,
            )
        } else {
            Ok(())
        }),
        r is Ok ==> account_states(*final(tree)) == with_updates(
            account_states(*old(tree)),
            commitments@,
        ) && has_unique_prefixes(account_states(*final(tree))),
{
    let ghost start = account_states(*tree);
    let mut i: usize = 0;
    while i < commitments.len()
        invariant
            i <= commitments@.len(),
            start == account_states(*old(tree)),
            are_account_states(commitments@),
            has_unique_prefixes(account_states(*tree)),
            account_states(*tree) == with_updates(start, commitments@.take(i as int)),
            !adds_conflict(start, commitments@.take(i as int)),
        decreases commitments@.len() - i,
    {
        let ghost before = account_states(*tree);
        let mut entry: Vec<(AccountId, Word)> = Vec::new();
        entry.push(commitments[i]);
        proof {
            let upto = commitments@.take(i + 1);
            assert(upto.drop_last() =~= commitments@.take(i as int));
            assert(upto.last() == commitments@[i as int]);
            assert(entry@[0] == commitments@[i as int]);
            assert(entry@ =~= seq![commitments@[i as int]]);
            assert(entry@.drop_last() =~= Seq::empty());
            reveal_with_fuel(with_updates, 2);
            assert(with_updates(before, entry@) == with_updates(start, upto));
            if any_conflict(before, entry@) {
                assert(conflicts_with(before, entry@[0]));
                lemma_conflict_prefix(start, commitments@, i + 1);
            } else {
                assert(!conflicts_with(before, entry@[0]));
            }
        }
        match compute_account_changes(tree, &entry) {
            None => return Err(StateInitializationError::FailedToCreateAccountsTree),
            Some(changes) => {
                proof {
                    lemma_updates_keep_prefixes_unique(before, entry@);
                }
                apply_account_changes(tree, changes);
            },
        }
        i = i + 1;
    }
    assert(commitments@.take(i as int) =~= commitments@);
    Ok(())
}

/// Whether all nullifiers are canonical and were spent after the genesis block.
pub open spec fn are_spent_nullifiers(nullifiers: Seq<NullifierInfo>) -> bool {
    forall|i: int|
        0 <= i < nullifiers.len() ==> (#[trigger] nullifiers[i]).nullifier.is_canonical()
            && nullifiers[i].block_num@ > 0
}

/// The spent nullifiers once further ones were added.
pub open spec fn with_nullifiers(
    spent: vstd::map::Map<Word, BlockNumber>,
    nullifiers: Seq<NullifierInfo>,
) -> vstd::map::Map<Word, BlockNumber>
    decreases nullifiers.len(),
{
    if nullifiers.len() == 0 {
        spent
    } else {
        with_nullifiers(spent, nullifiers.drop_last()).insert(
            nullifiers.last().nullifier,
            nullifiers.last().block_num,
        )
    }
}

/// Whether the nullifiers can be added one after the other: none is spent, and not too many of them
/// are alike.
pub open spec fn can_add_nullifiers(
    spent: vstd::map::Map<Word, BlockNumber>,
    nullifiers: Seq<NullifierInfo>,
) -> bool {
    forall|i: int|
        0 <= i < nullifiers.len() ==> {
            let before = with_nullifiers(spent, nullifiers.take(i));
            &&& !before.contains_key((#[trigger] nullifiers[i]).nullifier)
            &&& fits_nullifiers(before, seq![nullifiers[i].nullifier])
        }
}

/// Returns whether a nullifier can be added to the nullifier tree as a page of its own.
pub fn check_nullifier(tree: &SpentNullifiers, info: &NullifierInfo) -> (r: bool)
    ensures
        r == (are_spent_nullifiers(seq![*info]) && can_add_nullifiers(
            nullifier_blocks(*tree),
            seq![*info],
        )),
        r ==> info.nullifier.is_canonical() && info.block_num.0 > 0 && !nullifier_blocks(
            *tree,
        ).contains_key(info.nullifier),
        r <== info.nullifier.is_canonical() && info.block_num.0 > 0 && !nullifier_blocks(
            *tree,
        ).contains_key(info.nullifier) && fits_nullifiers(
            nullifier_blocks(*tree),
            seq![info.nullifier],
        ),
{
    let ghost spent = nullifier_blocks(*tree);
    let ghost page = seq![*info];
    let mut entry: Vec<Word> = Vec::new();
    entry.push(info.nullifier);
    proof {
        assert(page[0] == *info);
        assert(entry@ =~= seq![info.nullifier]);
        assert(entry@[0] == info.nullifier);
        assert(page.take(0) =~= Seq::empty());
        assert(with_nullifiers(spent, page.take(0)) == spent);
    }
    if info.block_num.0 == 0 || !check_created_nullifiers(tree, &entry) {
        proof {
            if are_spent_nullifiers(page) && can_add_nullifiers(spent, page) {
                assert(fits_nullifiers(spent, seq![page[0].nullifier]));
            }
        }
        return false;
    }
    nullifier_block_num(tree, info.nullifier).is_none()
}

/// Adds a page of spent nullifiers to the nullifier tree.
pub fn load_nullifier_page(tree: &mut SpentNullifiers, nullifiers: &Vec<NullifierInfo>)
    requires
        are_spent_nullifiers(nullifiers@),
        can_add_nullifiers(nullifier_blocks(*old(tree)), nullifiers@),
    ensures
        nullifier_blocks(*final(tree)) == with_nullifiers(
            nullifier_blocks(*old(tree)),
            nullifiers@,
        ),
{
    let ghost start = nullifier_blocks(*tree);
    let mut i: usize = 0;
    while i < nullifiers.len()
        invariant
            i <= nullifiers@.len(),
            start == nullifier_blocks(*old(tree)),
            are_spent_nullifiers(nullifiers@),
            can_add_nullifiers(start, nullifiers@),
            nullifier_blocks(*tree) == with_nullifiers(start, nullifiers@.take(i as int)),
        decreases nullifiers@.len() - i,
    {
        let info = nullifiers[i];
        let mut entry: Vec<Word> = Vec::new();
        entry.push(info.nullifier);
        let ghost before = nullifier_blocks(*tree);
        proof {
            let upto = nullifiers@.take(i + 1);
            assert(upto.drop_last() =~= nullifiers@.take(i as int));
            assert(upto.last() == nullifiers@[i as int]);
            assert(nullifiers@[i as int] == info);
            assert(entry@ =~= seq![info.nullifier]);
            assert(entry@.drop_last() =~= Seq::empty());
            reveal_with_fuel(with_spent, 2);
            assert(with_spent(before, entry@, info.block_num) == with_nullifiers(start, upto));
            assert(!any_spent(before, entry@));
        }
        if let Some(changes) = compute_nullifier_changes(tree, &entry, info.block_num) {
            apply_nullifier_changes(tree, changes);
        }
        i = i + 1;
    }
    assert(nullifiers@.take(i as int) =~= nullifiers@);
}

// CONSISTENCY
// ================================================================================================

/// The error of trees that do not have the roots that the latest block names. Without a block the
/// roots are empty.
pub open spec fn consistency_error(
    account_root: Word,
    nullifier_root: Word,
    latest_header: Option<BlockHeader>,
) -> Option<StateInitializationError> {
    let (block_num, expected_account_root, expected_nullifier_root) = match latest_header {
        None => (BlockNumber(0), Word::empty(), Word::empty()),
        Some(header) => (header.block_num, header.account_root, header.nullifier_root),
    };
    if account_root != expected_account_root {
        Some(
            StateInitializationError::TreeStorageDiverged {
                tree_name: TreeName::Account,
                block_num,
                tree_root: account_root,
                block_root: expected_account_root,
            },
        )
    } else if nullifier_root != expected_nullifier_root {
        Some(
            StateInitializationError::TreeStorageDiverged {
                tree_name: TreeName::Nullifier,
                block_num,
                tree_root: nullifier_root,
                block_root: expected_nullifier_root,
            },
        )
    } else {
        None
    }
}

/// Checks that the trees have the roots that the latest block names.
pub fn verify_tree_consistency(
    account_tree_root: Word,
    nullifier_tree_root: Word,
    latest_header: Option<BlockHeader>,
) -> (r: Result<(), StateInitializationError>)
    ensures
        match consistency_error(account_tree_root, nullifier_tree_root, latest_header) {
            Some(error) => r == Err::<(), StateInitializationError>(error),
            None => r is Ok,
        },
        match latest_header {
            None => r is Ok <==> account_tree_root == Word(0, 0, 0, 0) && nullifier_tree_root
                == Word(0, 0, 0, 0),
            Some(header) => {
                &&& r is Ok <==> account_tree_root == header.account_root && nullifier_tree_root
                    == header.nullifier_root
                &&& account_tree_root != header.account_root ==> r == Err::<
                    (),
                    StateInitializationError,
                >(
                    StateInitializationError::TreeStorageDiverged {
                        tree_name: TreeName::Account,
                        block_num: header.block_num,
                        tree_root: account_tree_root,
                        block_root: header.account_root,
                    },
                )
                &&& account_tree_root == header.account_root && nullifier_tree_root
                    != header.nullifier_root ==> r == Err::<(), StateInitializationError>(
                    StateInitializationError::TreeStorageDiverged {
                        tree_name: TreeName::Nullifier,
                        block_num: header.block_num,
                        tree_root: nullifier_tree_root,
                        block_root: header.nullifier_root,
                    },
                )
            },
        },
{
    let (block_num, expected_account_root, expected_nullifier_root) = match latest_header {
        None => (BlockNumber::genesis(), Word::empty(), Word::empty()),
        Some(header) => (header.block_num, header.account_root, header.nullifier_root),
    };
    if account_tree_root != expected_account_root {
        return Err(
            StateInitializationError::TreeStorageDiverged {
                tree_name: TreeName::Account,
                block_num,
                tree_root: account_tree_root,
                block_root: expected_account_root,
            },
        );
    }
    if nullifier_tree_root != expected_nullifier_root {
        return Err(
            StateInitializationError::TreeStorageDiverged {
                tree_name: TreeName::Nullifier,
                block_num,
                tree_root: nullifier_tree_root,
                block_root: expected_nullifier_root,
            },
        );
    }
    Ok(())
}

/// Puts the chain and the trees that were loaded together, once it was checked that the trees have
/// the roots that the latest block names.
pub fn load_inner_state(
    blockchain: Blockchain,
    account_tree: AccountCommitments,
    nullifier_tree: SpentNullifiers,
    latest_header: Option<BlockHeader>,
) -> (r: Result<InnerState, StateInitializationError>)
    ensures
        match consistency_error(
            account_root_of(account_states(account_tree)),
            nullifier_root_of(nullifier_blocks(nullifier_tree)),
            latest_header,
        ) {
            Some(error) => r == Err::<InnerState, StateInitializationError>(error),
            None => r matches Ok(inner) && inner@ == (InnerView {
                nullifiers: nullifier_blocks(nullifier_tree),
                blocks: chain_blocks(blockchain),
                accounts: account_states(account_tree),
            }),
        },
{
    verify_tree_consistency(
        account_root(&account_tree),
        nullifier_root(&nullifier_tree),
        latest_header,
    )?;
    Ok(InnerState { nullifier_tree, blockchain, account_tree })
}

/// The latest block of a chain that was loaded: the genesis block if the chain has no block.
pub fn latest_loaded_block(chain: &Blockchain) -> (r: BlockNumber)
    requires
        chain_blocks(*chain).len() <= u32::MAX,
    ensures
        r@ == (if chain_blocks(*chain).len() == 0 {
            0
        } else {
            chain_blocks(*chain).len() - 1
        }),
{
    match chain_tip(chain) {
        Some(block_num) => block_num,
        None => BlockNumber::genesis(),
    }
}

// REBUILT STATE
// ================================================================================================

/// Whether the commitments are those of the accounts, each one once.
pub open spec fn are_commitments_of(
    commitments: Seq<(AccountId, Word)>,
    accounts: vstd::map::Map<AccountId, Word>,
) -> bool {
    &&& forall|i: int|
        0 <= i < commitments.len() ==> accounts.contains_key((#[trigger] commitments[i]).0)
            && accounts[commitments[i].0] == commitments[i].1 && commitments[i].1 != Word::empty()
    &&& forall|i: int, j: int|
        0 <= i < j < commitments.len() ==> (#[trigger] commitments[i]).0 != (
        #[trigger] commitments[j]).0
    &&& forall|id: AccountId| #[trigger]
        accounts.contains_key(id) ==> exists|i: int|
            0 <= i < commitments.len() && (#[trigger] commitments[i]).0 == id
}

/// Whether the nullifiers are the spent ones, each one once.
pub open spec fn are_nullifiers_of(
    nullifiers: Seq<NullifierInfo>,
    spent: vstd::map::Map<Word, BlockNumber>,
) -> bool {
    &&& forall|i: int|
        0 <= i < nullifiers.len() ==> spent.contains_key((#[trigger] nullifiers[i]).nullifier)
            && spent[nullifiers[i].nullifier] == nullifiers[i].block_num
    &&& forall|i: int, j: int|
        0 <= i < j < nullifiers.len() ==> (#[trigger] nullifiers[i]).nullifier != (
        #[trigger] nullifiers[j]).nullifier
    &&& forall|nullifier: Word| #[trigger]
        spent.contains_key(nullifier) ==> exists|i: int|
            0 <= i < nullifiers.len() && (#[trigger] nullifiers[i]).nullifier == nullifier
}

proof fn lemma_listed_accounts(
    commitments: Seq<(AccountId, Word)>,
    accounts: vstd::map::Map<AccountId, Word>,
    count: int,
)
    requires
        are_commitments_of(commitments, accounts),
        has_unique_prefixes(accounts),
        0 <= count <= commitments.len(),
    ensures
        ({
            let added = with_updates(vstd::map::Map::empty(), commitments.take(count));
            &&& !adds_conflict(vstd::map::Map::empty(), commitments.take(count))
            &&& forall|id: AccountId| #[trigger]
                added.contains_key(id) <==> exists|i: int|
                    0 <= i < count && (#[trigger] commitments[i]).0 == id
            &&& forall|id: AccountId| #[trigger]
                added.contains_key(id) ==> accounts.contains_key(id) && added[id] == accounts[id]
        }),
    decreases count,
{
    let upto = commitments.take(count);
    let added = with_updates(vstd::map::Map::empty(), upto);
    if count > 0 {
        lemma_listed_accounts(commitments, accounts, count - 1);
        assert(upto.drop_last() =~= commitments.take(count - 1));
        assert(upto.last() == commitments[count - 1]);
        let before = with_updates(vstd::map::Map::empty(), commitments.take(count - 1));
        assert(accounts.contains_key(commitments[count - 1].0));
        assert(!conflicts_with(before, upto.last()));
        assert forall|id: AccountId| #[trigger]
            added.contains_key(id) <==> exists|i: int|
                0 <= i < count && (#[trigger] commitments[i]).0 == id by {
            if id == commitments[count - 1].0 {
                assert(added.contains_key(id));
            } else if added.contains_key(id) {
                assert(before.contains_key(id));
            } else if exists|i: int| 0 <= i < count && (#[trigger] commitments[i]).0 == id {
                let i = choose|i: int| 0 <= i < count && (#[trigger] commitments[i]).0 == id;
                assert(i < count - 1);
                assert(before.contains_key(id));
            }
        }
    }
}

proof fn lemma_listed_nullifiers(
    nullifiers: Seq<NullifierInfo>,
    spent: vstd::map::Map<Word, BlockNumber>,
    count: int,
)
    requires
        are_nullifiers_of(nullifiers, spent),
        0 <= count <= nullifiers.len(),
    ensures
        ({
            let added = with_nullifiers(vstd::map::Map::empty(), nullifiers.take(count));
            &&& forall|nullifier: Word| #[trigger]
                added.contains_key(nullifier) <==> exists|i: int|
                    0 <= i < count && (#[trigger] nullifiers[i]).nullifier == nullifier
            &&& forall|nullifier: Word| #[trigger]
                added.contains_key(nullifier) ==> spent.contains_key(nullifier) && added[nullifier]
                    == spent[nullifier]
        }),
    decreases count,
{
    let upto = nullifiers.take(count);
    let added = with_nullifiers(vstd::map::Map::empty(), upto);
    if count > 0 {
        lemma_listed_nullifiers(nullifiers, spent, count - 1);
        assert(upto.drop_last() =~= nullifiers.take(count - 1));
        assert(upto.last() == nullifiers[count - 1]);
        let before = with_nullifiers(vstd::map::Map::empty(), nullifiers.take(count - 1));
        assert forall|nullifier: Word| #[trigger]
            added.contains_key(nullifier) <==> exists|i: int|
                0 <= i < count && (#[trigger] nullifiers[i]).nullifier == nullifier by {
            if nullifier == nullifiers[count - 1].nullifier {
                assert(added.contains_key(nullifier));
            } else if added.contains_key(nullifier) {
                assert(before.contains_key(nullifier));
            } else if exists|i: int|
                0 <= i < count && (#[trigger] nullifiers[i]).nullifier == nullifier {
                let i = choose|i: int|
                    0 <= i < count && (#[trigger] nullifiers[i]).nullifier == nullifier;
                assert(i < count - 1);
                assert(before.contains_key(nullifier));
            }
        }
    }
}

/// An account tree that is rebuilt from the commitments of all accounts is the tree before, in
/// whatever order the pages list them.
pub proof fn lemma_rebuilt_accounts_match(
    commitments: Seq<(AccountId, Word)>,
    accounts: vstd::map::Map<AccountId, Word>,
)
    requires
        are_commitments_of(commitments, accounts),
        has_unique_prefixes(accounts),
    ensures
        !adds_conflict(vstd::map::Map::empty(), commitments),
        with_updates(vstd::map::Map::empty(), commitments) == accounts,
{
    assert(commitments.take(commitments.len() as int) =~= commitments);
    lemma_listed_accounts(commitments, accounts, commitments.len() as int);
    assert(with_updates(vstd::map::Map::empty(), commitments) =~= accounts);
}

/// A state that is rebuilt from the database is the state that was stored: trees to which all
/// account commitments and all spent nullifiers were added are the trees before, in whatever order
/// the pages list them, and they pass the check against the latest block.
pub proof fn lemma_rebuilt_state_matches(
    inner: InnerView,
    commitments: Seq<(AccountId, Word)>,
    nullifiers: Seq<NullifierInfo>,
    latest_header: BlockHeader,
)
    requires
        inner.is_valid(),
        are_commitments_of(commitments, inner.accounts),
        are_nullifiers_of(nullifiers, inner.nullifiers),
        latest_header.account_root == account_root_of(inner.accounts),
        latest_header.nullifier_root == nullifier_root_of(inner.nullifiers),
    ensures
        ({
            let accounts = with_updates(vstd::map::Map::empty(), commitments);
            let spent = with_nullifiers(vstd::map::Map::empty(), nullifiers);
            &&& !adds_conflict(vstd::map::Map::empty(), commitments)
            &&& accounts == inner.accounts
            &&& spent == inner.nullifiers
            &&& consistency_error(
                account_root_of(accounts),
                nullifier_root_of(spent),
                Some(latest_header),
            ) is None
        }),
{
    assert(nullifiers.take(nullifiers.len() as int) =~= nullifiers);
    lemma_rebuilt_accounts_match(commitments, inner.accounts);
    lemma_listed_nullifiers(nullifiers, inner.nullifiers, nullifiers.len() as int);
    assert(with_nullifiers(vstd::map::Map::empty(), nullifiers) =~= inner.nullifiers);
}

// ACCOUNT STATE FOREST
// ================================================================================================

/// The update by which an account enters the forest when the forest is built.
pub open spec fn loaded_update(info: AccountInfo, account: FullAccountState) -> BlockAccountUpdate {
    BlockAccountUpdate {
        account_id: info.summary.account_id,
        final_state_commitment: info.summary.account_commitment,
        details: AccountUpdateDetails::FullState(account),
    }
}

/// Adds a public account with its whole state to the forest. The state of every public account must
/// have been read.
pub fn load_forest_account(
    forest: &mut AccountStateForest,
    block_num: BlockNumber,
    info: AccountInfo,
) -> (r: Result<(), StateInitializationError>)
    requires
        old(forest).is_valid(),
        is_valid_account_id(info.summary.account_id),
        info.details matches Some(account) ==> is_full_state(account),
    ensures
        final(forest).is_valid(),
        match info.details {
            None => r == Err::<(), StateInitializationError>(
                StateInitializationError::PublicAccountMissingDetails(info.summary.account_id),
            ) && final(forest)@ == old(forest)@,
            Some(account) => {
                let update = loaded_update(info, account);
                &&& r is Ok ==> with_account(old(forest)@.trees, block_num, update) == Some(
                    final(forest)@.trees,
                )
                &&& r is Ok ==> final(forest)@.keys == with_account_keys(
                    old(forest)@.keys,
                    update,
                )
                &&& r is Err && with_account(old(forest)@.trees, block_num, update) is Some
                    ==> !fits_account(old(forest)@.trees, block_num, update)
                &&& r matches Err(error) ==> error
                    == StateInitializationError::AccountStateForestError(
                    update_error(old(forest)@.trees, update),
                )
            },
        },
{
    let account_id = info.summary.account_id;
    let account = match info.details {
        Some(account) => account,
        None => return Err(StateInitializationError::PublicAccountMissingDetails(account_id)),
    };
    let update = BlockAccountUpdate {
        account_id,
        final_state_commitment: info.summary.account_commitment,
        details: AccountUpdateDetails::FullState(account),
    };
    match forest.update_account(block_num, &update) {
        Ok(()) => Ok(()),
        Err(error) => Err(StateInitializationError::AccountStateForestError(error)),
    }
}

/// Pages of accounts without repeats are refused exactly if two of the accounts have the same prefix.
pub proof fn lemma_accounts_that_cannot_be_loaded(commitments: Seq<(AccountId, Word)>)
    requires
        forall|i: int| 0 <= i < commitments.len() ==> (#[trigger] commitments[i]).1 != Word(0, 0, 0, 0),
        forall|i: int, j: int|
            0 <= i < j < commitments.len() ==> (#[trigger] commitments[i]).0 != (
            #[trigger] commitments[j]).0,
    ensures
        adds_conflict(vstd::map::Map::empty(), commitments) <==> exists|i: int, j: int|
            0 <= i < j < commitments.len() && (#[trigger] commitments[i]).0.prefix == (
            #[trigger] commitments[j]).0.prefix,
    decreases commitments.len(),
{
    if commitments.len() > 0 {
        let before = commitments.drop_last();
        let last = commitments.len() - 1;
        let accounts = with_updates(vstd::map::Map::<AccountId, Word>::empty(), before);
        lemma_accounts_that_cannot_be_loaded(before);
        lemma_updated_accounts(vstd::map::Map::empty(), before);
        assert forall|i: int| 0 <= i < before.len() implies accounts.contains_key(
            (#[trigger] before[i]).0,
        ) by {
            assert(before[i] == commitments[i]);
            assert forall|j: int| i < j < before.len() implies (#[trigger] before[j]).0
                != before[i].0 by {
                assert(commitments[i].0 != commitments[j].0);
            }
        }
        assert(!accounts.contains_key(commitments.last().0)) by {
            assert forall|i: int| 0 <= i < before.len() implies (#[trigger] before[i]).0
                != commitments.last().0 by {
                assert(commitments[i].0 != commitments[last].0);
            }
        }
        if conflicts_with(accounts, commitments.last()) {
            let id = choose|id: AccountId| #[trigger]
                accounts.contains_key(id) && id.prefix == commitments.last().0.prefix && id
                    != commitments.last().0;
            assert(exists|i: int| 0 <= i < before.len() && (#[trigger] before[i]).0 == id) by {
                if forall|i: int| 0 <= i < before.len() ==> (#[trigger] before[i]).0 != id {
                    assert(accounts.contains_key(id)
                        <==> vstd::map::Map::<AccountId, Word>::empty().contains_key(id));
                }
            }
            let i = choose|i: int| 0 <= i < before.len() && (#[trigger] before[i]).0 == id;
            assert(commitments[i].0.prefix == commitments[last].0.prefix);
        }
        if adds_conflict(vstd::map::Map::empty(), before) {
            let (i, j) = choose|i: int, j: int|
                0 <= i < j < before.len() && (#[trigger] before[i]).0.prefix == (
                #[trigger] before[j]).0.prefix;
            assert(commitments[i].0.prefix == commitments[j].0.prefix);
        }
        assert forall|i: int, j: int|
            0 <= i < j < commitments.len() && (#[trigger] commitments[i]).0.prefix == (
            #[trigger] commitments[j]).0.prefix implies adds_conflict(
            vstd::map::Map::empty(),
            commitments,
        ) by {
            if j < last {
                assert(before[i].0.prefix == before[j].0.prefix);
            } else {
                assert(accounts.contains_key(before[i].0));
                assert(commitments[i].0 != commitments[last].0);
                assert(conflicts_with(accounts, commitments.last()));
            }
        }
    }
}

/// A public account enters the forest with the state and the commitment that were read.
pub proof fn lemma_loaded_accounts_are_complete(info: AccountInfo, account: FullAccountState)
    ensures
        loaded_update(info, account).account_id == info.summary.account_id,
        loaded_update(info, account).final_state_commitment == info.summary.account_commitment,
        loaded_update(info, account).details == AccountUpdateDetails::FullState(account),
{
}

} // verus!
