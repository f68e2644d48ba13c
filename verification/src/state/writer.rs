//! What the writer does with a block: it changes the trees, lets the block be stored, and publishes
//! the new state.

use vstd::prelude::*;

use crate::account_state_forest::forest::{
    update_error, AccountStateForest, AccountStateForestError, ForestView,
};
use crate::account_state_forest::laws::{same_tree, touches};
use crate::account_state_forest::model::{fits_accounts, with_accounts, with_accounts_keys};
use crate::block_number::BlockNumber;
use crate::db::updates::{is_account_update, BlockAccountUpdate};
use crate::errors::ApplyBlockError;
use crate::state::apply_block::{
    is_prepared_for, is_sound, prepares, state_after, BlockBody, BlockHeader, InnerState, InnerView,
    PreparedBlock,
};
use crate::state::replica::{newest, BlockCache, BlockNotification};
use crate::state::trees::{
    accounts_after, accounts_before, apply_account_changes, apply_nullifier_changes,
    nullifiers_after, nullifiers_before, push_block,
};

verus! {

// CHANGING THE STATE
// ================================================================================================

/// Whether all updates of accounts are such.
pub open spec fn are_updates(updates: Seq<BlockAccountUpdate>) -> bool {
    forall|i: int| 0 <= i < updates.len() ==> is_account_update(#[trigger] updates[i])
}

/// Whether the forest was updated by the changed accounts of a block. An update fails only if it
/// cannot be applied or does not fit, and then trees that no update touches stay as they are.
pub open spec fn is_forest_step(
    before: ForestView,
    after: ForestView,
    block_num: BlockNumber,
    updates: Seq<BlockAccountUpdate>,
    updated: bool,
) -> bool {
    &&& updated ==> with_accounts(before.trees, block_num, updates) == Some(after.trees)
    &&& updated ==> after.keys == with_accounts_keys(before.keys, updates)
    &&& !updated && with_accounts(before.trees, block_num, updates) is Some ==> !fits_accounts(
        before.trees,
        block_num,
        updates,
    )
    &&& !updated ==> forall|lineage: Seq<u8>|
        (forall|i: int| 0 <= i < updates.len() ==> !touches(#[trigger] updates[i], lineage))
            ==> #[trigger] same_tree(before.trees, after.trees, lineage)
}

/// Whether an error is that of one of the updates, after the updates before it.
pub open spec fn is_forest_error(
    before: ForestView,
    block_num: BlockNumber,
    updates: Seq<BlockAccountUpdate>,
    error: AccountStateForestError,
) -> bool {
    exists|i: int|
        {
            &&& 0 <= i < updates.len()
            &&& #[trigger] with_accounts(before.trees, block_num, updates.take(i)) matches Some(trees)
            &&& error == update_error(trees, updates[i])
        }
}

/// Changes the writer's own trees, forest and chain by a prepared block, before the block is stored.
/// If the forest cannot be updated, the trees are ahead of the chain, and the writer has to stop.
/// Readers do not see them: what they hold changes only in `publish_state`.
///
/// Only one writer changes the state, so that the trees are those that the block was prepared for.
pub fn commit_block(
    inner: &mut InnerState,
    forest: &mut AccountStateForest,
    prepared: PreparedBlock,
    updates: &Vec<BlockAccountUpdate>,
) -> (r: Result<(), ApplyBlockError>)
    requires
        prepared.header.commitment.is_canonical(),
        is_sound(prepared),
        is_prepared_for(prepared, old(inner)@),
        old(forest).is_valid(),
        are_updates(updates@),
    ensures
        final(forest).is_valid(),
        is_forest_step(
            old(forest)@,
            final(forest)@,
            prepared.header.block_num,
            updates@,
            r is Ok,
        ),
        r is Err ==> (r matches Err(ApplyBlockError::AccountStateForestError(error))
            && is_forest_error(old(forest)@, prepared.header.block_num, updates@, error)),
        final(inner)@.blocks == (if r is Ok {
            old(inner)@.blocks.push(prepared.header.commitment)
        } else {
            old(inner)@.blocks
        }),
        nullifiers_before(prepared.mutations.nullifier_tree_update) == old(inner)@.nullifiers
            ==> final(inner)@.nullifiers == nullifiers_after(
            prepared.mutations.nullifier_tree_update,
        ),
        accounts_before(prepared.mutations.account_tree_update) == old(inner)@.accounts
            ==> final(inner)@.accounts == accounts_after(prepared.mutations.account_tree_update),
{
    let block_num = prepared.header.block_num;
    let block_commitment = prepared.header.commitment;
    let mutations = prepared.mutations;
    apply_nullifier_changes(&mut inner.nullifier_tree, mutations.nullifier_tree_update);
    apply_account_changes(&mut inner.account_tree, mutations.account_tree_update);
    match forest.apply_block_updates(block_num, updates) {
        Ok(()) => {
            push_block(&mut inner.blockchain, block_commitment);
            Ok(())
        },
        Err(error) => Err(ApplyBlockError::AccountStateForestError(error)),
    }
}

/// The result of committing a block whose changes were made in memory: the block must be saved, and
/// the database must take it.
pub fn commit_result(saved: bool, committed: Result<(), String>) -> (r: Result<
    (),
    ApplyBlockError,
>)
    ensures
        r == (if !saved {
            Err::<(), ApplyBlockError>(ApplyBlockError::BlockSaveFailed)
        } else {
            match committed {
                Err(report) => Err(ApplyBlockError::DbUpdateTaskFailed(report)),
                Ok(_) => Ok(()),
            }
        }),
{
    if !saved {
        return Err(ApplyBlockError::BlockSaveFailed);
    }
    match committed {
        Err(report) => Err(ApplyBlockError::DbUpdateTaskFailed(report)),
        Ok(_) => Ok(()),
    }
}

/// Replaces the state that readers hold by the state after a block, once the block was saved and the
/// database has committed it. If the block could not be applied, saved or committed, readers go on
/// with the state before it.
pub fn publish_state<S>(
    in_memory: &mut S,
    changed: Result<S, ApplyBlockError>,
    saved: bool,
    committed: Result<(), String>,
) -> (r: Result<(), ApplyBlockError>)
    ensures
        r == (match changed {
            Err(error) => Err::<(), ApplyBlockError>(error),
            Ok(_) => if !saved {
                Err(ApplyBlockError::BlockSaveFailed)
            } else {
                match committed {
                    Err(report) => Err(ApplyBlockError::DbUpdateTaskFailed(report)),
                    Ok(_) => Ok(()),
                }
            },
        }),
        r is Err ==> *final(in_memory) == *old(in_memory),
        r is Ok ==> saved && committed is Ok && changed == Ok::<S, ApplyBlockError>(
            *final(in_memory),
        ),
{
    match changed {
        Err(error) => Err(error),
        Ok(state) => match commit_result(saved, committed) {
            Err(error) => Err(error),
            Ok(()) => {
                *in_memory = state;
                Ok(())
            },
        },
    }
}

/// Publishes a block that was applied: the forest is updated, and the block is kept for subscribers.
/// Returns the committed tip to announce.
pub fn publish_block(
    forest: &mut AccountStateForest,
    block_cache: &mut BlockCache,
    block_num: BlockNumber,
    updates: &Vec<BlockAccountUpdate>,
    block_bytes: Vec<u8>,
) -> (r: Result<BlockNumber, ApplyBlockError>)
    requires
        old(forest).is_valid(),
        old(block_cache).is_valid(),
        are_updates(updates@),
    ensures
        final(forest).is_valid(),
        final(block_cache).is_valid(),
        final(block_cache).spec_capacity() == old(block_cache).spec_capacity(),
        is_forest_step(old(forest)@, final(forest)@, block_num, updates@, r is Ok),
        match r {
            Ok(tip) => {
                &&& tip == block_num
                &&& exists|block: BlockNotification|
                    {
                        &&& block.0.block_num == block_num
                        &&& block.0.block_bytes == block_bytes
                        &&& final(block_cache)@ == #[trigger] newest(
                            old(block_cache)@.push((block_num, block)),
                            old(block_cache).spec_capacity(),
                        )
                    }
            },
            Err(error) => {
                &&& error matches ApplyBlockError::AccountStateForestError(error)
                &&& is_forest_error(old(forest)@, block_num, updates@, error)
                &&& *final(block_cache) == *old(block_cache)
            },
        },
{
    match forest.apply_block_updates(block_num, updates) {
        Ok(()) => {},
        Err(error) => return Err(ApplyBlockError::AccountStateForestError(error)),
    }
    block_cache.push(block_num, BlockNotification::new(block_num, block_bytes));
    Ok(block_num)
}

/// A block that was prepared for a state and committed leads to the state after the block, in the
/// trees, the chain and the forest.
pub proof fn lemma_committed_block_is_applied(
    prepared: PreparedBlock,
    header: BlockHeader,
    body: BlockBody,
    before: InnerView,
    after: InnerView,
    forest_before: ForestView,
    forest_after: ForestView,
)
    requires
        prepares(prepared, before, header, body),
        after.blocks == before.blocks.push(prepared.header.commitment),
        nullifiers_before(prepared.mutations.nullifier_tree_update) == before.nullifiers
            ==> after.nullifiers == nullifiers_after(prepared.mutations.nullifier_tree_update),
        accounts_before(prepared.mutations.account_tree_update) == before.accounts
            ==> after.accounts == accounts_after(prepared.mutations.account_tree_update),
        is_forest_step(
            forest_before,
            forest_after,
            prepared.header.block_num,
            body.updated_accounts@,
            true,
        ),
    ensures
        is_sound(prepared),
        is_prepared_for(prepared, before),
        after == state_after(before, header, body),
        with_accounts(forest_before.trees, header.block_num, body.updated_accounts@) == Some(
            forest_after.trees,
        ),
{
    assert(after =~= state_after(before, header, body));
}

// WRITER LOOP
// ================================================================================================

/// What happened to a block that was handed to the writer.
#[derive(Clone, Copy, Debug, PartialEq, Eq, Structural)]
pub enum WriterEvent {
    /// The block was refused before anything was changed.
    ValidationFailed,
    /// The block was committed.
    Committed,
    /// The trees were changed and the block could not be committed.
    CommitFailed,
}

/// What the writer does next.
#[derive(Clone, Copy, Debug, PartialEq, Eq, Structural)]
pub enum WriterAction {
    /// Waits for the next block.
    Continue,
    /// Asks for termination and stops, since the trees are ahead of what is stored.
    Terminate,
}

/// Returns what the writer does next. Only a failure that leaves the state inconsistent stops it.
pub fn writer_action(event: WriterEvent) -> (r: WriterAction)
    ensures
        r == WriterAction::Terminate <==> event == WriterEvent::CommitFailed,
{
    match event {
        WriterEvent::ValidationFailed => WriterAction::Continue,
        WriterEvent::Committed => WriterAction::Continue,
        WriterEvent::CommitFailed => WriterAction::Terminate,
    }
}

/// The forest is updated by all updates of a block, or the failure is that of one of them: the updates
/// before it could be applied.
pub proof fn lemma_forest_steps(
    before: ForestView,
    after: ForestView,
    block_num: BlockNumber,
    updates: Seq<BlockAccountUpdate>,
    error: AccountStateForestError,
)
    ensures
        is_forest_step(before, after, block_num, updates, true) ==> with_accounts(
            before.trees,
            block_num,
            updates,
        ) == Some(after.trees) && after.keys == with_accounts_keys(before.keys, updates),
        is_forest_step(before, after, block_num, updates, false) && with_accounts(
            before.trees,
            block_num,
            updates,
        ) is Some ==> !fits_accounts(before.trees, block_num, updates),
        is_forest_error(before, block_num, updates, error) ==> exists|i: int|
            0 <= i < updates.len() && (#[trigger] with_accounts(
                before.trees,
                block_num,
                updates.take(i),
            )) is Some && error == update_error(
                with_accounts(before.trees, block_num, updates.take(i))->0,
                updates[i],
            ),
        updates.len() == 0 ==> !is_forest_error(before, block_num, updates, error),
{
    if is_forest_error(before, block_num, updates, error) {
        let i = choose|i: int|
            {
                &&& 0 <= i < updates.len()
                &&& #[trigger] with_accounts(before.trees, block_num, updates.take(i)) matches Some(
                    trees,
                )
                &&& error == update_error(trees, updates[i])
            };
        assert(with_accounts(before.trees, block_num, updates.take(i)) is Some);
    }
}

} // verus!
