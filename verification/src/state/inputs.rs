//! The inputs of transactions, batches and blocks.

use miden_protocol::crypto::merkle::mmr::PartialMmr;
use vstd::prelude::*;

use crate::account_id::AccountId;
use crate::block_number::BlockNumber;
use crate::block_set::BlockSet;
use crate::errors::{GetBatchInputsError, GetBlockInputsError};
use crate::protocol::is_valid_account_id;
use crate::state::apply_block::{BlockHeader, InnerState, InnerView};
use crate::state::trees::{
    account_state, account_witness, account_witness_of, are_canonical, commitment_in,
    contains_prefix_of, has_prefix, nullifier_block_num, nullifier_witness, nullifier_witness_of,
    partial_chain_blocks, partial_mmr_from_blocks, tracked_blocks,
};
use crate::word::Word;

verus! {

// BATCH INPUTS
// ================================================================================================

/// What the chain contributes to the inputs of a batch or a block: the block to build on, the
/// blocks before it whose headers are needed, and the proof that these are part of the chain.
pub struct ChainInputs {
    pub reference_block: BlockNumber,
    pub blocks: BlockSet,
    pub partial_mmr: PartialMmr,
}

/// Whether inputs build on the latest block, and prove the inclusion of all given blocks but the
/// latest in the chain before it.
pub open spec fn are_chain_inputs(
    inputs: ChainInputs,
    inner: InnerView,
    blocks: Set<BlockNumber>,
) -> bool {
    &&& inputs.reference_block == inner.tip()
    &&& inputs.blocks.is_valid()
    &&& inputs.blocks@ == blocks.remove(inner.tip())
    &&& tracked_blocks(inputs.partial_mmr) == blocks.remove(inner.tip())
    &&& partial_chain_blocks(inputs.partial_mmr) == inner.blocks.drop_last()
}

/// Whether a block is the highest of a set.
pub open spec fn is_highest(blocks: Set<BlockNumber>, highest: BlockNumber) -> bool {
    blocks.contains(highest) && forall|block: BlockNumber| #[trigger]
        blocks.contains(block) ==> block@ <= highest@
}

/// Whether a block of a set lies past the latest block.
pub open spec fn exceeds_tip(inner: InnerView, blocks: Set<BlockNumber>) -> bool {
    exists|block: BlockNumber| #[trigger] blocks.contains(block) && block@ > inner.tip()@
}

fn prove_inclusion(inner: &InnerState, blocks: BlockSet) -> (r: ChainInputs)
    requires
        inner@.is_valid(),
        blocks.is_valid(),
        !exceeds_tip(inner@, blocks@),
    ensures
        are_chain_inputs(r, inner@, blocks@),
{
    let ghost all = blocks@;
    let tip = inner.latest_block_num();
    let mut blocks = blocks;
    blocks.remove(tip);
    proof {
        assert forall|i: int| 0 <= i < blocks.blocks@.len() implies (#[trigger] blocks.blocks@[i])@
            < tip@ by {
            assert(blocks@.contains(blocks.blocks@[i]));
            assert(all.contains(blocks.blocks@[i]));
        }
        assert(inner@.blocks.take(tip@) =~= inner@.blocks.drop_last());
    }
    let partial_mmr = partial_mmr_from_blocks(&inner.blockchain, &blocks.blocks, tip);
    ChainInputs { reference_block: tip, blocks, partial_mmr }
}

/// Checks that the transactions of a batch refer to blocks at all.
pub fn check_batch_references(tx_reference_blocks: &BlockSet) -> (r: Result<
    (),
    GetBatchInputsError,
>)
    requires
        tx_reference_blocks.is_valid(),
    ensures
        r == (if tx_reference_blocks@ == Set::<BlockNumber>::empty() {
            Err::<(), GetBatchInputsError>(GetBatchInputsError::TransactionBlockReferencesEmpty)
        } else {
            Ok(())
        }),
{
    match tx_reference_blocks.last() {
        None => Err(GetBatchInputsError::TransactionBlockReferencesEmpty),
        Some(_) => Ok(()),
    }
}

/// Returns the chain's part of the inputs of a batch, whose transactions refer to some blocks and
/// whose notes were created in others.
pub fn get_batch_inputs(
    inner: &InnerState,
    tx_reference_blocks: BlockSet,
    note_blocks: &Vec<BlockNumber>,
) -> (r: Result<ChainInputs, GetBatchInputsError>)
    requires
        inner@.is_valid(),
        tx_reference_blocks.is_valid(),
    ensures
        ({
            let blocks = tx_reference_blocks@.union(note_blocks@.to_set());
            if tx_reference_blocks@ == Set::<BlockNumber>::empty() {
                r == Err::<ChainInputs, GetBatchInputsError>(
                    GetBatchInputsError::TransactionBlockReferencesEmpty,
                )
            } else if exceeds_tip(inner@, blocks) {
                r matches Err(
                    GetBatchInputsError::UnknownTransactionBlockReference {
                        highest_block_num,
                        latest_block_num,
                    },
                ) && is_highest(blocks, highest_block_num) && latest_block_num == inner@.tip()
            } else {
                r matches Ok(inputs) && are_chain_inputs(inputs, inner@, blocks)
            }
        }),
{
    check_batch_references(&tx_reference_blocks)?;
    let ghost tx_blocks = tx_reference_blocks@;
    let mut blocks = tx_reference_blocks;
    blocks.extend(note_blocks);
    let latest_block_num = inner.latest_block_num();
    match blocks.last() {
        Some(highest_block_num) => {
            if highest_block_num.0 > latest_block_num.0 {
                assert(exceeds_tip(inner@, blocks@)) by {
                    assert(blocks@.contains(highest_block_num));
                }
                return Err(
                    GetBatchInputsError::UnknownTransactionBlockReference {
                        highest_block_num,
                        latest_block_num,
                    },
                );
            }
        },
        None => {
            proof {
                assert forall|block: BlockNumber| !tx_blocks.contains(block) by {
                    assert(!blocks@.contains(block));
                }
                assert(tx_blocks =~= Set::<BlockNumber>::empty());
            }
        },
    }
    Ok(prove_inclusion(inner, blocks))
}

/// The headers without the one at a position, whose place the last one takes.
pub open spec fn without_header(headers: Seq<BlockHeader>, position: int) -> Seq<BlockHeader> {
    headers.update(position, headers.last()).drop_last()
}

/// Takes the header of the block to build on out of the headers that were read. Returns `None` if it
/// is not among them.
pub fn split_reference_header(headers: Vec<BlockHeader>, reference_block: BlockNumber) -> (r: Option<
    (BlockHeader, Vec<BlockHeader>),
>)
    ensures
        match r {
            None => forall|i: int|
                0 <= i < headers@.len() ==> (#[trigger] headers@[i]).block_num != reference_block,
            Some((header, rest)) => header.block_num == reference_block && exists|i: int|
                0 <= i < headers@.len() && #[trigger] headers@[i] == header && rest@
                    == without_header(headers@, i),
        },
{
    let mut rest = headers;
    let mut i: usize = 0;
    while i < rest.len()
        invariant
            i <= rest@.len(),
            rest@ == headers@,
            forall|k: int| 0 <= k < i ==> (#[trigger] rest@[k]).block_num != reference_block,
        decreases rest@.len() - i,
    {
        if rest[i].block_num == reference_block {
            let header = rest.swap_remove(i);
            proof {
                assert(headers@[i as int] == header);
                assert(rest@ =~= without_header(headers@, i as int));
            }
            return Some((header, rest));
        }
        i = i + 1;
    }
    None
}

// BLOCK INPUTS
// ================================================================================================

/// The inputs of a block that come from the chain and the trees. Witnesses are encoded.
pub struct BlockInputWitnesses {
    pub chain: ChainInputs,
    pub account_witnesses: Vec<(AccountId, Vec<u8>)>,
    pub nullifier_witnesses: Vec<(Word, Vec<u8>)>,
}

/// Whether all identifiers are valid.
pub open spec fn are_valid_ids(account_ids: Seq<AccountId>) -> bool {
    forall|i: int| 0 <= i < account_ids.len() ==> is_valid_account_id(#[trigger] account_ids[i])
}

/// Whether witnesses are those of the given accounts, in order.
pub open spec fn are_account_witnesses(
    witnesses: Seq<(AccountId, Vec<u8>)>,
    inner: InnerView,
    account_ids: Seq<AccountId>,
) -> bool {
    &&& witnesses.len() == account_ids.len()
    &&& forall|i: int|
        0 <= i < witnesses.len() ==> (#[trigger] witnesses[i]).0 == account_ids[i]
            && witnesses[i].1@ == account_witness_of(inner.accounts, account_ids[i])
}

/// Whether witnesses are those of the given nullifiers, in order.
pub open spec fn are_nullifier_witnesses(
    witnesses: Seq<(Word, Vec<u8>)>,
    inner: InnerView,
    nullifiers: Seq<Word>,
) -> bool {
    &&& witnesses.len() == nullifiers.len()
    &&& forall|i: int|
        0 <= i < witnesses.len() ==> (#[trigger] witnesses[i]).0 == nullifiers[i]
            && witnesses[i].1@ == nullifier_witness_of(inner.nullifiers, nullifiers[i])
}

/// Returns the inputs of a block that come from the chain and the trees: the proof that the given
/// blocks are part of the chain, and the witnesses of the given accounts and nullifiers.
pub fn get_block_inputs_witnesses(
    inner: &InnerState,
    blocks: BlockSet,
    account_ids: &Vec<AccountId>,
    nullifiers: &Vec<Word>,
) -> (r: Result<BlockInputWitnesses, GetBlockInputsError>)
    requires
        inner@.is_valid(),
        blocks.is_valid(),
        are_valid_ids(account_ids@),
        are_canonical(nullifiers@),
    ensures
        if exceeds_tip(inner@, blocks@) {
            r matches Err(
                GetBlockInputsError::UnknownBatchBlockReference {
                    highest_block_number,
                    latest_block_number,
                },
            ) && is_highest(blocks@, highest_block_number) && latest_block_number == inner@.tip()
        } else {
            r matches Ok(inputs) && are_chain_inputs(inputs.chain, inner@, blocks@)
                && are_account_witnesses(inputs.account_witnesses@, inner@, account_ids@)
                && are_nullifier_witnesses(inputs.nullifier_witnesses@, inner@, nullifiers@)
        },
{
    let latest_block_number = inner.latest_block_num();
    if let Some(highest_block_number) = blocks.last() {
        if highest_block_number.0 > latest_block_number.0 {
            assert(exceeds_tip(inner@, blocks@)) by {
                assert(blocks@.contains(highest_block_number));
            }
            return Err(
                GetBlockInputsError::UnknownBatchBlockReference {
                    highest_block_number,
                    latest_block_number,
                },
            );
        }
    }
    let chain = prove_inclusion(inner, blocks);
    let mut account_witnesses: Vec<(AccountId, Vec<u8>)> = Vec::new();
    let mut i: usize = 0;
    while i < account_ids.len()
        invariant
            i <= account_ids@.len(),
            inner@.is_valid(),
            are_valid_ids(account_ids@),
            are_account_witnesses(account_witnesses@, inner@, account_ids@.take(i as int)),
        decreases account_ids@.len() - i,
    {
        let account_id = account_ids[i];
        account_witnesses.push((account_id, account_witness(&inner.account_tree, account_id)));
        i = i + 1;
    }
    assert(account_ids@.take(i as int) =~= account_ids@);
    let mut nullifier_witnesses: Vec<(Word, Vec<u8>)> = Vec::new();
    let mut j: usize = 0;
    while j < nullifiers.len()
        invariant
            j <= nullifiers@.len(),
            are_canonical(nullifiers@),
            are_nullifier_witnesses(nullifier_witnesses@, inner@, nullifiers@.take(j as int)),
        decreases nullifiers@.len() - j,
    {
        let nullifier = nullifiers[j];
        nullifier_witnesses.push((nullifier, nullifier_witness(&inner.nullifier_tree, nullifier)));
        j = j + 1;
    }
    assert(nullifiers@.take(j as int) =~= nullifiers@);
    Ok(BlockInputWitnesses { chain, account_witnesses, nullifier_witnesses })
}

/// Returns the inputs of a block that come from the chain and the trees, where the block refers to
/// some blocks and its notes were created in others.
pub fn get_block_inputs(
    inner: &InnerState,
    account_ids: &Vec<AccountId>,
    nullifiers: &Vec<Word>,
    reference_blocks: BlockSet,
    note_blocks: &Vec<BlockNumber>,
) -> (r: Result<BlockInputWitnesses, GetBlockInputsError>)
    requires
        inner@.is_valid(),
        reference_blocks.is_valid(),
        are_valid_ids(account_ids@),
        are_canonical(nullifiers@),
    ensures
        ({
            let blocks = reference_blocks@.union(note_blocks@.to_set());
            if exceeds_tip(inner@, blocks) {
                r matches Err(
                    GetBlockInputsError::UnknownBatchBlockReference {
                        highest_block_number,
                        latest_block_number,
                    },
                ) && is_highest(blocks, highest_block_number) && latest_block_number
                    == inner@.tip()
            } else {
                r matches Ok(inputs) && are_chain_inputs(inputs.chain, inner@, blocks)
                    && are_account_witnesses(inputs.account_witnesses@, inner@, account_ids@)
                    && are_nullifier_witnesses(inputs.nullifier_witnesses@, inner@, nullifiers@)
            }
        }),
{
    let mut blocks = reference_blocks;
    blocks.extend(note_blocks);
    get_block_inputs_witnesses(inner, blocks, account_ids, nullifiers)
}

// TRANSACTION INPUTS
// ================================================================================================

/// A nullifier with the block that spent it. The genesis block stands for a nullifier that is not
/// spent.
#[derive(Clone, Copy, Debug, PartialEq, Eq, Structural)]
pub struct NullifierInfo {
    pub nullifier: Word,
    pub block_num: BlockNumber,
}

/// The inputs of a transaction.
#[derive(Clone, Debug, PartialEq, Eq)]
pub struct TransactionInputs {
    pub account_commitment: Word,
    pub nullifiers: Vec<NullifierInfo>,
    pub found_unauthenticated_notes: Vec<Word>,
    pub new_account_id_prefix_is_unique: Option<bool>,
}

/// Whether an account is not there yet, and another one with its prefix is.
pub open spec fn is_duplicate_account(inner: InnerView, account_id: AccountId) -> bool {
    &&& commitment_in(inner.accounts, account_id) == Word::empty()
    &&& has_prefix(inner.accounts, account_id.prefix)
}

/// The block that spent a nullifier, or the genesis block.
pub open spec fn nullifier_info(inner: InnerView, nullifier: Word) -> NullifierInfo {
    NullifierInfo {
        nullifier,
        block_num: if inner.nullifiers.contains_key(nullifier) {
            inner.nullifiers[nullifier]
        } else {
            BlockNumber(0)
        },
    }
}

/// Returns the inputs of a transaction that come from the trees. For a new account whose prefix is
/// taken nothing else is returned, and no notes are to be looked up.
pub fn get_transaction_inputs(
    inner: &InnerState,
    account_id: AccountId,
    nullifiers: &Vec<Word>,
    found_unauthenticated_notes: Vec<Word>,
) -> (r: TransactionInputs)
    requires
        is_valid_account_id(account_id),
        are_canonical(nullifiers@),
    ensures
        if is_duplicate_account(inner@, account_id) {
            &&& r.account_commitment == Word::empty()
            &&& r.nullifiers@.len() == 0
            &&& r.found_unauthenticated_notes@.len() == 0
            &&& r.new_account_id_prefix_is_unique == Some(false)
        } else {
            &&& r.account_commitment == commitment_in(inner@.accounts, account_id)
            &&& r.nullifiers@ == nullifiers@.map_values(
                |nullifier: Word| nullifier_info(inner@, nullifier),
            )
            &&& r.found_unauthenticated_notes == found_unauthenticated_notes
            &&& r.new_account_id_prefix_is_unique == (if r.account_commitment == Word::empty() {
                Some(true)
            } else {
                None
            })
        },
{
    let account_commitment = account_state(&inner.account_tree, account_id);
    let new_account_id_prefix_is_unique = if account_commitment.is_empty() {
        Some(!contains_prefix_of(&inner.account_tree, account_id))
    } else {
        None
    };
    if let Some(false) = new_account_id_prefix_is_unique {
        return TransactionInputs {
            account_commitment: Word::empty(),
            nullifiers: Vec::new(),
            found_unauthenticated_notes: Vec::new(),
            new_account_id_prefix_is_unique,
        };
    }
    let mut infos: Vec<NullifierInfo> = Vec::new();
    let ghost expected = nullifiers@.map_values(
        |nullifier: Word| nullifier_info(inner@, nullifier),
    );
    let mut i: usize = 0;
    while i < nullifiers.len()
        invariant
            i <= nullifiers@.len(),
            are_canonical(nullifiers@),
            expected == nullifiers@.map_values(
                |nullifier: Word| nullifier_info(inner@, nullifier),
            ),
            infos@ =~= expected.take(i as int),
        decreases nullifiers@.len() - i,
    {
        let nullifier = nullifiers[i];
        let block_num = match nullifier_block_num(&inner.nullifier_tree, nullifier) {
            Some(block_num) => block_num,
            None => BlockNumber::genesis(),
        };
        infos.push(NullifierInfo { nullifier, block_num });
        i = i + 1;
    }
    assert(infos@ =~= expected);
    TransactionInputs {
        account_commitment,
        nullifiers: infos,
        found_unauthenticated_notes,
        new_account_id_prefix_is_unique,
    }
}

// LAWS
// ================================================================================================

/// The inputs that the chain contributes build on the latest block: they hold all blocks that are
/// referred to but the latest, and prove that these are part of the chain before it.
pub proof fn lemma_inputs_build_on_the_latest_block(
    inputs: ChainInputs,
    inner: InnerView,
    blocks: Set<BlockNumber>,
)
    requires
        inner.is_valid(),
        are_chain_inputs(inputs, inner, blocks),
    ensures
        inputs.reference_block.0 == inner.blocks.len() - 1,
        forall|block: BlockNumber| #[trigger]
            inputs.blocks@.contains(block) <==> blocks.contains(block) && block.0
                != inner.blocks.len() - 1,
        forall|block: BlockNumber| #[trigger]
            tracked_blocks(inputs.partial_mmr).contains(block) <==> blocks.contains(block)
                && block.0 != inner.blocks.len() - 1,
        partial_chain_blocks(inputs.partial_mmr) == inner.blocks.take(inner.blocks.len() - 1),
{
}

/// A request that refers to a block past the latest one is refused, and told the highest block that it
/// refers to. No other request is.
pub proof fn lemma_blocks_past_the_tip(
    inner: InnerView,
    blocks: Set<BlockNumber>,
    highest: BlockNumber,
)
    requires
        inner.is_valid(),
    ensures
        exceeds_tip(inner, blocks) <==> exists|block: BlockNumber| #[trigger]
            blocks.contains(block) && block.0 >= inner.blocks.len(),
        is_highest(blocks, highest) <==> blocks.contains(highest) && forall|block: BlockNumber|
            #[trigger]
            blocks.contains(block) ==> block.0 <= highest.0,
        exceeds_tip(inner, blocks) && is_highest(blocks, highest) ==> highest.0
            >= inner.blocks.len(),
{
    if exceeds_tip(inner, blocks) {
        let block = choose|block: BlockNumber| #[trigger]
            blocks.contains(block) && block@ > inner.tip()@;
        assert(blocks.contains(block) && block.0 >= inner.blocks.len());
    }
    if exists|block: BlockNumber| #[trigger]
        blocks.contains(block) && block.0 >= inner.blocks.len() {
        let block = choose|block: BlockNumber| #[trigger]
            blocks.contains(block) && block.0 >= inner.blocks.len();
        assert(blocks.contains(block) && block@ > inner.tip()@);
    }
}

/// The witnesses of a block are those of all accounts and nullifiers that are asked for, in order, in
/// the trees of the state.
pub proof fn lemma_witnesses_are_complete(
    accounts: Seq<(AccountId, Vec<u8>)>,
    nullifiers: Seq<(Word, Vec<u8>)>,
    inner: InnerView,
    account_ids: Seq<AccountId>,
    words: Seq<Word>,
)
    requires
        are_account_witnesses(accounts, inner, account_ids),
        are_nullifier_witnesses(nullifiers, inner, words),
    ensures
        accounts.len() == account_ids.len(),
        forall|i: int|
            0 <= i < account_ids.len() ==> (#[trigger] accounts[i]).0 == account_ids[i]
                && accounts[i].1@ == account_witness_of(inner.accounts, account_ids[i]),
        nullifiers.len() == words.len(),
        forall|i: int|
            0 <= i < words.len() ==> (#[trigger] nullifiers[i]).0 == words[i] && nullifiers[i].1@
                == nullifier_witness_of(inner.nullifiers, words[i]),
{
}

/// The header of the block to build on is taken out, and all other headers stay.
pub proof fn lemma_other_headers_stay(headers: Seq<BlockHeader>, position: int)
    requires
        0 <= position < headers.len(),
    ensures
        without_header(headers, position).len() == headers.len() - 1,
        without_header(headers, position).to_multiset() == headers.to_multiset().remove(
            headers[position],
        ),
{
    let last = headers.len() - 1;
    let swapped = headers.update(position, headers.last());
    broadcast use vstd::seq_lib::group_to_multiset_ensures;

    vstd::seq_lib::to_multiset_update(headers, position, headers.last());
    vstd::seq_lib::to_multiset_remove(swapped, last);
    assert(swapped.remove(last) =~= swapped.drop_last());
    assert(without_header(headers, position).to_multiset() =~= headers.to_multiset().remove(
        headers[position],
    ));
}

/// What the inputs of a transaction say of the trees: the prefix of a new account is taken exactly if
/// another account has it, and a nullifier that is not spent has the genesis block.
pub proof fn lemma_transaction_inputs_tell_of_the_trees(
    inner: InnerView,
    account_id: AccountId,
    nullifier: Word,
)
    requires
        forall|block: Word| #[trigger]
            inner.nullifiers.contains_key(block) ==> inner.nullifiers[block].0 > 0,
    ensures
        is_duplicate_account(inner, account_id) <==> (!inner.accounts.contains_key(account_id)
            || inner.accounts[account_id] == Word(0, 0, 0, 0)) && exists|other: AccountId|
            #[trigger]
            inner.accounts.contains_key(other) && other.prefix == account_id.prefix,
        commitment_in(inner.accounts, account_id) == (if inner.accounts.contains_key(account_id) {
            inner.accounts[account_id]
        } else {
            Word(0, 0, 0, 0)
        }),
        nullifier_info(inner, nullifier).nullifier == nullifier,
        nullifier_info(inner, nullifier).block_num.0 == 0 <==> !inner.nullifiers.contains_key(
            nullifier,
        ),
        inner.nullifiers.contains_key(nullifier) ==> nullifier_info(inner, nullifier).block_num
            == inner.nullifiers[nullifier],
{
}

} // verus!
