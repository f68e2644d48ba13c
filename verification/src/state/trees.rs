//! The trees and the chain of blocks that the store keeps in memory.

use miden_protocol::block::account_tree::{AccountMutationSet, AccountTree};
use miden_protocol::block::nullifier_tree::{NullifierMutationSet, NullifierTree};
use miden_protocol::block::{BlockNumber as ProtocolBlockNumber, Blockchain};
use miden_protocol::crypto::merkle::mmr::{Forest, PartialMmr};
use miden_protocol::crypto::merkle::smt::{LargeSmt, MemoryStorage};
use miden_protocol::note::Nullifier;
use miden_protocol::utils::serde::Serializable;
use miden_protocol::Felt;
use vstd::prelude::*;

use crate::account_id::AccountId;
use crate::block_number::BlockNumber;
use crate::protocol::is_valid_account_id;
use crate::smt_forest::{count_in_leaf, count_with_last_element, MAX_SMT_LEAF_ENTRIES};
use crate::word::Word;

verus! {

// NULLIFIERS
// ================================================================================================

/// The tree of spent nullifiers: a `NullifierTree` over a `LargeSmt` in memory.
#[verifier::external_body]
pub struct SpentNullifiers {
    tree: NullifierTree<LargeSmt<MemoryStorage>>,
}

/// Changes of the tree of nullifiers.
#[verifier::external_type_specification]
#[verifier::external_body]
pub struct ExNullifierMutationSet(NullifierMutationSet);

/// The spent nullifiers of a tree with the blocks that spent them.
pub uninterp spec fn nullifier_blocks(tree: SpentNullifiers) -> vstd::map::Map<Word, BlockNumber>;

/// The spent nullifiers of the tree that changes were computed for.
pub uninterp spec fn nullifiers_before(changes: NullifierMutationSet) -> vstd::map::Map<
    Word,
    BlockNumber,
>;

/// The spent nullifiers of the tree once the changes were applied.
pub uninterp spec fn nullifiers_after(changes: NullifierMutationSet) -> vstd::map::Map<
    Word,
    BlockNumber,
>;

/// The root that `NullifierTree::root` returns for a tree with the given spent nullifiers.
pub uninterp spec fn nullifier_root_of(spent: vstd::map::Map<Word, BlockNumber>) -> Word;

/// The number of spent nullifiers with the given last element, which share a leaf of the tree.
pub open spec fn spent_in_leaf(spent: vstd::map::Map<Word, BlockNumber>, element: u64) -> nat {
    spent.dom().filter(|nullifier: Word| nullifier.3 == element).len()
}

/// Whether nullifiers can be added to a tree: no leaf gets too many of them.
pub open spec fn fits_nullifiers(
    spent: vstd::map::Map<Word, BlockNumber>,
    nullifiers: Seq<Word>,
) -> bool {
    forall|i: int|
        0 <= i < nullifiers.len() ==> {
            let element = (#[trigger] nullifiers[i]).3;
            spent_in_leaf(spent, element) + count_with_last_element(nullifiers, element)
                <= MAX_SMT_LEAF_ENTRIES
        }
}

/// The spent nullifiers once further ones were spent at a block.
pub open spec fn with_spent(
    spent: vstd::map::Map<Word, BlockNumber>,
    nullifiers: Seq<Word>,
    block_num: BlockNumber,
) -> vstd::map::Map<Word, BlockNumber>
    decreases nullifiers.len(),
{
    if nullifiers.len() == 0 {
        spent
    } else {
        with_spent(spent, nullifiers.drop_last(), block_num).insert(nullifiers.last(), block_num)
    }
}

/// Whether one of the nullifiers is spent.
pub open spec fn any_spent(spent: vstd::map::Map<Word, BlockNumber>, nullifiers: Seq<Word>) -> bool {
    exists|i: int| 0 <= i < nullifiers.len() && spent.contains_key(#[trigger] nullifiers[i])
}

/// Whether all words are canonical.
pub open spec fn are_canonical(words: Seq<Word>) -> bool {
    forall|i: int| 0 <= i < words.len() ==> (#[trigger] words[i]).is_canonical()
}

/// Creates a tree without spent nullifiers by `LargeSmt::new` and `NullifierTree::new_unchecked`.
#[verifier::external_body]
fn new_nullifier_tree() -> (r: SpentNullifiers)
    ensures
        nullifier_blocks(r).dom() == Set::<Word>::empty(),
{
    let smt = LargeSmt::new(MemoryStorage::new()).expect("storage in memory does not fail");
    SpentNullifiers { tree: NullifierTree::new_unchecked(smt) }
}

impl SpentNullifiers {
    /// Creates a tree without spent nullifiers.
    pub fn new() -> (r: Self)
        ensures
            nullifier_blocks(r) == vstd::map::Map::<Word, BlockNumber>::empty(),
    {
        let tree = new_nullifier_tree();
        assert(nullifier_blocks(tree) =~= vstd::map::Map::empty());
        tree
    }
}

/// The block that spent a nullifier by `NullifierTree::get_block_num`, or `None` if it is not spent.
#[verifier::external_body]
pub(crate) fn nullifier_block_num(tree: &SpentNullifiers, nullifier: Word) -> (r: Option<
    BlockNumber,
>)
    requires
        nullifier.is_canonical(),
    ensures
        r == (if nullifier_blocks(*tree).contains_key(nullifier) {
            Some(nullifier_blocks(*tree)[nullifier])
        } else {
            None
        }),
{
    let Word(a, b, c, d) = nullifier;
    let nullifier = Nullifier::from_raw([a, b, c, d].map(Felt::new).into());
    tree.tree.get_block_num(&nullifier).map(|block_num| BlockNumber(block_num.as_u32()))
}

/// The number of spent nullifiers in the leaf of a nullifier, by `NullifierTree::open`, whose proof
/// holds the leaf, and `SmtLeaf::num_entries`. The leaf holds the spent nullifiers with the same last
/// element.
#[verifier::external_body]
fn nullifier_leaf_len(tree: &SpentNullifiers, nullifier: Word) -> (r: usize)
    requires
        nullifier.is_canonical(),
    ensures
        r == spent_in_leaf(nullifier_blocks(*tree), nullifier.3),
{
    let Word(a, b, c, d) = nullifier;
    let nullifier = Nullifier::from_raw([a, b, c, d].map(Felt::new).into());
    tree.tree.open(&nullifier).proof().leaf().num_entries()
}

/// Returns whether nullifiers are canonical and can be added to a tree: no leaf gets too many of them.
pub fn check_created_nullifiers(tree: &SpentNullifiers, nullifiers: &Vec<Word>) -> (r: bool)
    ensures
        r == (are_canonical(nullifiers@) && fits_nullifiers(nullifier_blocks(*tree), nullifiers@)),
{
    let ghost spent = nullifier_blocks(*tree);
    let mut i: usize = 0;
    while i < nullifiers.len()
        invariant
            i <= nullifiers@.len(),
            spent == nullifier_blocks(*tree),
            forall|k: int| 0 <= k < i ==> (#[trigger] nullifiers@[k]).is_canonical(),
            forall|k: int|
                0 <= k < i ==> {
                    let element = (#[trigger] nullifiers@[k]).3;
                    spent_in_leaf(spent, element) + count_with_last_element(nullifiers@, element)
                        <= MAX_SMT_LEAF_ENTRIES
                },
        decreases nullifiers@.len() - i,
    {
        let nullifier = nullifiers[i];
        if !nullifier.check_canonical() {
            return false;
        }
        let spent_count: usize = nullifier_leaf_len(tree, nullifier);
        let added_count: usize = count_in_leaf(nullifiers, nullifier.3);
        if added_count > MAX_SMT_LEAF_ENTRIES || spent_count > MAX_SMT_LEAF_ENTRIES - added_count {
            assert(spent_in_leaf(spent, nullifiers@[i as int].3) + count_with_last_element(
                nullifiers@,
                nullifiers@[i as int].3,
            ) > MAX_SMT_LEAF_ENTRIES);
            return false;
        }
        i = i + 1;
    }
    true
}

/// The root of the tree by `NullifierTree::root`.
#[verifier::external_body]
pub(crate) fn nullifier_root(tree: &SpentNullifiers) -> (r: Word)
    ensures
        r == nullifier_root_of(nullifier_blocks(*tree)),
{
    let [a, b, c, d] = tree.tree.root().into_elements().map(|element| element.as_canonical_u64());
    Word(a, b, c, d)
}

/// The changes by which nullifiers become spent at a block, by `NullifierTree::compute_mutations`,
/// which fails if one of them is spent.
#[verifier::external_body]
pub(crate) fn compute_nullifier_changes(
    tree: &SpentNullifiers,
    nullifiers: &Vec<Word>,
    block_num: BlockNumber,
) -> (r: Option<NullifierMutationSet>)
    requires
        are_canonical(nullifiers@),
        block_num@ > 0,
        fits_nullifiers(nullifier_blocks(*tree), nullifiers@),
    ensures
        r is Some <==> !any_spent(nullifier_blocks(*tree), nullifiers@),
        r matches Some(changes) ==> nullifiers_before(changes) == nullifier_blocks(*tree)
            && nullifiers_after(changes) == with_spent(
            nullifier_blocks(*tree),
            nullifiers@,
            block_num,
        ),
{
    let block_num = ProtocolBlockNumber::from(block_num.0);
    let nullifiers: Vec<_> = nullifiers.iter().map(|nullifier| {
        let Word(a, b, c, d) = *nullifier;
        (Nullifier::from_raw([a, b, c, d].map(Felt::new).into()), block_num)
    }).collect();
    tree.tree.compute_mutations(nullifiers).ok()
}

/// The root of the changed tree by `MutationSet::root`.
#[verifier::external_body]
pub(crate) fn changed_nullifier_root(changes: &NullifierMutationSet) -> (r: Word)
    ensures
        r == nullifier_root_of(nullifiers_after(*changes)),
{
    let root = changes.as_mutation_set().root();
    let [a, b, c, d] = root.into_elements().map(|element| element.as_canonical_u64());
    Word(a, b, c, d)
}

/// Applies changes by `NullifierTree::apply_mutations`, which takes changes that were computed for a
/// tree with the same root. Of changes that were computed for other contents with the same root
/// nothing is said.
#[verifier::external_body]
pub(crate) fn apply_nullifier_changes(tree: &mut SpentNullifiers, changes: NullifierMutationSet)
    requires
        nullifier_root_of(nullifiers_before(changes)) == nullifier_root_of(
            nullifier_blocks(*old(tree)),
        ),
    ensures
        nullifiers_before(changes) == nullifier_blocks(*old(tree)) ==> nullifier_blocks(
            *final(tree),
        ) == nullifiers_after(changes),
{
    tree.tree.apply_mutations(changes).expect("changes that were computed for this tree");
}

/// The encoding of the witness that `NullifierTree::open` returns for a nullifier in a tree with the
/// given spent nullifiers.
pub uninterp spec fn nullifier_witness_of(
    spent: vstd::map::Map<Word, BlockNumber>,
    nullifier: Word,
) -> Seq<u8>;

/// The encoded witness of whether and when a nullifier was spent, by `NullifierTree::open`.
#[verifier::external_body]
pub(crate) fn nullifier_witness(tree: &SpentNullifiers, nullifier: Word) -> (r: Vec<u8>)
    requires
        nullifier.is_canonical(),
    ensures
        r@ == nullifier_witness_of(nullifier_blocks(*tree), nullifier),
{
    let Word(a, b, c, d) = nullifier;
    let nullifier = Nullifier::from_raw([a, b, c, d].map(Felt::new).into());
    tree.tree.open(&nullifier).to_bytes()
}

// ACCOUNTS
// ================================================================================================

/// The tree of account commitments: an `AccountTree` over a `LargeSmt` in memory.
#[verifier::external_body]
pub struct AccountCommitments {
    tree: AccountTree<LargeSmt<MemoryStorage>>,
}

/// Changes of the tree of accounts.
#[verifier::external_type_specification]
#[verifier::external_body]
pub struct ExAccountMutationSet(AccountMutationSet);

/// The accounts of a tree with their commitments.
pub uninterp spec fn account_states(tree: AccountCommitments) -> vstd::map::Map<AccountId, Word>;

/// The accounts of the tree that changes were computed for.
pub uninterp spec fn accounts_before(changes: AccountMutationSet) -> vstd::map::Map<
    AccountId,
    Word,
>;

/// The accounts of the tree once the changes were applied.
pub uninterp spec fn accounts_after(changes: AccountMutationSet) -> vstd::map::Map<
    AccountId,
    Word,
>;

/// The root that `AccountTree::root` returns for a tree with the given accounts.
pub uninterp spec fn account_root_of(accounts: vstd::map::Map<AccountId, Word>) -> Word;

/// The commitment of an account, which is empty if there is no such account.
pub open spec fn commitment_in(
    accounts: vstd::map::Map<AccountId, Word>,
    account_id: AccountId,
) -> Word {
    if accounts.contains_key(account_id) {
        accounts[account_id]
    } else {
        Word::empty()
    }
}

/// Whether no two accounts have the same prefix.
pub open spec fn has_unique_prefixes(accounts: vstd::map::Map<AccountId, Word>) -> bool {
    forall|a: AccountId, b: AccountId|
        accounts.contains_key(a) && accounts.contains_key(b) && a.prefix == b.prefix ==> a == b
}

/// Whether there is an account with the prefix.
pub open spec fn has_prefix(accounts: vstd::map::Map<AccountId, Word>, prefix: u64) -> bool {
    exists|id: AccountId| #[trigger] accounts.contains_key(id) && id.prefix == prefix
}

/// Whether all updates name valid accounts by different prefixes, with canonical commitments. An update
/// may be there more than once.
pub open spec fn are_account_updates(updates: Seq<(AccountId, Word)>) -> bool {
    &&& forall|i: int|
        0 <= i < updates.len() ==> is_valid_account_id((#[trigger] updates[i]).0)
            && updates[i].1.is_canonical()
    &&& forall|i: int, j: int|
        0 <= i < j < updates.len() ==> (#[trigger] updates[i]).0.prefix != (
        #[trigger] updates[j]).0.prefix || updates[i] == updates[j]
}

/// Whether an update would add an account with the prefix of another one.
pub open spec fn conflicts_with(
    accounts: vstd::map::Map<AccountId, Word>,
    update: (AccountId, Word),
) -> bool {
    &&& commitment_in(accounts, update.0) != update.1
    &&& exists|id: AccountId| #[trigger]
        accounts.contains_key(id) && id.prefix == update.0.prefix && id != update.0
}

/// Whether one of the updates would add an account with the prefix of another one.
pub open spec fn any_conflict(
    accounts: vstd::map::Map<AccountId, Word>,
    updates: Seq<(AccountId, Word)>,
) -> bool {
    exists|i: int| 0 <= i < updates.len() && conflicts_with(accounts, #[trigger] updates[i])
}

/// The accounts once their commitments were updated. An empty commitment removes an account.
pub open spec fn with_updates(
    accounts: vstd::map::Map<AccountId, Word>,
    updates: Seq<(AccountId, Word)>,
) -> vstd::map::Map<AccountId, Word>
    decreases updates.len(),
{
    if updates.len() == 0 {
        accounts
    } else {
        let before = with_updates(accounts, updates.drop_last());
        let (account_id, commitment) = updates.last();
        if commitment == Word::empty() {
            before.remove(account_id)
        } else {
            before.insert(account_id, commitment)
        }
    }
}

/// Creates a tree without accounts by `LargeSmt::new` and `AccountTree::new_unchecked`.
#[verifier::external_body]
fn new_account_tree() -> (r: AccountCommitments)
    ensures
        account_states(r).dom() == Set::<AccountId>::empty(),
{
    let smt = LargeSmt::new(MemoryStorage::new()).expect("storage in memory does not fail");
    AccountCommitments { tree: AccountTree::new_unchecked(smt) }
}

impl AccountCommitments {
    /// Creates a tree without accounts.
    pub fn new() -> (r: Self)
        ensures
            account_states(r) == vstd::map::Map::<AccountId, Word>::empty(),
            has_unique_prefixes(account_states(r)),
    {
        let tree = new_account_tree();
        assert(account_states(tree) =~= vstd::map::Map::empty());
        tree
    }
}

/// The commitment of an account by `AccountTree::get`.
#[verifier::external_body]
pub(crate) fn account_state(tree: &AccountCommitments, account_id: AccountId) -> (r: Word)
    requires
        is_valid_account_id(account_id),
    ensures
        r == commitment_in(account_states(*tree), account_id),
{
    let suffix = Felt::new(account_id.suffix);
    let id = miden_protocol::account::AccountId::try_from_elements(
        suffix,
        Felt::new(account_id.prefix),
    ).expect("valid account identifier");
    let [a, b, c, d] = tree.tree.get(id).into_elements().map(|element| element.as_canonical_u64());
    Word(a, b, c, d)
}

/// Whether there is an account with the prefix of an account, by
/// `AccountTree::contains_account_id_prefix`.
#[verifier::external_body]
pub(crate) fn contains_prefix_of(tree: &AccountCommitments, account_id: AccountId) -> (r: bool)
    requires
        is_valid_account_id(account_id),
    ensures
        r == has_prefix(account_states(*tree), account_id.prefix),
{
    let suffix = Felt::new(account_id.suffix);
    let id = miden_protocol::account::AccountId::try_from_elements(
        suffix,
        Felt::new(account_id.prefix),
    ).expect("valid account identifier");
    tree.tree.contains_account_id_prefix(id.prefix())
}

/// The root of the tree by `AccountTree::root`.
#[verifier::external_body]
pub(crate) fn account_root(tree: &AccountCommitments) -> (r: Word)
    ensures
        r == account_root_of(account_states(*tree)),
{
    let [a, b, c, d] = tree.tree.root().into_elements().map(|element| element.as_canonical_u64());
    Word(a, b, c, d)
}

/// The changes by which accounts get new commitments, by `AccountTree::compute_mutations`, which
/// fails if an account would be added with the prefix of another one. An update that is there again
/// changes nothing. Which of two updates of an account with different commitments counts is open,
/// since the updates are sorted by an unstable sort.
#[verifier::external_body]
pub(crate) fn compute_account_changes(
    tree: &AccountCommitments,
    updates: &Vec<(AccountId, Word)>,
) -> (r: Option<AccountMutationSet>)
    requires
        has_unique_prefixes(account_states(*tree)),
        are_account_updates(updates@),
    ensures
        r is Some <==> !any_conflict(account_states(*tree), updates@),
        r matches Some(changes) ==> accounts_before(changes) == account_states(*tree)
            && accounts_after(changes) == with_updates(account_states(*tree), updates@),
{
    let updates: Vec<_> = updates.iter().map(|(id, commitment)| {
        let (suffix, prefix) = (Felt::new(id.suffix), Felt::new(id.prefix));
        let id = miden_protocol::account::AccountId::try_from_elements(suffix, prefix);
        let Word(a, b, c, d) = *commitment;
        (id.expect("valid account identifier"), [a, b, c, d].map(Felt::new).into())
    }).collect();
    tree.tree.compute_mutations(updates).ok()
}

/// The root of the changed tree by `MutationSet::root`.
#[verifier::external_body]
pub(crate) fn changed_account_root(changes: &AccountMutationSet) -> (r: Word)
    ensures
        r == account_root_of(accounts_after(*changes)),
{
    let root = changes.as_mutation_set().root();
    let [a, b, c, d] = root.into_elements().map(|element| element.as_canonical_u64());
    Word(a, b, c, d)
}

/// Applies changes by `AccountTree::apply_mutations`, which takes changes that were computed for a
/// tree with the same root. Of changes that were computed for other contents with the same root
/// nothing is said.
#[verifier::external_body]
pub(crate) fn apply_account_changes(tree: &mut AccountCommitments, changes: AccountMutationSet)
    requires
        account_root_of(accounts_before(changes)) == account_root_of(account_states(*old(tree))),
    ensures
        accounts_before(changes) == account_states(*old(tree)) ==> account_states(*final(tree))
            == accounts_after(changes),
{
    tree.tree.apply_mutations(changes).expect("changes that were computed for this tree");
}

/// The encoding of the witness that `AccountTree::open` returns for an account in a tree with the
/// given accounts.
pub uninterp spec fn account_witness_of(
    accounts: vstd::map::Map<AccountId, Word>,
    account_id: AccountId,
) -> Seq<u8>;

/// The encoded witness of the commitment of an account, by `AccountTree::open`.
#[verifier::external_body]
pub(crate) fn account_witness(tree: &AccountCommitments, account_id: AccountId) -> (r: Vec<u8>)
    requires
        is_valid_account_id(account_id),
        has_unique_prefixes(account_states(*tree)),
    ensures
        r@ == account_witness_of(account_states(*tree), account_id),
{
    let suffix = Felt::new(account_id.suffix);
    let id = miden_protocol::account::AccountId::try_from_elements(
        suffix,
        Felt::new(account_id.prefix),
    ).expect("valid account identifier");
    tree.tree.open(id).to_bytes()
}

// CHAIN
// ================================================================================================

/// The chain of blocks of the protocol library.
#[verifier::external_type_specification]
#[verifier::external_body]
pub struct ExBlockchain(Blockchain);

/// The chain commitment and some of the blocks of a chain with proofs of their inclusion.
#[verifier::external_type_specification]
#[verifier::external_body]
pub struct ExPartialMmr(PartialMmr);

/// The commitments of the blocks of a chain, from the genesis block on.
pub uninterp spec fn chain_blocks(chain: Blockchain) -> Seq<Word>;

/// The chain commitment that `Blockchain::commitment` returns for a chain with the given blocks.
pub uninterp spec fn chain_commitment_of(blocks: Seq<Word>) -> Word;

/// The blocks of the chain that a `PartialMmr` stands for.
pub uninterp spec fn partial_chain_blocks(partial: PartialMmr) -> Seq<Word>;

/// The blocks whose inclusion a `PartialMmr` proves.
pub uninterp spec fn tracked_blocks(partial: PartialMmr) -> Set<BlockNumber>;

/// Creates a chain without blocks by `Blockchain::new`.
#[verifier::external_body]
pub(crate) fn new_chain() -> (r: Blockchain)
    ensures
        chain_blocks(r) == Seq::<Word>::empty(),
{
    Blockchain::new()
}

/// Adds a block by `Blockchain::push`.
#[verifier::external_body]
pub(crate) fn push_block(chain: &mut Blockchain, block_commitment: Word)
    requires
        block_commitment.is_canonical(),
    ensures
        chain_blocks(*final(chain)) == chain_blocks(*old(chain)).push(block_commitment),
{
    let Word(a, b, c, d) = block_commitment;
    chain.push([a, b, c, d].map(Felt::new).into());
}

/// The number of the latest block by `Blockchain::chain_tip`, or `None` if there are no blocks.
#[verifier::external_body]
pub(crate) fn chain_tip(chain: &Blockchain) -> (r: Option<BlockNumber>)
    requires
        chain_blocks(*chain).len() <= u32::MAX,
    ensures
        chain_blocks(*chain).len() == 0 ==> r is None,
        chain_blocks(*chain).len() > 0 ==> r == Some(
            BlockNumber((chain_blocks(*chain).len() - 1) as u32),
        ),
{
    chain.chain_tip().map(|block_num| BlockNumber(block_num.as_u32()))
}

/// The chain commitment by `Blockchain::peaks` and `MmrPeaks::hash_peaks`.
#[verifier::external_body]
pub(crate) fn chain_commitment(chain: &Blockchain) -> (r: Word)
    ensures
        r == chain_commitment_of(chain_blocks(*chain)),
{
    let commitment = chain.peaks().hash_peaks();
    let [a, b, c, d] = commitment.into_elements().map(|element| element.as_canonical_u64());
    Word(a, b, c, d)
}

/// Proves the inclusion of blocks in the chain as it was before a block, by
/// `Blockchain::partial_mmr_from_blocks`.
#[verifier::external_body]
pub(crate) fn partial_mmr_from_blocks(
    chain: &Blockchain,
    blocks: &Vec<BlockNumber>,
    checkpoint: BlockNumber,
) -> (r: PartialMmr)
    requires
        checkpoint@ <= chain_blocks(*chain).len(),
        forall|i: int| 0 <= i < blocks@.len() ==> (#[trigger] blocks@[i])@ < checkpoint@,
    ensures
        partial_chain_blocks(r) == chain_blocks(*chain).take(checkpoint@),
        tracked_blocks(r) == blocks@.to_set(),
{
    let blocks = blocks.iter().map(|block| ProtocolBlockNumber::from(block.0)).collect();
    let checkpoint = ProtocolBlockNumber::from(checkpoint.0);
    chain.partial_mmr_from_blocks(&blocks, checkpoint).expect("blocks before the checkpoint")
}

/// A proof that a block is part of a chain: how many blocks the chain has, which of them the block
/// is, its commitment, and the path to it.
#[derive(Clone, Debug, PartialEq, Eq)]
pub struct BlockInclusionProof {
    pub chain_length: usize,
    pub position: usize,
    pub block_commitment: Word,
    pub path: Vec<Word>,
}

/// The path that `Mmr::open_at` returns for a position in a chain with the given blocks.
pub uninterp spec fn block_path_of(blocks: Seq<Word>, position: nat) -> Seq<Word>;

/// Whether a value proves that a block is part of a chain.
pub open spec fn proves_inclusion(
    opened: BlockInclusionProof,
    blocks: Seq<Word>,
    block_num: BlockNumber,
) -> bool {
    &&& opened.chain_length == blocks.len()
    &&& opened.position == block_num@
    &&& opened.block_commitment == blocks[block_num@]
    &&& opened.path@ == block_path_of(blocks, block_num@ as nat)
}

/// Proves that a block is part of the chain as it was before another block, by
/// `Blockchain::open_at`, which fails if it is not, or if the chain has not so many blocks.
#[verifier::external_body]
pub(crate) fn open_block_at(
    chain: &Blockchain,
    block_num: BlockNumber,
    checkpoint: BlockNumber,
) -> (r: Option<BlockInclusionProof>)
    ensures
        r is Some <==> block_num@ + 1 <= checkpoint@ <= chain_blocks(*chain).len(),
        r matches Some(opened) ==> opened.chain_length == checkpoint@ && opened.position
            == block_num@ && opened.block_commitment == chain_blocks(*chain)[block_num@],
        r matches Some(opened) ==> opened.path@ == block_path_of(
            chain_blocks(*chain).take(checkpoint@),
            block_num@ as nat,
        ),
{
    let checkpoint = ProtocolBlockNumber::from(checkpoint.0);
    let proof = chain.open_at(ProtocolBlockNumber::from(block_num.0), checkpoint).ok()?;
    let word = |w: miden_protocol::Word| {
        let [a, b, c, d] = w.into_elements().map(|element| element.as_canonical_u64());
        Word(a, b, c, d)
    };
    Some(BlockInclusionProof {
        chain_length: proof.forest().num_leaves(),
        position: proof.position(),
        block_commitment: word(proof.leaf()),
        path: proof.merkle_path().nodes().iter().map(|node| word(*node)).collect(),
    })
}

/// Proves that a block is part of the chain, by `Blockchain::open`, which fails if it is not.
#[verifier::external_body]
pub(crate) fn open_block(chain: &Blockchain, block_num: BlockNumber) -> (r: Option<
    BlockInclusionProof,
>)
    ensures
        r is Some <==> block_num@ + 1 <= chain_blocks(*chain).len(),
        r matches Some(opened) ==> opened.chain_length == chain_blocks(*chain).len()
            && opened.position == block_num@ && opened.block_commitment == chain_blocks(
            *chain,
        )[block_num@],
        r matches Some(opened) ==> opened.path@ == block_path_of(
            chain_blocks(*chain),
            block_num@ as nat,
        ),
{
    let proof = chain.open(ProtocolBlockNumber::from(block_num.0)).ok()?;
    let word = |w: miden_protocol::Word| {
        let [a, b, c, d] = w.into_elements().map(|element| element.as_canonical_u64());
        Word(a, b, c, d)
    };
    Some(BlockInclusionProof {
        chain_length: proof.forest().num_leaves(),
        position: proof.position(),
        block_commitment: word(proof.leaf()),
        path: proof.merkle_path().nodes().iter().map(|node| word(*node)).collect(),
    })
}

/// The peaks that `Mmr::peaks_at` returns for a chain with the given blocks.
pub uninterp spec fn chain_peaks_of(blocks: Seq<Word>) -> Seq<Word>;

/// The peaks of the chain as it was before a block, by `Blockchain::peaks_at`, which fails if the
/// chain has not so many blocks.
#[verifier::external_body]
pub(crate) fn chain_peaks_at(chain: &Blockchain, checkpoint: BlockNumber) -> (r: Option<Vec<Word>>)
    ensures
        r is Some <==> checkpoint@ <= chain_blocks(*chain).len(),
        r matches Some(peaks) ==> peaks@ == chain_peaks_of(chain_blocks(*chain).take(checkpoint@)),
{
    let peaks = chain.peaks_at(ProtocolBlockNumber::from(checkpoint.0)).ok()?;
    let peaks = peaks.peaks().iter().map(|peak| {
        let [a, b, c, d] = peak.into_elements().map(|element| element.as_canonical_u64());
        Word(a, b, c, d)
    });
    Some(peaks.collect())
}

/// The data that `Mmr::get_delta` returns for the step from the first blocks to more blocks of a
/// chain with the given blocks.
pub uninterp spec fn chain_delta_of(blocks: Seq<Word>, from: nat) -> Seq<Word>;

/// The data by which a chain of `from` blocks becomes one of `to` blocks, by `Mmr::get_delta`, which
/// fails if the chain has not so many blocks or the step goes backwards.
#[verifier::external_body]
pub(crate) fn chain_delta(chain: &Blockchain, from: usize, to: usize) -> (r: Option<Vec<Word>>)
    ensures
        r is Some <==> from <= to <= chain_blocks(*chain).len(),
        r matches Some(data) ==> data@ == chain_delta_of(
            chain_blocks(*chain).take(to as int),
            from as nat,
        ),
{
    let delta = chain.as_mmr().get_delta(Forest::new(from), Forest::new(to)).ok()?;
    let data = delta.data.iter().map(|node| {
        let [a, b, c, d] = node.into_elements().map(|element| element.as_canonical_u64());
        Word(a, b, c, d)
    });
    Some(data.collect())
}

} // verus!
