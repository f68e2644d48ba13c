//! The genesis block: how it is built from the accounts that exist from the start, and what makes a
//! block a genesis block.

use miden_protocol::block::{
    BlockHeader as ProtocolBlockHeader, BlockNumber as ProtocolBlockNumber, FeeParameters,
};
use miden_protocol::crypto::dsa::ecdsa_k256_keccak::{PublicKey, SecretKey, Signature};
use miden_protocol::transaction::TransactionKernel;
use miden_protocol::utils::serde::{Deserializable, Serializable};
use miden_protocol::Felt;
use vstd::prelude::*;

use crate::account_id::AccountId;
use crate::block_number::BlockNumber;
use crate::bytes::equal_bytes;
use crate::db::conv::{collect_results, lemma_collect_first_error, lemma_collect_prefix_error, lemma_collect_step, lemma_collect_values};
use crate::db::entries::pairs_by_key;
use crate::db::updates::{AccountUpdateDetails, BlockAccountUpdate, FullAccountState};
use crate::protocol::{account_commitment, account_commitment_of, is_valid_account_id};
use crate::state::account::AccountHeader;
use crate::state::apply_block::{
    block_note_tree, commitment_updates, note_leaves, note_root, note_root_of, BlockBody,
    BlockHeader,
};
use crate::state::trees::{
    account_root_of, are_account_updates, chain_commitment, chain_commitment_of,
    changed_account_root, compute_account_changes, new_chain, nullifier_root, nullifier_root_of,
    with_updates, AccountCommitments, SpentNullifiers,
};
use crate::word::Word;

verus! {

// GENESIS STATE
// ================================================================================================

/// An account that exists from the start. A new account that no transaction created yet has a seed.
#[derive(Clone, Debug, PartialEq, Eq)]
pub struct GenesisAccount {
    pub header: AccountHeader,
    pub state: FullAccountState,
    pub seed: Option<Word>,
}

/// The state at genesis, from which the genesis block is derived. The fee parameters and the key of
/// the validator are encoded.
#[derive(Clone, Debug, PartialEq, Eq)]
pub struct GenesisState {
    pub accounts: Vec<GenesisAccount>,
    pub fee_parameters: Vec<u8>,
    pub version: u32,
    pub timestamp: u32,
    pub validator_key: Vec<u8>,
}

/// Errors of building or reading the genesis block.
#[derive(Clone, Debug, PartialEq, Eq)]
pub enum GenesisError {
    /// A public account has a seed, so its state is no change of an existing account.
    AccountWithSeed(AccountId),
    /// The fee parameters or the key of the validator are no encoding of one.
    InvalidHeader,
    /// The block is not the first one.
    NotGenesis(BlockNumber),
    /// The signature is not one of the header by the validator.
    InvalidSignature,
}

/// Whether accounts are valid, and no two have the same prefix.
pub open spec fn are_genesis_accounts(accounts: Seq<GenesisAccount>) -> bool {
    &&& forall|i: int|
        0 <= i < accounts.len() ==> is_valid_account_id((#[trigger] accounts[i]).header.id)
    &&& forall|i: int, j: int|
        0 <= i < j < accounts.len() ==> (#[trigger] accounts[i]).header.id.prefix != (
        #[trigger] accounts[j]).header.id.prefix
}

/// The update by which the genesis block adds an account: the state only of a public account.
pub open spec fn genesis_update(account: GenesisAccount) -> Result<
    BlockAccountUpdate,
    GenesisError,
> {
    let account_id = account.header.id;
    let final_state_commitment = account_commitment_of(account.header);
    if account_id.is_private() {
        Ok(
            BlockAccountUpdate {
                account_id,
                final_state_commitment,
                details: AccountUpdateDetails::Private,
            },
        )
    } else if account.seed is Some {
        Err(GenesisError::AccountWithSeed(account_id))
    } else {
        Ok(
            BlockAccountUpdate {
                account_id,
                final_state_commitment,
                details: AccountUpdateDetails::FullState(account.state),
            },
        )
    }
}

/// The updates of all accounts, or the error of the first account that cannot be added.
pub open spec fn genesis_updates(accounts: Seq<GenesisAccount>) -> Result<
    Seq<BlockAccountUpdate>,
    GenesisError,
> {
    collect_results(accounts.map_values(|account: GenesisAccount| genesis_update(account)))
}

/// The genesis block adds all accounts, in order: each with its commitment, and with its state if it is
/// public. It cannot be built exactly if a public account has a seed, and the error names the first
/// such account.
pub proof fn lemma_genesis_adds_all_accounts(accounts: Seq<GenesisAccount>)
    ensures
        match genesis_updates(accounts) {
            Ok(updates) => {
                &&& updates.len() == accounts.len()
                &&& forall|i: int|
                    0 <= i < accounts.len() ==> {
                        let update = #[trigger] updates[i];
                        let account = accounts[i];
                        &&& account.header.id.is_private() || account.seed is None
                        &&& update.account_id == account.header.id
                        &&& update.final_state_commitment == account_commitment_of(account.header)
                        &&& update.details == (if account.header.id.is_private() {
                            AccountUpdateDetails::Private
                        } else {
                            AccountUpdateDetails::FullState(account.state)
                        })
                    }
            },
            Err(error) => exists|i: int|
                {
                    &&& 0 <= i < accounts.len()
                    &&& !(#[trigger] accounts[i]).header.id.is_private()
                    &&& accounts[i].seed is Some
                    &&& error == GenesisError::AccountWithSeed(accounts[i].header.id)
                    &&& forall|k: int|
                        0 <= k < i ==> (#[trigger] accounts[k]).header.id.is_private()
                            || accounts[k].seed is None
                },
        },
{
    let results = accounts.map_values(|account: GenesisAccount| genesis_update(account));
    lemma_collect_values(results);
    lemma_collect_first_error(results);
    match genesis_updates(accounts) {
        Ok(updates) => {
            assert forall|i: int| 0 <= i < accounts.len() implies {
                let update = #[trigger] updates[i];
                let account = accounts[i];
                &&& account.header.id.is_private() || account.seed is None
                &&& update.account_id == account.header.id
                &&& update.final_state_commitment == account_commitment_of(account.header)
                &&& update.details == (if account.header.id.is_private() {
                    AccountUpdateDetails::Private
                } else {
                    AccountUpdateDetails::FullState(account.state)
                })
            } by {
                assert(results[i] == Ok::<BlockAccountUpdate, GenesisError>(updates[i]));
            }
        },
        Err(error) => {
            let i = choose|i: int|
                0 <= i < results.len() && #[trigger] results[i] == Err::<
                    BlockAccountUpdate,
                    GenesisError,
                >(error) && forall|k: int| 0 <= k < i ==> (#[trigger] results[k]) is Ok;
            assert(genesis_update(accounts[i]) == results[i]);
            assert forall|k: int| 0 <= k < i implies (
            #[trigger] accounts[k]).header.id.is_private() || accounts[k].seed is None by {
                assert(results[k] is Ok);
            }
        },
    }
}

fn account_updates(accounts: Vec<GenesisAccount>) -> (r: Result<
    Vec<BlockAccountUpdate>,
    GenesisError,
>)
    requires
        are_genesis_accounts(accounts@),
    ensures
        match genesis_updates(accounts@) {
            Err(error) => r == Err::<Vec<BlockAccountUpdate>, GenesisError>(error),
            Ok(updates) => r matches Ok(found) && found@ == updates,
        },
        r matches Ok(found) ==> are_account_updates(commitment_updates(found@)),
{
    let ghost all = accounts@;
    let ghost results = all.map_values(|account: GenesisAccount| genesis_update(account));
    let mut updates: Vec<BlockAccountUpdate> = Vec::new();
    let total: usize = accounts.len();
    let mut count: usize = 0;
    assert(results.take(0) =~= Seq::empty());
    for account in it: accounts
        invariant
            it.seq() == all,
            all.len() == total,
            count == it.index(),
            are_genesis_accounts(all),
            results == all.map_values(|account: GenesisAccount| genesis_update(account)),
            collect_results(results.take(count as int)) == Ok::<
                Seq<BlockAccountUpdate>,
                GenesisError,
            >(updates@),
            updates@.len() == count,
            forall|i: int|
                0 <= i < count ==> (#[trigger] updates@[i]).account_id == all[i].header.id
                    && updates@[i].final_state_commitment.is_canonical(),
    {
        proof {
            assert(account == all[count as int]);
            lemma_collect_step(results, count as int);
        }
        let account_id = account.header.id;
        let final_state_commitment = account_commitment(&account.header);
        let details = if account_id.is_private() {
            AccountUpdateDetails::Private
        } else if account.seed.is_some() {
            proof {
                lemma_collect_prefix_error(results, count + 1);
            }
            return Err(GenesisError::AccountWithSeed(account_id));
        } else {
            AccountUpdateDetails::FullState(account.state)
        };
        updates.push(BlockAccountUpdate { account_id, final_state_commitment, details });
        count = count + 1;
    }
    proof {
        assert(results.take(count as int) =~= results);
        let entries = commitment_updates(updates@);
        assert forall|i: int| 0 <= i < entries.len() implies is_valid_account_id(
            (#[trigger] entries[i]).0,
        ) && entries[i].1.is_canonical() by {
            assert(updates@[i].account_id == all[i].header.id);
        }
        assert forall|i: int, j: int| 0 <= i < j < entries.len() implies (
        #[trigger] entries[i]).0.prefix != (#[trigger] entries[j]).0.prefix by {
            assert(updates@[i].account_id == all[i].header.id);
            assert(updates@[j].account_id == all[j].header.id);
        }
    }
    Ok(updates)
}

// HEADER
// ================================================================================================

/// The parts of a header that the store does not keep apart.
#[derive(Clone, Debug, PartialEq, Eq)]
pub struct SealedHeader {
    pub header: BlockHeader,
    pub version: u32,
    pub tx_kernel_commitment: Word,
    pub validator_key: Vec<u8>,
    pub fee_parameters: Vec<u8>,
    pub timestamp: u32,
}

/// The commitment that `BlockHeader::commitment` returns for a header with the given parts, or
/// `None` if the key or the fee parameters cannot be read. The words are the commitments of the
/// previous block and the chain, the roots of the accounts, the nullifiers and the notes, and the
/// commitments of the transactions and the kernel.
pub uninterp spec fn header_commitment_of(
    version: u32,
    block_num: BlockNumber,
    words: Seq<Word>,
    validator_key: Seq<u8>,
    fee_parameters: Seq<u8>,
    timestamp: u32,
) -> Option<Word>;

/// The words of a header.
pub open spec fn header_words(sealed: SealedHeader) -> Seq<Word> {
    seq![
        sealed.header.prev_block_commitment,
        sealed.header.chain_commitment,
        sealed.header.account_root,
        sealed.header.nullifier_root,
        sealed.header.note_root,
        sealed.header.tx_commitment,
        sealed.tx_kernel_commitment,
    ]
}

/// The commitment to a header.
pub open spec fn sealed_commitment(sealed: SealedHeader) -> Option<Word> {
    header_commitment_of(
        sealed.version,
        sealed.header.block_num,
        header_words(sealed),
        sealed.validator_key@,
        sealed.fee_parameters@,
        sealed.timestamp,
    )
}

/// Computes the commitment to a header by `BlockHeader::new` and `BlockHeader::commitment`, with the
/// key and the fee parameters as `read_from_bytes` reads them.
#[verifier::external_body]
fn header_commitment(
    version: u32,
    block_num: BlockNumber,
    words: [Word; 7],
    validator_key: &Vec<u8>,
    fee_parameters: &Vec<u8>,
    timestamp: u32,
) -> (r: Option<Word>)
    ensures
        r == header_commitment_of(
            version,
            block_num,
            words@,
            validator_key@,
            fee_parameters@,
            timestamp,
        ),
{
    let [prev, chain, accounts, nullifiers, notes, txs, kernel] = words.map(
        |w| miden_protocol::Word::new([w.0, w.1, w.2, w.3].map(Felt::new)),
    );
    let block_num = ProtocolBlockNumber::from(block_num.0);
    let key = PublicKey::read_from_bytes(validator_key).ok()?;
    let fees = FeeParameters::read_from_bytes(fee_parameters).ok()?;
    let commitment = ProtocolBlockHeader::new(
        version, prev, block_num, chain, accounts, nullifiers, notes, txs, kernel, key, fees,
        timestamp,
    ).commitment();
    let [a, b, c, d] = commitment.into_elements().map(|e| e.as_canonical_u64());
    Some(Word(a, b, c, d))
}

/// The commitment to the kernel that transactions are executed with, by
/// `TransactionKernel::to_commitment`. Which word it is depends on the kernel alone, and nothing is
/// said of it.
#[verifier::external_body]
fn kernel_commitment() -> (r: Word)
    ensures
        r.is_canonical(),
{
    let commitment = TransactionKernel.to_commitment();
    let [a, b, c, d] = commitment.into_elements().map(|element| element.as_canonical_u64());
    Word(a, b, c, d)
}

// SIGNATURES
// ================================================================================================

/// The secret key of a validator.
#[verifier::external_type_specification]
#[verifier::external_body]
pub struct ExSecretKey(SecretKey);

/// Whether bytes are a signature of a message that `Signature::verify` accepts for a key. Bytes that
/// are no encoding of a signature or a key are not.
pub uninterp spec fn is_signature(signature: Seq<u8>, message: Word, key: Seq<u8>) -> bool;

/// Checks a signature by `Signature::verify`.
#[verifier::external_body]
pub(crate) fn verify_signature(signature: &Vec<u8>, message: Word, key: &Vec<u8>) -> (r: bool)
    ensures
        r == is_signature(signature@, message, key@),
{
    let Word(a, b, c, d) = message;
    match (Signature::read_from_bytes(signature), PublicKey::read_from_bytes(key)) {
        (Ok(signature), Ok(key)) => signature.verify([a, b, c, d].map(Felt::new).into(), &key),
        _ => false,
    }
}

/// The encoding of the public key that `SecretKey::public_key` returns for a secret key.
pub uninterp spec fn public_key_of(signer: SecretKey) -> Seq<u8>;

/// Encodes the public key of a secret key by `SecretKey::public_key` and `PublicKey::to_bytes`.
#[verifier::external_body]
fn public_key(signer: &SecretKey) -> (r: Vec<u8>)
    ensures
        r@ == public_key_of(*signer),
{
    signer.public_key().to_bytes()
}

/// The encoding of the signature that `SecretKey::sign` returns for a message. The nonce is derived
/// from the key and the message, so that there is only one.
pub uninterp spec fn signature_of(signer: SecretKey, message: Word) -> Seq<u8>;

/// Signs a message by `SecretKey::sign`. The signature is one that `Signature::verify` accepts for the
/// public key of the signer, as `SecretKey::public_key` returns it.
#[verifier::external_body]
fn sign_message(signer: &SecretKey, message: Word) -> (r: Vec<u8>)
    ensures
        r@ == signature_of(*signer, message),
        is_signature(r@, message, public_key_of(*signer)),
{
    let Word(a, b, c, d) = message;
    signer.sign([a, b, c, d].map(Felt::new).into()).to_bytes()
}

// GENESIS BLOCK
// ================================================================================================

/// A block with its signature and its proof, both encoded.
#[derive(Clone, Debug, PartialEq, Eq)]
pub struct ProvenBlock {
    pub sealed: SealedHeader,
    pub body: BlockBody,
    pub signature: Vec<u8>,
    pub block_proof: Vec<u8>,
}

/// Whether the signature is one of the block's header by the validator that the header names.
pub open spec fn is_signed(block: ProvenBlock) -> bool {
    is_signature(block.signature@, block.sealed.header.commitment, block.sealed.validator_key@)
}

/// The block that starts a chain.
#[derive(Clone, Debug, PartialEq, Eq)]
pub struct GenesisBlock(ProvenBlock);

/// A genesis block without the validator's signature.
#[derive(Clone, Debug, PartialEq, Eq)]
pub struct UnsignedGenesisBlock {
    sealed: SealedHeader,
    body: BlockBody,
    block_proof: Vec<u8>,
}

impl UnsignedGenesisBlock {
    /// The header.
    pub closed spec fn sealed(self) -> SealedHeader {
        self.sealed
    }

    /// The body.
    pub closed spec fn body(self) -> BlockBody {
        self.body
    }

    /// The encoded proof.
    pub closed spec fn block_proof(self) -> Vec<u8> {
        self.block_proof
    }

    /// Returns the header.
    pub fn header(&self) -> (r: &SealedHeader)
        ensures
            *r == self.sealed(),
    {
        &self.sealed
    }

    /// Adds the signature, which must be one of the header by the validator.
    pub fn into_block(self, signature: Vec<u8>) -> (r: Result<GenesisBlock, GenesisError>)
        ensures
            ({
                let block = ProvenBlock {
                    sealed: self.sealed(),
                    body: self.body(),
                    signature,
                    block_proof: self.block_proof(),
                };
                if is_signed(block) {
                    r matches Ok(genesis) && genesis.block() == block
                } else {
                    r == Err::<GenesisBlock, GenesisError>(GenesisError::InvalidSignature)
                }
            }),
    {
        if !verify_signature(
            &signature,
            self.sealed.header.commitment,
            &self.sealed.validator_key,
        ) {
            return Err(GenesisError::InvalidSignature);
        }
        let UnsignedGenesisBlock { sealed, body, block_proof } = self;
        Ok(GenesisBlock(ProvenBlock { sealed, body, signature, block_proof }))
    }
}

impl GenesisBlock {
    /// The block.
    pub closed spec fn block(self) -> ProvenBlock {
        self.0
    }

    /// Returns the block.
    pub fn inner(&self) -> (r: &ProvenBlock)
        ensures
            *r == self.block(),
    {
        &self.0
    }

    /// Returns the block.
    pub fn into_inner(self) -> (r: ProvenBlock)
        ensures
            r == self.block(),
    {
        self.0
    }

    /// Takes a block that is the first one and signed by the validator that its header names.
    pub fn try_from(block: ProvenBlock) -> (r: Result<GenesisBlock, GenesisError>)
        ensures
            if block.sealed.header.block_num@ != 0 {
                r == Err::<GenesisBlock, GenesisError>(
                    GenesisError::NotGenesis(block.sealed.header.block_num),
                )
            } else if !is_signed(block) {
                r == Err::<GenesisBlock, GenesisError>(GenesisError::InvalidSignature)
            } else {
                r matches Ok(genesis) && genesis.block() == block
            },
    {
        let block_num = block.sealed.header.block_num;
        if block_num != BlockNumber::genesis() {
            return Err(GenesisError::NotGenesis(block_num));
        }
        if !verify_signature(
            &block.signature,
            block.sealed.header.commitment,
            &block.sealed.validator_key,
        ) {
            return Err(GenesisError::InvalidSignature);
        }
        Ok(GenesisBlock(block))
    }
}

/// The header of the genesis block of a state: it follows no block, and commits to the given updates
/// of accounts and to nothing else.
pub open spec fn genesis_header(
    state: GenesisState,
    updates: Seq<BlockAccountUpdate>,
    tx_kernel_commitment: Word,
    commitment: Word,
) -> SealedHeader {
    SealedHeader {
        header: BlockHeader {
            block_num: BlockNumber::genesis(),
            commitment,
            prev_block_commitment: Word::empty(),
            chain_commitment: chain_commitment_of(Seq::empty()),
            account_root: account_root_of(
                with_updates(vstd::map::Map::empty(), commitment_updates(updates)),
            ),
            nullifier_root: nullifier_root_of(vstd::map::Map::empty()),
            note_root: note_root_of(vstd::map::Map::empty()),
            tx_commitment: Word::empty(),
        },
        version: state.version,
        tx_kernel_commitment,
        validator_key: state.validator_key,
        fee_parameters: state.fee_parameters,
        timestamp: state.timestamp,
    }
}

/// Whether a body holds the given updates of accounts and nothing else.
pub open spec fn is_genesis_body(body: BlockBody, updates: Seq<BlockAccountUpdate>) -> bool {
    &&& body.transactions_commitment == Word::empty()
    &&& body.updated_accounts@ == updates
    &&& body.created_nullifiers@.len() == 0
    &&& body.output_notes@.len() == 0
}

/// Whether a result is the unsigned genesis block of a state whose accounts have the given updates,
/// for a kernel with the given commitment.
pub open spec fn is_unsigned_block(
    result: Result<UnsignedGenesisBlock, GenesisError>,
    state: GenesisState,
    updates: Seq<BlockAccountUpdate>,
    tx_kernel_commitment: Word,
) -> bool {
    let unsealed = genesis_header(state, updates, tx_kernel_commitment, Word::empty());
    match sealed_commitment(unsealed) {
        None => result == Err::<UnsignedGenesisBlock, GenesisError>(GenesisError::InvalidHeader),
        Some(commitment) => {
            &&& result matches Ok(block)
            &&& block.sealed() == genesis_header(state, updates, tx_kernel_commitment, commitment)
            &&& is_genesis_body(block.body(), updates)
            &&& block.block_proof()@.len() == 0
        },
    }
}

impl GenesisState {
    /// Creates a state.
    pub fn new(
        accounts: Vec<GenesisAccount>,
        fee_parameters: Vec<u8>,
        version: u32,
        timestamp: u32,
        validator_key: Vec<u8>,
    ) -> (r: Self)
        ensures
            r == (GenesisState { accounts, fee_parameters, version, timestamp, validator_key }),
    {
        GenesisState { accounts, fee_parameters, version, timestamp, validator_key }
    }

    /// Returns whether a secret key is that of the validator.
    pub fn is_validator(&self, signer: &SecretKey) -> (r: bool)
        ensures
            r == (public_key_of(*signer) == self.validator_key@),
    {
        equal_bytes(&public_key(signer), &self.validator_key)
    }

    /// Builds the genesis block without a signature. Fails for a public account with a seed, and if
    /// the key of the validator or the fee parameters cannot be read.
    pub fn into_unsigned_block(self) -> (r: Result<UnsignedGenesisBlock, GenesisError>)
        requires
            are_genesis_accounts(self.accounts@),
        ensures
            match genesis_updates(self.accounts@) {
                Err(error) => r == Err::<UnsignedGenesisBlock, GenesisError>(error),
                Ok(updates) => exists|kernel: Word| #[trigger]
                    is_unsigned_block(r, self, updates, kernel),
            },
            r matches Ok(block) ==> block.sealed().header.block_num@ == 0,
            match r {
                Ok(block) => {
                    &&& block.sealed().version == self.version
                    &&& block.sealed().timestamp == self.timestamp
                    &&& block.sealed().validator_key == self.validator_key
                    &&& block.sealed().fee_parameters == self.fee_parameters
                    &&& block.sealed().header.prev_block_commitment == Word(0, 0, 0, 0)
                    &&& block.sealed().header.tx_commitment == Word(0, 0, 0, 0)
                    &&& block.body().created_nullifiers@.len() == 0
                    &&& block.body().output_notes@.len() == 0
                    &&& block.body().updated_accounts@.len() == self.accounts@.len()
                    &&& forall|i: int|
                        0 <= i < self.accounts@.len() ==> {
                            let update = #[trigger] block.body().updated_accounts@[i];
                            let account = self.accounts@[i];
                            &&& update.account_id == account.header.id
                            &&& update.final_state_commitment == account_commitment_of(
                                account.header,
                            )
                            &&& update.details == (if account.header.id.is_private() {
                                AccountUpdateDetails::Private
                            } else {
                                AccountUpdateDetails::FullState(account.state)
                            })
                        }
                },
                Err(GenesisError::AccountWithSeed(id)) => exists|i: int|
                    0 <= i < self.accounts@.len() && (#[trigger] self.accounts@[i]).header.id == id
                        && !id.is_private() && self.accounts@[i].seed is Some,
                Err(GenesisError::InvalidHeader) => true,
                Err(_) => false,
            },
    {
        let tx_kernel_commitment = kernel_commitment();
        let ghost state = self;
        let r = self.into_unsigned_block_of_kernel(tx_kernel_commitment);
        proof {
            if let Ok(updates) = genesis_updates(state.accounts@) {
                assert(is_unsigned_block(r, state, updates, tx_kernel_commitment));
            }
        }
        r
    }

    /// Builds the genesis block without a signature, for transactions of a kernel with the given
    /// commitment. Fails for a public account with a seed, and if the key of the validator or the fee
    /// parameters cannot be read.
    pub fn into_unsigned_block_of_kernel(self, tx_kernel_commitment: Word) -> (r: Result<
        UnsignedGenesisBlock,
        GenesisError,
    >)
        requires
            are_genesis_accounts(self.accounts@),
        ensures
            match genesis_updates(self.accounts@) {
                Err(error) => r == Err::<UnsignedGenesisBlock, GenesisError>(error),
                Ok(updates) => is_unsigned_block(r, self, updates, tx_kernel_commitment),
            },
            r matches Ok(block) ==> block.sealed().header.block_num@ == 0,
            match r {
                Ok(block) => {
                    &&& block.sealed().version == self.version
                    &&& block.sealed().timestamp == self.timestamp
                    &&& block.sealed().validator_key == self.validator_key
                    &&& block.sealed().fee_parameters == self.fee_parameters
                    &&& block.sealed().tx_kernel_commitment == tx_kernel_commitment
                    &&& block.sealed().header.prev_block_commitment == Word(0, 0, 0, 0)
                    &&& block.sealed().header.tx_commitment == Word(0, 0, 0, 0)
                    &&& block.body().created_nullifiers@.len() == 0
                    &&& block.body().output_notes@.len() == 0
                    &&& block.body().updated_accounts@.len() == self.accounts@.len()
                    &&& forall|i: int|
                        0 <= i < self.accounts@.len() ==> {
                            let update = #[trigger] block.body().updated_accounts@[i];
                            let account = self.accounts@[i];
                            &&& update.account_id == account.header.id
                            &&& update.final_state_commitment == account_commitment_of(
                                account.header,
                            )
                            &&& update.details == (if account.header.id.is_private() {
                                AccountUpdateDetails::Private
                            } else {
                                AccountUpdateDetails::FullState(account.state)
                            })
                        }
                },
                Err(GenesisError::AccountWithSeed(id)) => exists|i: int|
                    0 <= i < self.accounts@.len() && (#[trigger] self.accounts@[i]).header.id == id
                        && !id.is_private() && self.accounts@[i].seed is Some,
                Err(GenesisError::InvalidHeader) => true,
                Err(_) => false,
            },
    {
        let ghost state = self;
        proof {
            lemma_genesis_adds_all_accounts(self.accounts@);
        }
        let GenesisState { accounts, fee_parameters, version, timestamp, validator_key } = self;
        let updates = match account_updates(accounts) {
            Ok(updates) => updates,
            Err(error) => return Err(error),
        };
        let ghost added = updates@;
        let (account_root, nullifier_root) = genesis_roots(&updates);
        let body = BlockBody {
            transactions_commitment: Word::empty(),
            updated_accounts: updates,
            created_nullifiers: Vec::new(),
            output_notes: Vec::new(),
        };
        let tree = block_note_tree(&body.output_notes);
        proof {
            assert(note_leaves(body.output_notes@) =~= Seq::empty());
            assert(pairs_by_key(note_leaves(body.output_notes@)) =~= vstd::map::Map::empty());
        }
        let mut header = BlockHeader {
            block_num: BlockNumber::genesis(),
            commitment: Word::empty(),
            prev_block_commitment: Word::empty(),
            chain_commitment: chain_commitment(&new_chain()),
            account_root,
            nullifier_root,
            note_root: note_root(&tree),
            tx_commitment: Word::empty(),
        };
        let words = [
            header.prev_block_commitment,
            header.chain_commitment,
            header.account_root,
            header.nullifier_root,
            header.note_root,
            header.tx_commitment,
            tx_kernel_commitment,
        ];
        let ghost unsealed = genesis_header(state, added, tx_kernel_commitment, Word::empty());
        proof {
            assert(words@ =~= header_words(unsealed));
        }
        let sealed_as = header_commitment(
            version,
            header.block_num,
            words,
            &validator_key,
            &fee_parameters,
            timestamp,
        );
        assert(sealed_as == sealed_commitment(unsealed));
        header.commitment = match sealed_as {
            Some(commitment) => commitment,
            None => {
                let r = Err(GenesisError::InvalidHeader);
                assert(is_unsigned_block(r, state, added, tx_kernel_commitment));
                return r;
            },
        };
        let sealed = SealedHeader {
            header,
            version,
            tx_kernel_commitment,
            validator_key,
            fee_parameters,
            timestamp,
        };
        let r = Ok(UnsignedGenesisBlock { sealed, body, block_proof: Vec::new() });
        assert(is_unsigned_block(r, state, added, tx_kernel_commitment));
        r
    }

    /// Builds the genesis block and signs it. The signature is checked before the block is returned:
    /// it is accepted if the signer is the validator.
    pub fn into_block(self, signer: &SecretKey) -> (r: Result<GenesisBlock, GenesisError>)
        requires
            are_genesis_accounts(self.accounts@),
        ensures
            match genesis_updates(self.accounts@) {
                Err(error) => r == Err::<GenesisBlock, GenesisError>(error),
                Ok(updates) => exists|
                    kernel: Word,
                    unsigned: Result<UnsignedGenesisBlock, GenesisError>,
                | #[trigger]
                    is_unsigned_block(unsigned, self, updates, kernel) && is_signing_result(
                        r,
                        unsigned,
                        *signer,
                    ) && (unsigned is Ok && public_key_of(*signer) == self.validator_key@
                        ==> r is Ok),
            },
            r matches Ok(genesis) ==> {
                let block = genesis.block();
                &&& block.sealed.header.block_num.0 == 0
                &&& block.sealed.version == self.version
                &&& block.sealed.timestamp == self.timestamp
                &&& block.sealed.validator_key == self.validator_key
                &&& block.sealed.fee_parameters == self.fee_parameters
                &&& block.signature@ == signature_of(*signer, block.sealed.header.commitment)
                &&& is_signature(
                    block.signature@,
                    block.sealed.header.commitment,
                    self.validator_key@,
                )
                &&& block.body.updated_accounts@.len() == self.accounts@.len()
            },
    {
        let ghost validator_key = self.validator_key@;
        let unsigned = self.into_unsigned_block();
        match unsigned {
            Err(error) => Err(error),
            Ok(block) => {
                assert(block.sealed().validator_key@ == validator_key);
                let signature = sign_message(signer, block.header().header.commitment);
                block.into_block(signature)
            },
        }
    }
}

/// Whether a result is that of signing a block: the block with the signer's signature of its
/// commitment if that is valid for the validator's key, and an error otherwise.
pub open spec fn is_signing_result(
    result: Result<GenesisBlock, GenesisError>,
    unsigned: Result<UnsignedGenesisBlock, GenesisError>,
    signer: SecretKey,
) -> bool {
    match unsigned {
        Err(error) => result == Err::<GenesisBlock, GenesisError>(error),
        Ok(unsigned) => {
            let commitment = unsigned.sealed().header.commitment;
            let signature = signature_of(signer, commitment);
            if is_signature(signature, commitment, unsigned.sealed().validator_key@) {
                &&& result matches Ok(genesis)
                &&& genesis.block().sealed == unsigned.sealed()
                &&& genesis.block().body == unsigned.body()
                &&& genesis.block().block_proof == unsigned.block_proof()
                &&& genesis.block().signature@ == signature
            } else {
                result == Err::<GenesisBlock, GenesisError>(GenesisError::InvalidSignature)
            }
        },
    }
}

fn genesis_roots(updates: &Vec<BlockAccountUpdate>) -> (r: (Word, Word))
    requires
        are_account_updates(commitment_updates(updates@)),
    ensures
        r.0 == account_root_of(
            with_updates(vstd::map::Map::empty(), commitment_updates(updates@)),
        ),
        r.1 == nullifier_root_of(vstd::map::Map::empty()),
{
    let mut entries: Vec<(AccountId, Word)> = Vec::new();
    let mut i: usize = 0;
    while i < updates.len()
        invariant
            i <= updates@.len(),
            entries@ =~= commitment_updates(updates@).take(i as int),
        decreases updates@.len() - i,
    {
        entries.push((updates[i].account_id, updates[i].final_state_commitment));
        i = i + 1;
    }
    assert(entries@ =~= commitment_updates(updates@));
    let accounts = AccountCommitments::new();
    let nullifiers = SpentNullifiers::new();
    let account_root = match compute_account_changes(&accounts, &entries) {
        Some(changes) => changed_account_root(&changes),
        None => {
            assert(false);
            Word::empty()
        },
    };
    (account_root, nullifier_root(&nullifiers))
}

/// A genesis block that was built from a state is accepted when it is read back.
pub proof fn lemma_built_block_is_genesis(
    state: GenesisState,
    updates: Seq<BlockAccountUpdate>,
    tx_kernel_commitment: Word,
    unsigned: Result<UnsignedGenesisBlock, GenesisError>,
    signer: SecretKey,
    result: Result<GenesisBlock, GenesisError>,
)
    requires
        is_unsigned_block(unsigned, state, updates, tx_kernel_commitment),
        is_signing_result(result, unsigned, signer),
    ensures
        result matches Ok(genesis) ==> genesis.block().sealed.header.block_num@ == 0 && is_signed(
            genesis.block(),
        ),
{
}

/// A genesis block says what the state says, each part in its place, and its commitment is over these
/// parts. It follows no block, and all that it does is to add the given accounts.
pub proof fn lemma_genesis_block_is_of_its_state(
    state: GenesisState,
    updates: Seq<BlockAccountUpdate>,
    tx_kernel_commitment: Word,
    block: UnsignedGenesisBlock,
)
    requires
        is_unsigned_block(Ok(block), state, updates, tx_kernel_commitment),
    ensures
        block.sealed().version == state.version,
        block.sealed().timestamp == state.timestamp,
        block.sealed().validator_key == state.validator_key,
        block.sealed().fee_parameters == state.fee_parameters,
        block.sealed().tx_kernel_commitment == tx_kernel_commitment,
        block.sealed().header.block_num.0 == 0,
        block.sealed().header.prev_block_commitment == Word(0, 0, 0, 0),
        block.sealed().header.tx_commitment == Word(0, 0, 0, 0),
        block.sealed().header.chain_commitment == chain_commitment_of(Seq::empty()),
        block.sealed().header.nullifier_root == nullifier_root_of(vstd::map::Map::empty()),
        block.sealed().header.note_root == note_root_of(vstd::map::Map::empty()),
        Some(block.sealed().header.commitment) == header_commitment_of(
            state.version,
            BlockNumber(0),
            seq![
                block.sealed().header.prev_block_commitment,
                block.sealed().header.chain_commitment,
                block.sealed().header.account_root,
                block.sealed().header.nullifier_root,
                block.sealed().header.note_root,
                block.sealed().header.tx_commitment,
                tx_kernel_commitment,
            ],
            state.validator_key@,
            state.fee_parameters@,
            state.timestamp,
        ),
        block.body().updated_accounts@ == updates,
        block.body().created_nullifiers@.len() == 0,
        block.body().output_notes@.len() == 0,
        block.body().transactions_commitment == Word(0, 0, 0, 0),
        block.block_proof()@.len() == 0,
{
}

} // verus!
