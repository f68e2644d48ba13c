//! Errors of the store.

use vstd::prelude::*;

use crate::account_id::AccountId;
use crate::account_state_forest::forest::AccountStateForestError;
use crate::block_number::BlockNumber;
use crate::word::Word;

verus! {

/// What is wrong with data that was read back from the database.
#[derive(Clone, Debug, PartialEq, Eq)]
pub enum DataCorruption {
    /// The latest row of a public account holds no nonce.
    MissingNonce(AccountId),
    /// The latest row of a public account holds no code commitment.
    MissingCodeCommitment(AccountId),
    /// The vault of an account could not be rebuilt at a block.
    VaultNotReconstructed(AccountId, BlockNumber),
    /// A row of a public account holds no vault root.
    MissingVaultRoot(AccountId),
    /// A row of a public account holds no storage header.
    MissingStorageHeader(AccountId),
    /// A stored slot name is not one.
    InvalidSlotName(String),
    /// An account identifier is not that of a fungible faucet.
    InvalidFaucetId(AccountId),
    /// The slots do not make up a storage header.
    InvalidStorageHeader,
    /// The nonce of an account would exceed its range.
    NonceOverflow(AccountId),
}

/// Errors of queries against the database and the account state forest.
#[derive(Clone, Debug, PartialEq, Eq)]
pub enum DatabaseError {
    /// The block lies past the chain tip.
    UnknownBlock(BlockNumber),
    /// The range ends before it starts.
    InvalidBlockRange { from: BlockNumber, to: BlockNumber },
    /// The account's state is not on chain.
    AccountNotPublic(AccountId),
    /// The database holds no row of the account.
    AccountNotFoundInDb(AccountId),
    /// The state that was computed for an account does not hash to the commitment of the block.
    AccountCommitmentsMismatch { calculated: Word, expected: Word },
    /// The forest holds no root of the storage map at the block.
    StorageRootNotFound { account_id: AccountId, slot_name: String, block_num: BlockNumber },
    /// Stored data contradicts itself.
    DataCorrupted(DataCorruption),
    /// A stored integer lies outside the range of its type.
    ConversionSqlToRust(i64),
    /// Stored bytes are not the encoding of a value.
    DeserializationError,
    /// A word is no vault key, or an amount is out of range.
    AssetError,
    /// Assets do not make up a vault, or a change cannot be applied to it.
    AssetVaultError,
    /// Stored parts do not make up an account.
    AccountError,
    /// A request names more items than one query takes.
    QueryParamLimit { given: usize, limit: usize },
}

/// Errors of an account request.
#[derive(Clone, Debug, PartialEq, Eq)]
pub enum GetAccountError {
    /// Details were requested of an account whose state is not public.
    AccountNotPublic(AccountId),
    /// The block lies past the latest block.
    UnknownBlock(BlockNumber),
    /// The state at the block is no longer kept.
    BlockPruned(BlockNumber),
    /// The account did not exist at the block.
    AccountNotFound(AccountId, BlockNumber),
    /// A query failed.
    DatabaseError(DatabaseError),
}

/// Why a block is not valid on top of the chain.
#[derive(Clone, Debug, PartialEq, Eq)]
pub enum InvalidBlockError {
    /// The header does not commit to the transactions of the body.
    InvalidBlockTxCommitment { expected: Word, actual: Word },
    /// The block is not the next one.
    NewBlockInvalidBlockNum { expected: BlockNumber, submitted: BlockNumber },
    /// The header does not commit to the previous block.
    NewBlockInvalidPrevCommitment,
    /// The block spends nullifiers that are spent already.
    DuplicatedNullifiers(Vec<Word>),
    /// The header does not commit to the chain.
    NewBlockInvalidChainCommitment,
    /// The header does not commit to the nullifiers after the block.
    NewBlockInvalidNullifierRoot,
    /// The block adds an account with the prefix of another one.
    NewBlockDuplicateAccountIdPrefix,
    /// The header does not commit to the accounts after the block.
    NewBlockInvalidAccountRoot,
    /// The header does not commit to the notes of the body.
    NewBlockInvalidNoteRoot,
}

/// Errors of applying a block.
#[derive(Clone, Debug, PartialEq, Eq)]
pub enum ApplyBlockError {
    /// Another block is being applied, or was applied in the meantime.
    ConcurrentWrite,
    /// The database holds no block.
    DbBlockHeaderEmpty,
    /// The database could not be read.
    DatabaseError(DatabaseError),
    /// The block is not valid.
    InvalidBlockError(InvalidBlockError),
    /// The task that updates the database went away before it was ready.
    ClosedChannel,
    /// The block could not be saved.
    BlockSaveFailed,
    /// The database could not be updated.
    DbUpdateTaskFailed(String),
    /// The account state forest could not be updated.
    AccountStateForestError(AccountStateForestError),
}

/// Errors of requesting the inputs of a transaction batch.
#[derive(Clone, Debug, PartialEq, Eq)]
pub enum GetBatchInputsError {
    /// The transactions refer to no block.
    TransactionBlockReferencesEmpty,
    /// A block that is referred to lies past the latest block.
    UnknownTransactionBlockReference {
        highest_block_num: BlockNumber,
        latest_block_num: BlockNumber,
    },
}

/// Errors of requesting the inputs of a block.
#[derive(Clone, Debug, PartialEq, Eq)]
pub enum GetBlockInputsError {
    /// A block that is referred to lies past the latest block.
    UnknownBatchBlockReference {
        highest_block_number: BlockNumber,
        latest_block_number: BlockNumber,
    },
}

/// Errors of synchronizing a client's chain.
#[derive(Clone, Debug, PartialEq, Eq)]
pub enum StateSyncError {
    /// The block lies past the chain tip.
    UnknownBlock(BlockNumber),
    /// The range cannot be stepped through.
    FailedToBuildMmrDelta,
    /// The header of the block that the range ends with could not be read.
    DatabaseError(DatabaseError),
}

/// Errors of synchronizing a client's notes.
#[derive(Clone, Debug, PartialEq, Eq)]
pub enum NoteSyncError {
    /// The range ends past the chain tip.
    FutureBlock { chain_tip: BlockNumber, block_to: BlockNumber },
    /// The inclusion of a block could not be proved.
    MmrError,
}

/// Errors of a subscription to blocks or proofs.
#[derive(Clone, Debug, PartialEq, Eq)]
pub enum StateSubscriptionError {
    /// A block could not be loaded.
    BlockLoad { block_num: BlockNumber, source: DatabaseError },
    /// There is no such block.
    BlockNotFound(BlockNumber),
    /// The proof of a block could not be loaded.
    ProofLoad { block_num: BlockNumber, source: DatabaseError },
    /// There is no proof of the block.
    ProofNotFound(BlockNumber),
}

/// A tree that the store keeps in memory.
#[derive(Clone, Copy, Debug, PartialEq, Eq, Structural)]
pub enum TreeName {
    Account,
    Nullifier,
}

/// Errors of loading the state.
#[derive(Clone, Debug, PartialEq, Eq)]
pub enum StateInitializationError {
    /// The database could not be read.
    DatabaseError(DatabaseError),
    /// Two accounts have the same prefix.
    FailedToCreateAccountsTree,
    /// A tree does not have the root that the latest block names.
    TreeStorageDiverged {
        tree_name: TreeName,
        block_num: BlockNumber,
        tree_root: Word,
        block_root: Word,
    },
    /// The state of a public account is missing.
    PublicAccountMissingDetails(AccountId),
    /// The account state forest could not be built.
    AccountStateForestError(AccountStateForestError),
}

} // verus!
