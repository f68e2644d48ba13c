use miden_node_store::account_id::AccountId;
use miden_node_store::account_state_forest::forest::{
    AccountStateForest, AccountStateForestError,
};
use miden_node_store::block_number::{BlockNumber, BlockRange};
use miden_node_store::block_set::BlockSet;
use miden_node_store::db::accounts::AccountSummary;
use miden_node_store::db::delta::{StorageDelta, VaultDelta};
use miden_node_store::db::full_account::AccountInfo;
use miden_node_store::db::transactions::{BlockNoteIndex, NoteSyncRecord};
use miden_node_store::db::updates::{
    AccountDelta, AccountUpdateDetails, BlockAccountUpdate, FullAccountState,
};
use miden_node_store::errors::{
    ApplyBlockError, DatabaseError, GetBatchInputsError, GetBlockInputsError, InvalidBlockError,
    NoteSyncError, StateInitializationError, StateSyncError, TreeName,
};
use miden_node_store::notes::NoteHeader;
use miden_node_store::state::apply_block::{
    begin_apply_block, build_note_records, store_block, validate_block, validate_block_header,
    BlockBody, BlockHeader, InnerState, OutputNote,
};
use miden_node_store::state::chain::{
    get_block_header, get_current_blockchain_data, ChainTips, Finality, MmrError,
};
use miden_node_store::state::inputs::{
    check_batch_references, get_batch_inputs, get_block_inputs, get_transaction_inputs,
    split_reference_header, NullifierInfo,
};
use miden_node_store::state::loader::{
    block_num_to_nullifier_leaf, check_nullifier, latest_loaded_block, load_account_page, load_forest_account,
    load_inner_state, load_mmr, load_nullifier_page, next_load_step, verify_tree_consistency, LoadStep,
};
use miden_node_store::state::replica::BlockCache;
use miden_node_store::state::sync_state::{
    check_sync_range, scope_query, sync_chain_mmr, NoteSyncScan, NoteSyncUpdate,
};
use miden_node_store::state::signed_block::check_body;
use miden_node_store::state::trees::{
    check_created_nullifiers, AccountCommitments, SpentNullifiers,
};
use miden_node_store::state::writer::{
    commit_block, commit_result, publish_block, publish_state, writer_action, WriterAction,
    WriterEvent,
};
use miden_node_store::word::Word;
use miden_protocol::account::{AccountIdVersion, AccountStorageMode, AccountType};
use miden_protocol::asset::FungibleAsset;
use miden_protocol::block::account_tree::{AccountTree, AccountWitness};
use miden_protocol::block::nullifier_tree::{NullifierTree, NullifierWitness};
use miden_protocol::block::{BlockNoteTree, Blockchain};
use miden_protocol::crypto::merkle::mmr::{Forest, PartialMmr};
use miden_protocol::crypto::merkle::smt::Smt;
use miden_protocol::crypto::merkle::{MerklePath, SparseMerklePath};
use miden_protocol::note::{NoteId, NoteMetadata, NoteType, Nullifier};
use miden_protocol::testing::account_id::ACCOUNT_ID_PUBLIC_FUNGIBLE_FAUCET;
use miden_protocol::utils::serde::{Deserializable, Serializable};
use miden_protocol::Felt;

// A CHAIN
// ================================================================================================

const EMPTY_WORD: Word = Word(0, 0, 0, 0);

fn word(word: miden_protocol::Word) -> Word {
    let [a, b, c, d] = word.into_elements().map(|element| element.as_canonical_u64());
    Word(a, b, c, d)
}

fn protocol_word(word: Word) -> miden_protocol::Word {
    miden_protocol::Word::new([word.0, word.1, word.2, word.3].map(Felt::new))
}

fn protocol_id(byte: u8) -> miden_protocol::account::AccountId {
    miden_protocol::account::AccountId::dummy(
        [byte; 15],
        AccountIdVersion::Version0,
        AccountType::RegularAccountImmutableCode,
        AccountStorageMode::Private,
    )
}

fn account_id(byte: u8) -> AccountId {
    let id = protocol_id(byte);
    AccountId { prefix: id.prefix().as_u64(), suffix: id.suffix().as_canonical_u64() }
}

/// An account with the prefix of another one.
fn twin(id: AccountId) -> AccountId {
    AccountId { prefix: id.prefix, suffix: id.suffix ^ 0x100 }
}

fn block(number: u32) -> BlockNumber {
    BlockNumber::from(number)
}

fn update(id: AccountId, commitment: Word) -> BlockAccountUpdate {
    BlockAccountUpdate {
        account_id: id,
        final_state_commitment: commitment,
        details: AccountUpdateDetails::Private,
    }
}

fn note_header(num: u64) -> miden_protocol::note::NoteHeader {
    miden_protocol::note::NoteHeader::new(
        NoteId::new(protocol_word(Word(num, 0, 0, 0)), protocol_word(Word(0, num, 0, 0))),
        NoteMetadata::new(protocol_id(9), NoteType::Public),
    )
}

fn output_note(num: u64) -> OutputNote {
    let header = note_header(num);
    OutputNote::Private {
        header: NoteHeader {
            note_id: word(header.id().as_word()),
            metadata: header.metadata().to_bytes(),
        },
    }
}

fn note_index(batch_idx: usize, note_idx_in_batch: usize) -> BlockNoteIndex {
    BlockNoteIndex { batch_idx, note_idx_in_batch }
}

fn body(updates: Vec<BlockAccountUpdate>, nullifiers: Vec<Word>) -> BlockBody {
    BlockBody {
        transactions_commitment: Word(1, 1, 1, 1),
        updated_accounts: updates,
        created_nullifiers: nullifiers,
        output_notes: vec![],
    }
}

/// A chain whose trees are also kept by the protocol library, which gives the roots of headers.
struct Chain {
    inner: InnerState,
    headers: Vec<BlockHeader>,
    accounts: AccountTree<Smt>,
    nullifiers: NullifierTree<Smt>,
    blocks: Blockchain,
}

impl Chain {
    fn new() -> Self {
        let genesis = BlockHeader {
            block_num: block(0),
            commitment: Word(7, 0, 0, 0),
            prev_block_commitment: EMPTY_WORD,
            chain_commitment: EMPTY_WORD,
            account_root: EMPTY_WORD,
            nullifier_root: EMPTY_WORD,
            note_root: EMPTY_WORD,
            tx_commitment: EMPTY_WORD,
        };
        let mut blocks = Blockchain::new();
        blocks.push(protocol_word(genesis.commitment));
        Chain {
            inner: InnerState::new(genesis.commitment),
            headers: vec![genesis],
            accounts: AccountTree::default(),
            nullifiers: NullifierTree::default(),
            blocks,
        }
    }

    fn latest(&self) -> BlockHeader {
        *self.headers.last().unwrap()
    }

    /// The header of the next block with the given body.
    fn next_header(&self, body: &BlockBody) -> BlockHeader {
        let number = self.headers.len() as u32;
        let mut accounts = self.accounts.clone();
        for update in &body.updated_accounts {
            let id = miden_protocol::account::AccountId::try_from_elements(
                Felt::new(update.account_id.suffix),
                Felt::new(update.account_id.prefix),
            )
            .unwrap();
            accounts.insert(id, protocol_word(update.final_state_commitment)).unwrap();
        }
        let mut nullifiers = self.nullifiers.clone();
        for nullifier in &body.created_nullifiers {
            nullifiers
                .mark_spent(Nullifier::from_raw(protocol_word(*nullifier)), number.into())
                .unwrap();
        }
        let headers: Vec<_> = body
            .output_notes
            .iter()
            .map(|(index, note)| {
                let header = match note {
                    OutputNote::Public { header, .. } => header,
                    OutputNote::Private { header } => header,
                };
                let index = miden_protocol::block::BlockNoteIndex::new(
                    index.batch_idx,
                    index.note_idx_in_batch,
                )
                .unwrap();
                (
                    index,
                    NoteId::from_raw(protocol_word(header.note_id)),
                    NoteMetadata::read_from_bytes(&header.metadata).unwrap(),
                )
            })
            .collect();
        let notes = BlockNoteTree::with_entries(
            headers.iter().map(|(index, id, metadata)| (*index, *id, metadata)),
        )
        .unwrap();
        BlockHeader {
            block_num: block(number),
            commitment: Word(7, u64::from(number), 0, 0),
            prev_block_commitment: self.latest().commitment,
            chain_commitment: word(self.blocks.commitment()),
            account_root: word(accounts.root()),
            nullifier_root: word(nullifiers.root()),
            note_root: word(notes.root()),
            tx_commitment: body.transactions_commitment,
        }
    }

    fn validate(&self, header: &BlockHeader, body: &BlockBody) -> Result<(), ApplyBlockError> {
        validate_block(&self.inner, header, body, &Some(self.latest())).map(|_| ())
    }

    /// Applies the next block.
    fn apply(&mut self, body: BlockBody) {
        let header = self.next_header(&body);
        let prepared =
            begin_apply_block(true, &self.inner, &header, &body, &Some(self.latest())).unwrap();
        let stored = store_block(prepared, true, true).unwrap();
        assert!(stored.is_current(&self.inner));
        stored.finish(&mut self.inner, true, Ok(())).unwrap();

        for update in &body.updated_accounts {
            let id = miden_protocol::account::AccountId::try_from_elements(
                Felt::new(update.account_id.suffix),
                Felt::new(update.account_id.prefix),
            )
            .unwrap();
            self.accounts.insert(id, protocol_word(update.final_state_commitment)).unwrap();
        }
        for nullifier in &body.created_nullifiers {
            self.nullifiers
                .mark_spent(
                    Nullifier::from_raw(protocol_word(*nullifier)),
                    header.block_num.as_u32().into(),
                )
                .unwrap();
        }
        self.blocks.push(protocol_word(header.commitment));
        self.headers.push(header);
    }
}

/// A chain of some empty blocks after the genesis block.
fn chain_of(count: u32) -> Chain {
    let mut chain = Chain::new();
    for _ in 0..count {
        chain.apply(body(vec![], vec![]));
    }
    chain
}

fn invalid(error: InvalidBlockError) -> Result<(), ApplyBlockError> {
    Err(ApplyBlockError::InvalidBlockError(error))
}

// APPLYING BLOCKS
// ================================================================================================

#[test]
fn applied_blocks_are_part_of_the_state() {
    let mut chain = Chain::new();
    let spent = Word(3, 0, 0, 5);
    chain.apply(body(vec![update(account_id(1), Word(1, 2, 3, 4))], vec![spent]));
    chain.apply(body(vec![update(account_id(1), Word(5, 6, 7, 8))], vec![]));
    assert_eq!(chain.inner.latest_block_num(), block(2));

    let inputs = get_transaction_inputs(
        &chain.inner,
        account_id(1),
        &vec![spent, Word(1, 1, 1, 1)],
        vec![Word(9, 9, 9, 9)],
    );
    assert_eq!(inputs.account_commitment, Word(5, 6, 7, 8));
    assert_eq!(
        inputs.nullifiers,
        vec![
            NullifierInfo { nullifier: spent, block_num: block(1) },
            NullifierInfo { nullifier: Word(1, 1, 1, 1), block_num: block(0) },
        ]
    );
    assert_eq!(inputs.found_unauthenticated_notes, vec![Word(9, 9, 9, 9)]);
    assert_eq!(inputs.new_account_id_prefix_is_unique, None);
}

#[test]
fn new_accounts_need_a_prefix_of_their_own() {
    let mut chain = Chain::new();
    chain.apply(body(vec![update(account_id(1), Word(1, 2, 3, 4))], vec![]));
    let fresh = get_transaction_inputs(&chain.inner, account_id(2), &vec![], vec![]);
    assert_eq!(fresh.new_account_id_prefix_is_unique, Some(true));
    let taken = get_transaction_inputs(
        &chain.inner,
        twin(account_id(1)),
        &vec![Word(1, 1, 1, 1)],
        vec![Word(9, 9, 9, 9)],
    );
    assert_eq!(taken.new_account_id_prefix_is_unique, Some(false));
    assert_eq!(taken.account_commitment, EMPTY_WORD);
    assert!(taken.nullifiers.is_empty());
    assert!(taken.found_unauthenticated_notes.is_empty());

    let second = body(vec![update(twin(account_id(1)), Word(1, 1, 1, 1))], vec![]);
    let mut header = chain.next_header(&body(vec![], vec![]));
    header.block_num = block(2);
    assert_eq!(
        chain.validate(&header, &second),
        invalid(InvalidBlockError::NewBlockDuplicateAccountIdPrefix)
    );
}

#[test]
fn headers_have_to_fit_the_body_and_the_previous_block() {
    let chain = chain_of(1);
    let body = body(vec![], vec![]);
    let header = chain.next_header(&body);
    assert_eq!(validate_block_header(&header, &body, &Some(chain.latest())), Ok(()));

    let other_transactions = BlockHeader { tx_commitment: Word(2, 2, 2, 2), ..header };
    assert_eq!(
        chain.validate(&other_transactions, &body),
        invalid(InvalidBlockError::InvalidBlockTxCommitment {
            expected: Word(1, 1, 1, 1),
            actual: Word(2, 2, 2, 2),
        })
    );
    assert_eq!(
        validate_block_header(&header, &body, &None),
        Err(ApplyBlockError::DbBlockHeaderEmpty)
    );
    let skipped = BlockHeader { block_num: block(4), ..header };
    assert_eq!(
        chain.validate(&skipped, &body),
        invalid(InvalidBlockError::NewBlockInvalidBlockNum {
            expected: block(2),
            submitted: block(4),
        })
    );
    let other_parent = BlockHeader { prev_block_commitment: Word(1, 0, 0, 0), ..header };
    assert_eq!(
        chain.validate(&other_parent, &body),
        invalid(InvalidBlockError::NewBlockInvalidPrevCommitment)
    );
}

#[test]
fn headers_have_to_commit_to_the_state_after_the_block() {
    let mut chain = Chain::new();
    let spent = Word(3, 0, 0, 5);
    chain.apply(body(vec![], vec![spent]));
    let next = body(vec![update(account_id(1), Word(1, 2, 3, 4))], vec![Word(4, 0, 0, 5)]);
    let header = chain.next_header(&next);
    assert_eq!(chain.validate(&header, &next), Ok(()));

    let wrong = Word(6, 6, 6, 6);
    for (header, error) in [
        (
            BlockHeader { chain_commitment: wrong, ..header },
            InvalidBlockError::NewBlockInvalidChainCommitment,
        ),
        (
            BlockHeader { nullifier_root: wrong, ..header },
            InvalidBlockError::NewBlockInvalidNullifierRoot,
        ),
        (
            BlockHeader { account_root: wrong, ..header },
            InvalidBlockError::NewBlockInvalidAccountRoot,
        ),
        (
            BlockHeader { note_root: wrong, ..header },
            InvalidBlockError::NewBlockInvalidNoteRoot,
        ),
    ] {
        assert_eq!(chain.validate(&header, &next), invalid(error));
    }

    let again = body(vec![], vec![Word(8, 0, 0, 1), spent]);
    assert_eq!(
        chain.validate(&header, &again),
        invalid(InvalidBlockError::DuplicatedNullifiers(vec![spent]))
    );
}

#[test]
fn notes_are_stored_with_their_paths() {
    let chain = Chain::new();
    let details = vec![1, 2, 3];
    let public = match output_note(2) {
        OutputNote::Private { header } => OutputNote::Public {
            header,
            details: details.clone(),
            nullifier: Word(5, 5, 5, 5),
        },
        note => note,
    };
    let mut body = body(vec![], vec![]);
    body.output_notes = vec![(note_index(0, 0), output_note(1)), (note_index(1, 3), public)];
    let header = chain.next_header(&body);
    assert_eq!(chain.validate(&header, &body), Ok(()));

    let records = build_note_records(&header, &body).unwrap();
    assert_eq!(records.len(), 2);
    for (i, (record, _)) in records.iter().enumerate() {
        let note = note_header(i as u64 + 1);
        assert_eq!(record.block_num, block(1));
        assert_eq!(record.note_id, word(note.id().as_word()));
        assert_eq!(record.note_commitment, word(note.to_commitment()));
        assert_eq!(record.metadata, note.metadata().to_bytes());
        let path = SparseMerklePath::read_from_bytes(&record.inclusion_path).unwrap();
        let index = miden_protocol::block::BlockNoteIndex::new(
            record.note_index.batch_idx,
            record.note_index.note_idx_in_batch,
        )
        .unwrap();
        let path: MerklePath = path.into();
        let root = path
            .compute_root(u64::from(index.leaf_index_value()), note.to_commitment())
            .unwrap();
        assert_eq!(word(root), header.note_root, "the path proves the note");
    }
    assert_eq!(records[0].0.details, None);
    assert_eq!(records[0].1, None);
    assert_eq!(records[1].0.details, Some(details));
    assert_eq!(records[1].1, Some(Word(5, 5, 5, 5)));
    assert_eq!(records[1].0.note_index, note_index(1, 3));
}

#[test]
fn blocks_that_are_not_committed_leave_the_state() {
    let mut chain = chain_of(1);
    let body = body(vec![update(account_id(1), Word(1, 2, 3, 4))], vec![]);
    let header = chain.next_header(&body);
    let prepare = |chain: &Chain| {
        begin_apply_block(true, &chain.inner, &header, &body, &Some(chain.latest())).unwrap()
    };
    assert_eq!(
        begin_apply_block(false, &chain.inner, &header, &body, &Some(chain.latest())).err(),
        Some(ApplyBlockError::ConcurrentWrite)
    );
    assert_eq!(
        store_block(prepare(&chain), false, true).err(),
        Some(ApplyBlockError::ClosedChannel)
    );
    assert_eq!(
        store_block(prepare(&chain), true, false).err(),
        Some(ApplyBlockError::BlockSaveFailed)
    );
    let stored = store_block(prepare(&chain), true, true).unwrap();
    assert_eq!(
        stored.finish(&mut chain.inner, false, Ok(())),
        Err(ApplyBlockError::DbUpdateTaskFailed("Receiver was dropped".to_string()))
    );
    let stored = store_block(prepare(&chain), true, true).unwrap();
    assert_eq!(
        stored.finish(&mut chain.inner, true, Err("locked".to_string())),
        Err(ApplyBlockError::DbUpdateTaskFailed("locked".to_string()))
    );
    assert_eq!(chain.inner.latest_block_num(), block(1));

    let stale = store_block(prepare(&chain), true, true).unwrap();
    chain.apply(body.clone());
    assert!(!stale.is_current(&chain.inner));
    assert_eq!(
        stale.finish(&mut chain.inner, true, Ok(())),
        Err(ApplyBlockError::ConcurrentWrite)
    );
    assert_eq!(chain.inner.latest_block_num(), block(2));
}

fn vault_update(id: AccountId, amount: i64) -> BlockAccountUpdate {
    let faucet =
        miden_protocol::account::AccountId::try_from(ACCOUNT_ID_PUBLIC_FUNGIBLE_FAUCET).unwrap();
    let asset: miden_protocol::asset::Asset = FungibleAsset::new(faucet, 1).unwrap().into();
    BlockAccountUpdate {
        account_id: id,
        final_state_commitment: Word(1, 2, 3, 4),
        details: AccountUpdateDetails::Delta(AccountDelta {
            storage: StorageDelta { values: vec![], maps: vec![] },
            vault: VaultDelta {
                fungible: vec![(word(asset.to_key_word()), amount)],
                non_fungible: vec![],
            },
            nonce_delta: 1,
        }),
    }
}

#[test]
fn committed_blocks_change_trees_chain_and_forest() {
    let mut chain = chain_of(1);
    let mut forest = AccountStateForest::new();
    let id = account_id(1);
    let body = body(vec![vault_update(id, 5)], vec![Word(1, 0, 0, 9)]);
    let header = chain.next_header(&body);
    let prepared =
        validate_block(&chain.inner, &header, &body, &Some(chain.latest())).ok().unwrap();
    commit_block(&mut chain.inner, &mut forest, prepared, &body.updated_accounts).unwrap();
    assert_eq!(chain.inner.latest_block_num(), header.block_num);
    assert!(forest.get_vault_root(id, header.block_num).is_some());
    assert!(matches!(
        validate_block(&chain.inner, &header, &body, &Some(chain.latest())),
        Err(ApplyBlockError::InvalidBlockError(InvalidBlockError::DuplicatedNullifiers(found)))
            if found == vec![Word(1, 0, 0, 9)]
    ));
}

#[test]
fn commits_fail_if_the_forest_cannot_be_updated() {
    let mut chain = chain_of(1);
    let mut forest = AccountStateForest::new();
    let body = body(vec![vault_update(account_id(1), -5)], vec![]);
    let header = chain.next_header(&body);
    let prepared =
        validate_block(&chain.inner, &header, &body, &Some(chain.latest())).ok().unwrap();
    assert!(matches!(
        commit_block(&mut chain.inner, &mut forest, prepared, &body.updated_accounts),
        Err(ApplyBlockError::AccountStateForestError(_))
    ));
    assert_eq!(chain.inner.latest_block_num(), block(1), "the chain stays behind the trees");
}

#[test]
fn commits_end_once_the_block_is_stored() {
    assert_eq!(commit_result(true, Ok(())), Ok(()));
    assert_eq!(
        commit_result(false, Err("locked".to_string())),
        Err(ApplyBlockError::BlockSaveFailed)
    );
    assert_eq!(
        commit_result(true, Err("locked".to_string())),
        Err(ApplyBlockError::DbUpdateTaskFailed("locked".to_string()))
    );
}

#[test]
fn readers_see_a_block_once_it_is_stored() {
    let mut held = block(1);
    let refused = ApplyBlockError::ConcurrentWrite;
    assert_eq!(
        publish_state(&mut held, Err(refused.clone()), true, Ok(())),
        Err(refused)
    );
    assert_eq!(
        publish_state(&mut held, Ok(block(2)), false, Ok(())),
        Err(ApplyBlockError::BlockSaveFailed)
    );
    assert_eq!(
        publish_state(&mut held, Ok(block(2)), true, Err("locked".to_string())),
        Err(ApplyBlockError::DbUpdateTaskFailed("locked".to_string()))
    );
    assert_eq!(held, block(1));
    assert_eq!(publish_state(&mut held, Ok(block(2)), true, Ok(())), Ok(()));
    assert_eq!(held, block(2));
}

#[test]
fn an_update_that_is_there_twice_counts_once() {
    let mut chain = chain_of(1);
    let repeated = update(account_id(1), Word(1, 2, 3, 4));
    let twice = body(vec![repeated.clone(), update(account_id(2), Word(5, 0, 0, 0)), repeated], vec![]);
    assert_eq!(check_body(&chain.inner, &twice), Ok(()));
    chain.apply(twice.clone());
    assert_eq!(check_body(&chain.inner, &twice), Ok(()));
    chain.apply(twice);
    assert_eq!(chain.headers[2].account_root, chain.headers[3].account_root);
}

#[test]
fn bodies_that_the_trees_cannot_take_are_refused() {
    let mut chain = chain_of(1);
    let id = account_id(1);
    let good = body(vec![update(id, Word(1, 0, 0, 0))], vec![Word(1, 0, 0, 9)]);
    assert_eq!(check_body(&chain.inner, &good), Ok(()));

    let mut twins = good.clone();
    twins.updated_accounts.push(update(twin(id), Word(2, 0, 0, 0)));
    assert_eq!(
        check_body(&chain.inner, &twins),
        Err(InvalidBlockError::NewBlockDuplicateAccountIdPrefix)
    );
    let mut changed = good.clone();
    changed.updated_accounts.push(update(id, Word(2, 0, 0, 0)));
    assert_eq!(
        check_body(&chain.inner, &changed),
        Err(InvalidBlockError::NewBlockDuplicateAccountIdPrefix)
    );
    let mut notes = good.clone();
    notes.output_notes =
        vec![(note_index(1, 2), output_note(1)), (note_index(1, 2), output_note(2))];
    assert_eq!(
        check_body(&chain.inner, &notes),
        Err(InvalidBlockError::NewBlockInvalidNoteRoot)
    );
    let mut word_too_large = good;
    word_too_large.created_nullifiers.push(Word(u64::MAX, 0, 0, 0));
    assert_eq!(
        check_body(&chain.inner, &word_too_large),
        Err(InvalidBlockError::NewBlockInvalidNullifierRoot)
    );

    // A leaf of the tree holds 1024 nullifiers.
    let nullifiers = |from, to| (from..to).map(|num| Word(num, 0, 0, 5)).collect::<Vec<_>>();
    assert!(check_created_nullifiers(&chain.inner.nullifier_tree, &nullifiers(0, 1024)));
    assert!(!check_created_nullifiers(&chain.inner.nullifier_tree, &nullifiers(0, 1025)));
    chain.apply(body(vec![], nullifiers(0, 3)));
    assert!(check_created_nullifiers(&chain.inner.nullifier_tree, &nullifiers(3, 1024)));
    assert!(!check_created_nullifiers(&chain.inner.nullifier_tree, &nullifiers(3, 1025)));
}

#[test]
fn published_blocks_are_kept_for_subscribers() {
    let id = account_id(1);
    let mut forest = AccountStateForest::new();
    let mut cache = BlockCache::new(2);
    assert_eq!(
        publish_block(&mut forest, &mut cache, block(1), &vec![vault_update(id, 5)], vec![7]),
        Ok(block(1))
    );
    assert_eq!(cache.get(block(1)).unwrap().block_bytes(), [7].as_slice());
    assert!(forest.get_vault_root(id, block(1)).is_some());
    assert!(matches!(
        publish_block(&mut forest, &mut cache, block(2), &vec![vault_update(id, -6)], vec![8]),
        Err(ApplyBlockError::AccountStateForestError(_))
    ));
    assert!(cache.get(block(2)).is_none());
}

#[test]
fn a_writer_that_failed_to_commit_ends() {
    assert_eq!(writer_action(WriterEvent::ValidationFailed), WriterAction::Continue);
    assert_eq!(writer_action(WriterEvent::Committed), WriterAction::Continue);
    assert_eq!(writer_action(WriterEvent::CommitFailed), WriterAction::Terminate);
}

// CHAIN QUERIES
// ================================================================================================

#[test]
fn headers_come_with_a_proof_if_requested() {
    let chain = chain_of(4);
    let header = chain.headers[2];
    assert_eq!(get_block_header(&chain.inner, None, true), Ok((None, None)));
    assert_eq!(get_block_header(&chain.inner, Some(header), false), Ok((Some(header), None)));
    let (found, proof) = get_block_header(&chain.inner, Some(header), true).unwrap();
    assert_eq!(found, Some(header));
    let proof = proof.unwrap();
    let expected = chain.blocks.open(2.into()).unwrap();
    assert_eq!(proof.chain_length, 5);
    assert_eq!(proof.position, 2);
    assert_eq!(proof.block_commitment, header.commitment);
    let path: Vec<_> = expected.merkle_path().nodes().iter().map(|node| word(*node)).collect();
    assert_eq!(proof.path, path);

    let unknown = BlockHeader { block_num: block(5), ..header };
    assert_eq!(
        get_block_header(&chain.inner, Some(unknown), true),
        Err(MmrError(block(5)))
    );
}

#[test]
fn the_peaks_are_those_before_the_latest_block() {
    let chain = chain_of(4);
    let latest = chain.latest();
    assert_eq!(get_current_blockchain_data(&chain.inner, Some(block(4)), latest), Ok(None));
    let (header, peaks) =
        get_current_blockchain_data(&chain.inner, Some(block(3)), latest).unwrap().unwrap();
    assert_eq!(header, latest);
    let expected = chain.blocks.peaks_at(4.into()).unwrap();
    let expected: Vec<_> = expected.peaks().iter().map(|peak| word(*peak)).collect();
    assert_eq!(peaks, expected);
    let unknown = BlockHeader { block_num: block(9), ..latest };
    assert_eq!(
        get_current_blockchain_data(&chain.inner, None, unknown),
        Err(MmrError(block(9)))
    );
}

#[test]
fn blocks_and_proofs_are_loaded_up_to_their_tips() {
    let tips = ChainTips { committed: block(7), proven: block(4) };
    assert_eq!(tips.chain_tip(Finality::Committed), block(7));
    assert_eq!(tips.chain_tip(Finality::Proven), block(4));
    assert!(tips.may_load_block(block(7)));
    assert!(!tips.may_load_block(block(8)));
    assert!(tips.may_load_proof(block(4)));
    assert!(!tips.may_load_proof(block(5)));
}

// INPUTS
// ================================================================================================

#[test]
fn batch_inputs_prove_the_blocks_before_the_latest() {
    let chain = chain_of(5);
    let references = BlockSet::from_blocks(&vec![block(1), block(5)]);
    assert_eq!(check_batch_references(&references), Ok(()));
    let inputs = get_batch_inputs(&chain.inner, references, &vec![block(3), block(1)]).unwrap();
    assert_eq!(inputs.reference_block, block(5));
    assert_eq!(inputs.blocks.blocks, vec![block(1), block(3)]);
    let peaks = inputs.partial_mmr.peaks();
    assert_eq!(peaks.num_leaves(), 5);
    for number in [1, 3] {
        let proof = inputs.partial_mmr.open(number).unwrap().unwrap();
        assert!(inputs.partial_mmr.is_tracked(number));
        assert_eq!(proof.position(), number);
    }
    assert!(!inputs.partial_mmr.is_tracked(2));

    assert_eq!(
        get_batch_inputs(&chain.inner, BlockSet::new(), &vec![block(1)]).err(),
        Some(GetBatchInputsError::TransactionBlockReferencesEmpty)
    );
    assert_eq!(
        get_batch_inputs(&chain.inner, BlockSet::from_blocks(&vec![block(1)]), &vec![block(6)])
            .err(),
        Some(GetBatchInputsError::UnknownTransactionBlockReference {
            highest_block_num: block(6),
            latest_block_num: block(5),
        })
    );
}

#[test]
fn block_inputs_hold_the_witnesses_of_accounts_and_nullifiers() {
    let mut chain = chain_of(2);
    let spent = Word(3, 0, 0, 5);
    chain.apply(body(vec![update(account_id(1), Word(1, 2, 3, 4))], vec![spent]));
    let inputs = get_block_inputs(
        &chain.inner,
        &vec![account_id(1), account_id(2)],
        &vec![spent, Word(9, 9, 9, 9)],
        BlockSet::from_blocks(&vec![block(3)]),
        &vec![block(1)],
    )
    .unwrap();
    assert_eq!(inputs.chain.reference_block, block(3));
    assert_eq!(inputs.chain.blocks.blocks, vec![block(1)]);
    for (byte, (id, witness)) in [1, 2].iter().zip(&inputs.account_witnesses) {
        assert_eq!(*id, account_id(*byte));
        let witness = AccountWitness::read_from_bytes(witness).unwrap();
        assert_eq!(witness, chain.accounts.open(protocol_id(*byte)));
    }
    for (nullifier, witness) in &inputs.nullifier_witnesses {
        assert!(NullifierWitness::read_from_bytes(witness).is_ok());
        let nullifier = Nullifier::from_raw(protocol_word(*nullifier));
        assert_eq!(*witness, chain.nullifiers.open(&nullifier).to_bytes());
    }
    assert_eq!(inputs.nullifier_witnesses.len(), 2);

    assert_eq!(
        get_block_inputs(
            &chain.inner,
            &vec![],
            &vec![],
            BlockSet::from_blocks(&vec![block(2)]),
            &vec![block(4), block(8)],
        )
        .err(),
        Some(GetBlockInputsError::UnknownBatchBlockReference {
            highest_block_number: block(8),
            latest_block_number: block(3),
        })
    );
}

#[test]
fn the_reference_header_is_taken_out() {
    let chain = chain_of(3);
    let headers = chain.headers[..3].to_vec();
    let (header, rest) = split_reference_header(headers.clone(), block(0)).unwrap();
    assert_eq!(header, chain.headers[0]);
    assert_eq!(rest, vec![chain.headers[2], chain.headers[1]]);
    assert_eq!(split_reference_header(headers, block(3)), None);
}

// SYNCHRONIZATION
// ================================================================================================

#[test]
fn clients_extend_their_chain_by_the_delta() {
    let chain = chain_of(6);
    let delta = sync_chain_mmr(&chain.inner, BlockRange::new(block(1), block(5))).unwrap();
    assert_eq!(delta.chain_length, 5);

    let peaks = chain.blocks.peaks_at(2.into()).unwrap();
    let mut client = PartialMmr::from_peaks(peaks);
    let data = delta.data.iter().map(|node| protocol_word(*node)).collect();
    client
        .apply(miden_protocol::crypto::merkle::mmr::MmrDelta {
            forest: Forest::new(delta.chain_length),
            data,
        })
        .unwrap();
    assert_eq!(client.peaks(), chain.blocks.peaks_at(5.into()).unwrap());

    let same = sync_chain_mmr(&chain.inner, BlockRange::new(block(4), block(4))).unwrap();
    assert_eq!((same.chain_length, same.data.len()), (4, 0));
    assert_eq!(
        sync_chain_mmr(&chain.inner, BlockRange::new(block(1), block(7))),
        Err(StateSyncError::UnknownBlock(block(7)))
    );
    assert_eq!(
        sync_chain_mmr(&chain.inner, BlockRange::new(block(5), block(2))),
        Err(StateSyncError::FailedToBuildMmrDelta)
    );
}

fn note_update(header: BlockHeader, count: u64) -> NoteSyncUpdate {
    let notes = (0..count)
        .map(|num| NoteSyncRecord {
            block_num: header.block_num,
            note_index: note_index(0, num as usize),
            note_id: Word(num, 0, 0, 0),
            metadata: vec![],
            inclusion_path: vec![],
        })
        .collect();
    NoteSyncUpdate { block_header: header, notes }
}

#[test]
fn notes_are_collected_block_by_block() {
    let chain = chain_of(6);
    let range = BlockRange::new(block(1), block(5));
    let mut scan = NoteSyncScan::new(&chain.inner, range).unwrap();
    assert_eq!(scan.next_range(), range);
    let max_payload = 10_000;
    let first = note_update(chain.headers[2], 2);
    assert_eq!(scan.add(&chain.inner, first.clone(), max_payload), Ok(true));
    assert_eq!(scan.accumulated_size, 1600 + 2 * 700);
    assert_eq!(scan.next_range(), BlockRange::new(block(3), block(5)));
    assert_eq!(scan.add(&chain.inner, note_update(chain.headers[4], 10), max_payload), Ok(false));
    assert_eq!(scan.add(&chain.inner, note_update(chain.headers[5], 1), max_payload), Ok(true));
    assert_eq!(
        scan.add(&chain.inner, note_update(chain.headers[6], 1), max_payload),
        Err(NoteSyncError::MmrError)
    );
    let (results, last) = scan.finish();
    assert_eq!(last, block(5));
    assert_eq!(results.len(), 2);
    assert_eq!(results[0].0, first);
    let proof = chain.blocks.open_at(2.into(), 6.into()).unwrap();
    let path: Vec<_> = proof.merkle_path().nodes().iter().map(|node| word(*node)).collect();
    assert_eq!(results[0].1.path, path);
    assert_eq!(results[0].1.chain_length, 6);
}

#[test]
fn note_ranges_end_at_the_tip_or_before() {
    let chain = chain_of(3);
    assert_eq!(
        NoteSyncScan::new(&chain.inner, BlockRange::new(block(1), block(4))).err(),
        Some(NoteSyncError::FutureBlock { chain_tip: block(3), block_to: block(4) })
    );
    let scan = NoteSyncScan::new(&chain.inner, BlockRange::new(block(1), block(3))).unwrap();
    let (results, last) = scan.finish();
    assert!(results.is_empty());
    assert_eq!(last, block(3), "without notes the whole range was checked");
}

#[test]
fn the_first_block_of_notes_is_taken_whatever_its_size() {
    let chain = chain_of(3);
    let mut scan =
        NoteSyncScan::new(&chain.inner, BlockRange::new(block(0), block(3))).unwrap();
    assert_eq!(scan.add(&chain.inner, note_update(chain.headers[1], 50), 1), Ok(true));
    assert_eq!(scan.add(&chain.inner, note_update(chain.headers[2], 1), 1), Ok(false));
    assert_eq!(scan.finish().1, block(1));
}

#[test]
fn queries_are_scoped_to_the_tip() {
    let range = BlockRange::new(block(1), block(5));
    assert_eq!(check_sync_range(range, block(5)), Ok(()));
    assert_eq!(check_sync_range(range, block(4)), Err(DatabaseError::UnknownBlock(block(5))));
    let scoped = scope_query(range, block(6), Ok("rows")).unwrap();
    assert_eq!((scoped.chain_tip, scoped.value), (block(6), "rows"));
    assert_eq!(
        scope_query(range, block(4), Ok("rows")).err(),
        Some(DatabaseError::UnknownBlock(block(5)))
    );
    assert_eq!(
        scope_query::<u8>(range, block(6), Err(DatabaseError::AccountError)).err(),
        Some(DatabaseError::AccountError)
    );
}

// LOADING
// ================================================================================================

#[test]
fn a_state_that_was_stored_is_loaded_again() {
    let mut chain = chain_of(1);
    let spent = Word(3, 0, 0, 5);
    chain.apply(body(
        vec![update(account_id(1), Word(1, 2, 3, 4)), update(account_id(2), Word(4, 3, 2, 1))],
        vec![spent],
    ));
    let next = body(vec![], vec![Word(1, 1, 1, 1)]);
    let next_header = chain.next_header(&next);
    let latest = chain.latest();
    let commitments = chain.headers.iter().map(|header| header.commitment).collect();
    drop(chain);

    let blocks = load_mmr(&commitments);
    assert_eq!(latest_loaded_block(&blocks), block(2));
    assert_eq!(latest_loaded_block(&load_mmr(&vec![])), block(0));
    let mut accounts = AccountCommitments::new();
    load_account_page(&mut accounts, &vec![(account_id(1), Word(1, 2, 3, 4))]).unwrap();
    load_account_page(&mut accounts, &vec![(account_id(2), Word(4, 3, 2, 1))]).unwrap();
    let mut nullifiers = SpentNullifiers::new();
    load_nullifier_page(
        &mut nullifiers,
        &vec![NullifierInfo { nullifier: spent, block_num: block(2) }],
    );
    let loaded = load_inner_state(blocks, accounts, nullifiers, Some(latest)).ok().unwrap();
    assert_eq!(loaded.latest_block_num(), block(2));
    assert!(validate_block(&loaded, &next_header, &next, &Some(latest)).is_ok());
}

#[test]
fn a_stored_nullifier_is_added_once_and_with_its_block() {
    let mut nullifiers = SpentNullifiers::new();
    let first = NullifierInfo { nullifier: Word(3, 0, 0, 5), block_num: block(2) };
    assert!(check_nullifier(&nullifiers, &first));
    assert!(!check_nullifier(
        &nullifiers,
        &NullifierInfo { nullifier: Word(3, 0, 0, 5), block_num: block(0) }
    ));
    assert!(!check_nullifier(
        &nullifiers,
        &NullifierInfo { nullifier: Word(u64::MAX, 0, 0, 5), block_num: block(2) }
    ));
    let second = NullifierInfo { nullifier: Word(3, 0, 0, 6), block_num: block(3) };
    load_nullifier_page(&mut nullifiers, &vec![first.clone()]);
    assert!(!check_nullifier(&nullifiers, &first));
    assert!(check_nullifier(&nullifiers, &second));
}

#[test]
fn trees_have_to_match_the_latest_block() {
    let chain = chain_of(1);
    let latest = chain.latest();
    assert_eq!(
        verify_tree_consistency(latest.account_root, latest.nullifier_root, Some(latest)),
        Ok(())
    );
    let diverged = |tree_name, tree_root, block_root| {
        Err(StateInitializationError::TreeStorageDiverged {
            tree_name,
            block_num: block(1),
            tree_root,
            block_root,
        })
    };
    assert_eq!(
        verify_tree_consistency(Word(1, 0, 0, 0), latest.nullifier_root, Some(latest)),
        diverged(TreeName::Account, Word(1, 0, 0, 0), latest.account_root)
    );
    assert_eq!(
        verify_tree_consistency(latest.account_root, Word(1, 0, 0, 0), Some(latest)),
        diverged(TreeName::Nullifier, Word(1, 0, 0, 0), latest.nullifier_root)
    );
    assert!(verify_tree_consistency(latest.account_root, EMPTY_WORD, None).is_err());
    assert_eq!(verify_tree_consistency(EMPTY_WORD, EMPTY_WORD, None), Ok(()));
}

#[test]
fn accounts_with_the_same_prefix_are_not_loaded() {
    let mut accounts = AccountCommitments::new();
    let page = vec![(account_id(1), Word(1, 0, 0, 0)), (twin(account_id(1)), Word(2, 0, 0, 0))];
    assert_eq!(
        load_account_page(&mut accounts, &page),
        Err(StateInitializationError::FailedToCreateAccountsTree)
    );
}

#[test]
fn pages_are_loaded_until_there_is_none() {
    assert_eq!(next_load_step(false, true), LoadStep::NextPage);
    assert_eq!(next_load_step(false, false), LoadStep::Done);
    assert_eq!(next_load_step(true, true), LoadStep::Done);
    assert_eq!(block_num_to_nullifier_leaf(block(7)), Word(7, 0, 0, 0));
}

#[test]
fn the_forest_is_built_from_public_accounts() {
    let summary =
        AccountSummary { account_id: account_id(1), account_commitment: EMPTY_WORD, block_num: block(2) };
    let mut forest = AccountStateForest::new();
    assert_eq!(
        load_forest_account(&mut forest, block(3), AccountInfo { summary, details: None }),
        Err(StateInitializationError::PublicAccountMissingDetails(account_id(1)))
    );
    let state = FullAccountState {
        nonce: 1,
        code_commitment: Word(1, 0, 0, 0),
        code: vec![],
        slots: vec![],
        assets: vec![],
    };
    let info = || AccountInfo { summary, details: Some(state.clone()) };
    assert_eq!(load_forest_account(&mut forest, block(3), info()), Ok(()));
    assert_eq!(
        forest.get_vault_root(account_id(1), block(3)),
        Some(AccountStateForest::empty_smt_root())
    );
    assert_eq!(
        load_forest_account(&mut forest, block(3), info()),
        Err(StateInitializationError::AccountStateForestError(
            AccountStateForestError::AccountExists(account_id(1))
        ))
    );
}
