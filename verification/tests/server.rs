use miden_node_store::account_code::{code_commitment, find_short_code};
use miden_node_store::account_id::AccountId;
use miden_node_store::account_state_forest::forest::AccountStateForest;
use miden_node_store::block_number::{BlockNumber, BlockRange};
use miden_node_store::db::delta::{MapDelta, StorageDelta, VaultDelta};
use miden_node_store::db::transactions::BlockNoteIndex;
use miden_node_store::db::updates::{AccountDelta, AccountUpdateDetails, BlockAccountUpdate};
use miden_node_store::errors::{
    ApplyBlockError, DatabaseError, InvalidBlockError, NoteSyncError, StateSyncError,
};
use miden_node_store::genesis::SealedHeader;
use miden_node_store::notes::{InputNoteCommitment, NoteHeader};
use miden_node_store::server::api::{
    block_inputs_from_ordered_batches, check_limit, conversion_error_to_status,
    convert_digests_to_words, distinct_words, get_block_header_by_number_inner, internal_error,
    invalid_argument, out_of_range_error, read_block_numbers, read_ordered_batches,
    validate_note_commitments, validate_nullifiers, BatchesError, Code, ConversionError, Digest,
    TransactionBatch, MAX_REPLICA_SUBSCRIPTIONS,
};
use miden_node_store::server::block_producer::{
    apply_block_response, read_apply_block_request, read_batch_inputs_request,
    read_block_inputs_request, read_transaction_inputs_request, take_signed_block,
    transaction_inputs_response, ApplyBlockRequest, ApplyBlockRequestError, ApplyBlockResponse, ApplyOutcome, BlockParts,
};
use miden_node_store::server::data_directory::{DataDirectory, DatabaseOptions, NotADirectory};
use miden_node_store::server::ntx_builder::{
    current_blockchain_data, get_storage_map_witness, get_vault_asset_witnesses,
    network_account_ids, read_map_key, read_page, read_vault_keys, requested_block,
};
use miden_node_store::server::proof_scheduler::{
    check_proving_inputs, AttemptOutcome, ProofSchedule, ProofSchedulerError, ProveAction,
    ProveAttempts, ProveBlockError, ProveFailure, RemoteProverClientError, SchedulerAction,
    SchedulerEvent, StoreProverError, TransientError, BLOCK_PROVE_ATTEMPT_TIMEOUT_SECS,
    BLOCK_PROVE_OVERALL_TIMEOUT_SECS, DEFAULT_MAX_CONCURRENT_PROOFS, MAX_PROVE_ATTEMPTS,
};
use miden_node_store::server::replica_sync::{
    first_block_to_request, reconnect, StreamEnd, SyncKind,
};
use miden_node_store::server::rpc_api::{
    check_nullifiers, check_prefix_len, check_public_account, check_sync_notes, extend_chain, paginate,
    read_chain_range, read_note_ids, status, sync_chain_mmr_response, AccountNotPublic,
    CheckNullifiersError, GetNotesByIdError, RequestedRange, SyncChainMmrError, SyncNotesError,
    SyncNullifiersError,
};
use miden_node_store::server::store::{
    serve_result, services, ServeError, ServerEvent, Services, StoreMode,
};
use miden_node_store::state::account::Asset;
use miden_node_store::state::apply_block::{BlockBody, BlockHeader, InnerState, OutputNote};
use miden_node_store::state::chain::{ChainTips, Finality, MmrError};
use miden_node_store::state::inputs::{NullifierInfo, TransactionInputs};
use miden_node_store::state::signed_block::{
    check_output_notes, SignedBlock, SignedBlockError,
};
use miden_node_store::word::Word;
use miden_protocol::account::delta::{
    AccountDelta as ProtocolDelta, AccountUpdateDetails as ProtocolDetails,
};
use miden_protocol::account::{AccountCode, AccountIdVersion, AccountStorageMode, AccountType, StorageSlotName};
use miden_protocol::asset::FungibleAsset;
use miden_protocol::batch::{BatchAccountUpdate, BatchId, OrderedBatches, ProvenBatch};
use miden_protocol::block::nullifier_tree::NullifierTree;
use miden_protocol::block::BlockNoteTree;
use miden_protocol::crypto::dsa::ecdsa_k256_keccak::SecretKey;
use miden_protocol::crypto::merkle::smt::{Smt, SmtProof};
use miden_protocol::note::{NoteId, NoteMetadata, NoteType, Nullifier};
use miden_protocol::testing::account_id::ACCOUNT_ID_PUBLIC_FUNGIBLE_FAUCET;
use miden_protocol::testing::random_secret_key::random_secret_key;
use miden_protocol::transaction::{InputNotes, OrderedTransactionHeaders};
use miden_protocol::utils::serde::{Deserializable, Serializable};
use miden_protocol::Felt;

const FIELD_ORDER: u64 = 0xFFFF_FFFF_0000_0001;

fn word(word: miden_protocol::Word) -> Word {
    let [a, b, c, d] = word.into_elements().map(|element| element.as_canonical_u64());
    Word(a, b, c, d)
}

fn protocol_word(word: Word) -> miden_protocol::Word {
    miden_protocol::Word::new([word.0, word.1, word.2, word.3].map(Felt::new))
}

fn account_id(byte: u8, storage_mode: AccountStorageMode) -> AccountId {
    let id = miden_protocol::account::AccountId::dummy(
        [byte; 15],
        AccountIdVersion::Version0,
        AccountType::RegularAccountImmutableCode,
        storage_mode,
    );
    AccountId { prefix: id.prefix().as_u64(), suffix: id.suffix().as_canonical_u64() }
}

fn block(number: u32) -> BlockNumber {
    BlockNumber::from(number)
}

fn digest(word: Word) -> Digest {
    Digest { d0: word.0, d1: word.1, d2: word.2, d3: word.3 }
}

fn no_digest() -> Digest {
    Digest { d0: 1, d1: FIELD_ORDER, d2: 0, d3: 0 }
}

fn header(number: u32) -> BlockHeader {
    BlockHeader {
        block_num: block(number),
        commitment: Word(7, 0, 0, 0),
        prev_block_commitment: Word(0, 0, 0, 0),
        chain_commitment: Word(0, 0, 0, 0),
        account_root: Word(0, 0, 0, 0),
        nullifier_root: Word(0, 0, 0, 0),
        note_root: Word(0, 0, 0, 0),
        tx_commitment: Word(0, 0, 0, 0),
    }
}

fn genesis_state() -> InnerState {
    InnerState::new(Word(7, 0, 0, 0))
}

// STATUS AND DIGESTS
// ================================================================================================

#[test]
fn statuses_say_what_kind_of_error_it_was() {
    for (status, code) in [
        (internal_error("message"), Code::Internal),
        (invalid_argument("message"), Code::InvalidArgument),
        (out_of_range_error("message"), Code::OutOfRange),
    ] {
        assert_eq!(status.code, code);
        assert_eq!(status.message, "message");
    }
    let status = conversion_error_to_status(&ConversionError);
    assert_eq!(status.code, Code::InvalidArgument);
    assert_eq!(status.message, "Invalid nullifier format");
    assert_eq!(check_limit(3, 3), Ok(()));
    assert_eq!(check_limit(4, 3).unwrap_err().code, Code::OutOfRange);
    assert_eq!(MAX_REPLICA_SUBSCRIPTIONS, 10);
}

#[test]
fn digests_are_words_of_field_elements() {
    let words = vec![Word(1, 2, 3, 4), Word(FIELD_ORDER - 1, 0, 0, 0)];
    let digests: Vec<_> = words.iter().copied().map(digest).collect();
    assert_eq!(convert_digests_to_words(&digests), Ok(words.clone()));
    assert_eq!(validate_nullifiers(&digests), Ok(words.clone()));
    assert_eq!(validate_note_commitments(&digests), Ok(words));
    let broken = vec![digests[0], no_digest()];
    assert_eq!(convert_digests_to_words(&broken), Err(ConversionError));
    assert_eq!(validate_nullifiers(&broken), Err(ConversionError));
    let status = validate_note_commitments(&broken).unwrap_err();
    assert_eq!(status.code, Code::InvalidArgument);
    assert_eq!(status.message, "Digest field is not in the modulus range");
}

#[test]
fn block_numbers_are_a_set() {
    assert_eq!(read_block_numbers(&vec![4, 1, 4]).blocks, vec![block(1), block(4)]);
}

#[test]
fn words_are_kept_once() {
    let (a, b) = (Word(1, 0, 0, 0), Word(2, 0, 0, 0));
    assert_eq!(distinct_words(&vec![b, a, b, a]), vec![b, a]);
}

#[test]
fn headers_are_answered_with_a_path_if_requested() {
    let inner = genesis_state();
    let response =
        get_block_header_by_number_inner(&inner, Some(header(0)), Some(true)).unwrap();
    assert_eq!(response.block_header, Some(header(0)));
    assert_eq!(response.chain_length, Some(1));
    assert_eq!(response.mmr_path, Some(vec![]));
    for requested in [None, Some(false)] {
        let response =
            get_block_header_by_number_inner(&inner, Some(header(0)), requested).unwrap();
        assert_eq!((response.chain_length, response.mmr_path), (None, None));
    }
    assert_eq!(
        get_block_header_by_number_inner(&inner, Some(header(1)), Some(true)),
        Err(MmrError(block(1)))
    );
}

// BATCHES
// ================================================================================================

fn note(num: u64) -> (NoteHeader, Word) {
    let header = miden_protocol::note::NoteHeader::new(
        NoteId::new(protocol_word(Word(num, 0, 0, 0)), protocol_word(Word(0, num, 0, 0))),
        NoteMetadata::new(
            miden_protocol::account::AccountId::try_from(ACCOUNT_ID_PUBLIC_FUNGIBLE_FAUCET)
                .unwrap(),
            NoteType::Public,
        ),
    );
    let note = NoteHeader {
        note_id: word(header.id().as_word()),
        metadata: header.metadata().to_bytes(),
    };
    (note, word(header.to_commitment()))
}

fn batches() -> Vec<TransactionBatch> {
    let (a, b) =
        (account_id(1, AccountStorageMode::Private), account_id(2, AccountStorageMode::Private));
    let input = |num, header| InputNoteCommitment { nullifier: Word(num, 0, 0, 0), header };
    vec![
        TransactionBatch {
            updated_accounts: vec![a, b],
            input_notes: vec![input(5, None), input(6, Some(note(1).0))],
            reference_block_num: block(4),
        },
        TransactionBatch {
            updated_accounts: vec![b],
            input_notes: vec![input(7, Some(note(1).0)), input(8, Some(note(2).0))],
            reference_block_num: block(2),
        },
    ]
}

/// Encodes batches. The first account of a batch is a new one with code.
fn encode_batches(batches: &[TransactionBatch]) -> Vec<u8> {
    let input = |note: &InputNoteCommitment| {
        let header = note.header.as_ref().map(|header| {
            miden_protocol::note::NoteHeader::new(
                NoteId::from_raw(protocol_word(header.note_id)),
                NoteMetadata::read_from_bytes(&header.metadata).unwrap(),
            )
        });
        miden_protocol::transaction::InputNoteCommitment::from_parts_unchecked(
            Nullifier::from_raw(protocol_word(note.nullifier)),
            header,
        )
    };
    let update = |(position, id): (usize, &AccountId)| {
        let id = miden_protocol::account::AccountId::try_from_elements(
            Felt::new(id.suffix),
            Felt::new(id.prefix),
        )
        .unwrap();
        let details = match position {
            0 => ProtocolDetails::Delta(
                ProtocolDelta::new(id, Default::default(), Default::default(), Felt::new(1))
                    .unwrap()
                    .with_code(Some(AccountCode::mock())),
            ),
            _ => ProtocolDetails::Private,
        };
        let commitment = protocol_word(Word(1, 0, 0, 0));
        (id, BatchAccountUpdate::new_unchecked(id, commitment, commitment, details))
    };
    let batches = batches
        .iter()
        .map(|batch| {
            let number = batch.reference_block_num.as_u32();
            ProvenBatch::new(
                BatchId::from_ids([]),
                protocol_word(Word(1, 0, 0, 0)),
                number.into(),
                batch.updated_accounts.iter().enumerate().map(update).collect(),
                InputNotes::new(batch.input_notes.iter().map(input).collect()).unwrap(),
                vec![],
                (number + 1).into(),
                OrderedTransactionHeaders::new_unchecked(vec![]),
            )
            .unwrap()
        })
        .collect();
    OrderedBatches::new(batches).to_bytes()
}

/// The encoding of a code with a single procedure.
fn short_code() -> Vec<u8> {
    let mut bytes = AccountCode::mock().mast().to_bytes();
    bytes.push(0);
    bytes.extend(protocol_word(Word(1, 2, 3, 4)).to_bytes());
    bytes
}

#[test]
fn batches_name_the_inputs_of_their_block() {
    let query = block_inputs_from_ordered_batches(&batches());
    assert_eq!(
        query.account_ids,
        vec![account_id(1, AccountStorageMode::Private), account_id(2, AccountStorageMode::Private)]
    );
    assert_eq!(query.nullifiers, [5, 6, 7, 8].map(|num| Word(num, 0, 0, 0)).to_vec());
    assert_eq!(query.unauthenticated_note_commitments, vec![note(1).1, note(2).1]);
    assert_eq!(query.reference_blocks.blocks, vec![block(2), block(4)]);
    assert_eq!(read_ordered_batches(&encode_batches(&batches())), Ok(query));
}

#[test]
fn bytes_that_encode_no_batches_are_refused() {
    assert_eq!(read_ordered_batches(&vec![]), Err(BatchesError::Undecodable));
    let mut bytes = encode_batches(&batches());
    bytes.pop();
    assert_eq!(read_ordered_batches(&bytes), Err(BatchesError::Undecodable));
    let mut bytes = vec![1];
    bytes.extend(short_code());
    assert_eq!(read_ordered_batches(&bytes), Err(BatchesError::ShortCode));
}

#[test]
fn account_code_has_several_procedures() {
    let code = AccountCode::mock();
    assert_eq!(code_commitment(&code.to_bytes()), Some(word(code.commitment())));
    assert_eq!(code_commitment(&vec![1, 2, 3]), None);
    assert_eq!(code_commitment(&short_code()), None);

    let mut optional = vec![0, 1];
    optional.extend(short_code());
    assert!(find_short_code(&optional));
    let mut optional = vec![0, 1];
    optional.extend(code.to_bytes());
    assert!(!find_short_code(&optional));
    assert!(!find_short_code(&vec![]));
}

// BLOCK PRODUCER
// ================================================================================================

fn empty_body() -> BlockBody {
    BlockBody {
        transactions_commitment: Word(0, 0, 0, 0),
        updated_accounts: vec![],
        created_nullifiers: vec![],
        output_notes: vec![],
    }
}

fn sealed_header(number: u32, signer: &SecretKey) -> SealedHeader {
    SealedHeader {
        header: BlockHeader {
            note_root: word(BlockNoteTree::empty().root()),
            ..header(number)
        },
        version: 1,
        tx_kernel_commitment: Word(0, 0, 0, 0),
        validator_key: signer.public_key().to_bytes(),
        fee_parameters: vec![],
        timestamp: 0,
    }
}

fn apply_request() -> ApplyBlockRequest {
    ApplyBlockRequest {
        ordered_batches: encode_batches(&batches()),
        block: Some(BlockParts {
            header: Some(sealed_header(1, &random_secret_key())),
            body: Some(empty_body()),
            signature: Some(vec![9]),
        }),
    }
}

#[test]
fn requests_to_apply_a_block_have_all_parts() {
    let request = apply_request();
    let sealed = request.block.as_ref().unwrap().header.clone().unwrap();
    let read = read_apply_block_request(request).ok().unwrap();
    assert_eq!(read.sealed, sealed);
    assert_eq!(read.body, empty_body());
    assert_eq!(read.signature, vec![9]);
    assert_eq!(read.inputs, block_inputs_from_ordered_batches(&batches()));

    let error = |change: fn(&mut ApplyBlockRequest)| {
        let mut request = apply_request();
        change(&mut request);
        read_apply_block_request(request).err().unwrap()
    };
    assert_eq!(
        error(|request| request.ordered_batches = vec![]),
        ApplyBlockRequestError::InvalidBatches
    );
    assert_eq!(
        error(|request| {
            request.ordered_batches = vec![1];
            request.ordered_batches.extend(short_code());
        }),
        ApplyBlockRequestError::ShortCode
    );
    assert_eq!(error(|request| request.block = None), ApplyBlockRequestError::MissingBlock);
    assert_eq!(
        error(|request| request.block.as_mut().unwrap().header = None),
        ApplyBlockRequestError::InvalidHeader
    );
    assert_eq!(
        error(|request| request.block.as_mut().unwrap().body = None),
        ApplyBlockRequestError::InvalidBody
    );
    assert_eq!(
        error(|request| request.block.as_mut().unwrap().signature = None),
        ApplyBlockRequestError::InvalidSignature
    );
}

#[test]
fn parts_of_a_signed_block_belong_together() {
    let signer = random_secret_key();
    let sealed = sealed_header(1, &signer);
    let signature = signer.sign(protocol_word(sealed.header.commitment)).to_bytes();
    let block = SignedBlock::new(sealed.clone(), empty_body(), signature.clone()).unwrap();
    assert_eq!(block.signature, signature);
    assert_eq!(take_signed_block(sealed.clone(), empty_body(), signature.clone()).ok(), Some(block));

    let error = |sealed: &SealedHeader, body: BlockBody, signature: &Vec<u8>| {
        assert!(matches!(
            take_signed_block(sealed.clone(), body.clone(), signature.clone()),
            Err(ApplyOutcome::NotSigned)
        ));
        SignedBlock::new(sealed.clone(), body, signature.clone()).unwrap_err()
    };
    let other = random_secret_key().sign(protocol_word(sealed.header.commitment)).to_bytes();
    assert_eq!(error(&sealed, empty_body(), &other), SignedBlockError::InvalidSignature);
    assert_eq!(error(&sealed, empty_body(), &vec![]), SignedBlockError::InvalidSignature);
    let body = BlockBody { transactions_commitment: Word(1, 0, 0, 0), ..empty_body() };
    assert_eq!(
        error(&sealed, body, &signature),
        SignedBlockError::TxCommitmentMismatch {
            header: Word(0, 0, 0, 0),
            body: Word(1, 0, 0, 0)
        }
    );
    let mut unrooted = sealed.clone();
    unrooted.header.note_root = Word(1, 0, 0, 0);
    assert_eq!(
        error(&unrooted, empty_body(), &signature),
        SignedBlockError::NoteRootMismatch {
            header: Word(1, 0, 0, 0),
            body: sealed.header.note_root
        }
    );

    let index = BlockNoteIndex { batch_idx: 64, note_idx_in_batch: 0 };
    let notes = vec![(index, OutputNote::Private { header: note(1).0 })];
    assert!(!check_output_notes(&notes));
    let body = BlockBody { output_notes: notes, ..empty_body() };
    assert!(matches!(take_signed_block(sealed, body, signature), Err(ApplyOutcome::NotSigned)));
}

#[test]
fn the_scheduler_is_told_of_blocks_that_were_applied() {
    let answer = |outcome| apply_block_response(block(3), &outcome);
    assert_eq!(
        answer(ApplyOutcome::Applied(Ok(()))),
        ApplyBlockResponse { code: None, new_tip: Some(block(3)) }
    );
    for (outcome, code) in [
        (ApplyOutcome::InputsFailed, Code::InvalidArgument),
        (ApplyOutcome::NotSigned, Code::Internal),
        (ApplyOutcome::TaskFailed, Code::Internal),
        (
            ApplyOutcome::Applied(Err(ApplyBlockError::InvalidBlockError(
                InvalidBlockError::NewBlockInvalidNoteRoot,
            ))),
            Code::InvalidArgument,
        ),
        (ApplyOutcome::Applied(Err(ApplyBlockError::ConcurrentWrite)), Code::Internal),
    ] {
        assert_eq!(answer(outcome), ApplyBlockResponse { code: Some(code), new_tip: None });
    }
}

#[test]
fn requests_for_inputs_are_read() {
    let (a, b) = (Word(1, 0, 0, 0), Word(2, 0, 0, 0));
    let id = account_id(1, AccountStorageMode::Private);
    let query = read_block_inputs_request(
        vec![id],
        &vec![digest(a)],
        &vec![digest(b), digest(a), digest(b)],
        &vec![3, 1],
    )
    .unwrap();
    assert_eq!(query.account_ids, vec![id]);
    assert_eq!(query.nullifiers, vec![a]);
    assert_eq!(query.unauthenticated_note_commitments, vec![b, a]);
    assert_eq!(query.reference_blocks.blocks, vec![block(1), block(3)]);
    let message = |nullifiers, notes| {
        read_block_inputs_request(vec![], &nullifiers, &notes, &vec![]).unwrap_err().message
    };
    assert_eq!(message(vec![no_digest()], vec![]), "Invalid nullifier format");
    assert_eq!(
        message(vec![], vec![no_digest()]),
        "Digest field is not in the modulus range"
    );

    let query = read_batch_inputs_request(&vec![digest(a), digest(a)], &vec![2]).unwrap();
    assert_eq!(query.note_commitments, vec![a]);
    assert_eq!(query.reference_blocks.blocks, vec![block(2)]);
    assert_eq!(
        read_batch_inputs_request(&vec![no_digest()], &vec![]).unwrap_err().message,
        "Invalid note commitment"
    );

    let query =
        read_transaction_inputs_request(&vec![digest(a)], &vec![digest(b), digest(b)]).unwrap();
    assert_eq!(query.nullifiers, vec![a]);
    assert_eq!(query.unauthenticated_note_commitments, vec![b, b]);
    assert!(read_transaction_inputs_request(&vec![no_digest()], &vec![]).is_err());
    assert!(read_transaction_inputs_request(&vec![], &vec![no_digest()]).is_err());
}

#[test]
fn transaction_inputs_are_answered_with_the_tip() {
    let id = account_id(1, AccountStorageMode::Private);
    let inputs = TransactionInputs {
        account_commitment: Word(1, 2, 3, 4),
        nullifiers: vec![NullifierInfo { nullifier: Word(5, 0, 0, 0), block_num: block(2) }],
        found_unauthenticated_notes: vec![Word(6, 0, 0, 0)],
        new_account_id_prefix_is_unique: None,
    };
    let response = transaction_inputs_response(id, inputs.clone(), block(8));
    assert_eq!(response.account_id, id);
    assert_eq!(response.account_commitment, inputs.account_commitment);
    assert_eq!(response.nullifiers, inputs.nullifiers);
    assert_eq!(response.found_unauthenticated_notes, inputs.found_unauthenticated_notes);
    assert_eq!(response.new_account_id_prefix_is_unique, None);
    assert_eq!(response.block_height, 8);
}

// RPC
// ================================================================================================

#[test]
fn nullifiers_are_answered_with_proofs() {
    let inner = genesis_state();
    let nullifier = Word(5, 0, 0, 1);
    let proofs = check_nullifiers(&inner, &vec![digest(nullifier)], 1).unwrap();
    let tree = NullifierTree::<Smt>::default();
    let expected = tree.open(&Nullifier::from_raw(protocol_word(nullifier)));
    assert_eq!(proofs, vec![expected.to_bytes()]);

    assert!(matches!(
        check_nullifiers(&inner, &vec![digest(nullifier); 2], 1),
        Err(CheckNullifiersError::Limit(_))
    ));
    assert_eq!(
        check_nullifiers(&inner, &vec![no_digest()], 1),
        Err(CheckNullifiersError::DeserializationFailed(ConversionError))
    );
    assert_eq!(check_prefix_len(16), Ok(()));
    assert_eq!(check_prefix_len(8), Err(SyncNullifiersError::InvalidPrefixLength(8)));
}

#[test]
fn note_requests_are_checked() {
    let range = BlockRange::new(block(1), block(5));
    assert_eq!(check_sync_notes(range, block(5), 2, 2), Ok(()));
    assert_eq!(
        check_sync_notes(range, block(4), 3, 2),
        Err(SyncNotesError::NoteSync(NoteSyncError::FutureBlock {
            chain_tip: block(4),
            block_to: block(5),
        }))
    );
    assert!(matches!(
        check_sync_notes(range, block(5), 3, 2),
        Err(SyncNotesError::Limit(status)) if status.code == Code::OutOfRange
    ));
    let id = Word(1, 2, 3, 4);
    assert_eq!(read_note_ids(&vec![digest(id)], 1), Ok(vec![id]));
    assert!(matches!(
        read_note_ids(&vec![digest(id); 2], 1),
        Err(GetNotesByIdError::Limit(_))
    ));
    assert_eq!(
        read_note_ids(&vec![no_digest()], 1),
        Err(GetNotesByIdError::DeserializationFailed(ConversionError))
    );
}

#[test]
fn chain_ranges_end_at_the_tip_of_their_finality() {
    let tips = ChainTips { committed: block(7), proven: block(4) };
    let read = |block_from, block_to, finality| {
        read_chain_range(Some(RequestedRange { block_from, block_to }), finality, tips)
    };
    assert_eq!(read(1, None, None), Ok(BlockRange::new(block(1), block(7))));
    assert_eq!(
        read(1, Some(9), Some(Finality::Proven)),
        Ok(BlockRange::new(block(1), block(4)))
    );
    assert_eq!(
        read(1, Some(6), Some(Finality::Committed)),
        Ok(BlockRange::new(block(1), block(6)))
    );
    assert_eq!(
        read(5, None, Some(Finality::Proven)),
        Err(SyncChainMmrError::FutureBlock { chain_tip: block(4), block_from: block(5) })
    );
    assert_eq!(
        read(3, Some(2), None),
        Err(SyncChainMmrError::StartGreaterThanEnd { start: block(3), end: block(2) })
    );
    assert_eq!(
        read_chain_range(None, None, tips),
        Err(SyncChainMmrError::MissingBlockRange)
    );

    let request = RequestedRange { block_from: 0, block_to: None };
    let extension = extend_chain(&genesis_state(), Some(request), None, block(0)).unwrap();
    assert_eq!(extension.block_range, BlockRange::new(block(0), block(0)));
    assert_eq!((extension.mmr_delta.chain_length, extension.mmr_delta.data.len()), (0, 0));

    let sealed = apply_request().block.unwrap().header.unwrap();
    let sealed = SealedHeader { header: header(0), ..sealed };
    let response =
        sync_chain_mmr_response(Ok(extension.clone()), Ok(Some(sealed.clone()))).unwrap();
    assert_eq!(response.block_range, extension.block_range);
    assert_eq!(response.mmr_delta, extension.mmr_delta);
    assert_eq!(response.block_header, sealed);
    let error = DatabaseError::DeserializationError;
    assert_eq!(
        sync_chain_mmr_response(Ok(extension), Err(error.clone())),
        Err(SyncChainMmrError::Internal(StateSyncError::DatabaseError(error)))
    );
    let request = RequestedRange { block_from: 1, block_to: None };
    let future = SyncChainMmrError::FutureBlock { chain_tip: block(0), block_from: block(1) };
    let refused = extend_chain(&genesis_state(), Some(request), None, block(0));
    assert_eq!(refused, Err(future.clone()));
    assert_eq!(sync_chain_mmr_response(refused, Ok(Some(sealed))), Err(future));
}

#[test]
fn answers_name_the_chain_tip() {
    let page = paginate(block(7), block(5), vec![1, 2]);
    assert_eq!((page.chain_tip, page.block_num, page.items), (block(7), block(5), vec![1, 2]));
    let status = status("0.14".to_string(), block(7));
    assert_eq!(status.version, "0.14");
    assert_eq!(status.status, "connected");
    assert_eq!(status.chain_tip, block(7));
    let public = account_id(1, AccountStorageMode::Public);
    let private = account_id(1, AccountStorageMode::Private);
    assert_eq!(check_public_account(public), Ok(()));
    assert_eq!(check_public_account(private), Err(AccountNotPublic(private)));
}

// NETWORK TRANSACTIONS
// ================================================================================================

#[test]
fn pages_hold_at_least_one_item() {
    let page = read_page(Some(4), 20).unwrap();
    assert_eq!((page.token, page.size), (Some(4), 20));
    let status = read_page(None, 0).unwrap_err();
    assert_eq!(status.code, Code::InvalidArgument);
    assert_eq!(status.message, "invalid page_size");
}

#[test]
fn network_accounts_are_answered_up_to_the_tip() {
    let ids = vec![account_id(1, AccountStorageMode::Network)];
    let page = network_account_ids(ids.clone(), block(9), block(6), block(7));
    assert_eq!((page.block_num, page.chain_tip, page.items), (block(6), block(7), ids.clone()));
    let page = network_account_ids(ids, block(5), block(6), block(7));
    assert_eq!(page.block_num, block(5));
}

#[test]
fn who_has_the_latest_block_gets_nothing() {
    let inner = genesis_state();
    let data = current_blockchain_data(&inner, Some(block(0)), header(0)).unwrap();
    assert_eq!((data.current_peaks, data.current_block_header), (vec![], None));
    let data = current_blockchain_data(&inner, None, header(0)).unwrap();
    assert_eq!(data.current_block_header, Some(header(0)));
    assert_eq!(
        current_blockchain_data(&inner, None, header(5)),
        Err(MmrError(block(5)))
    );
}

fn tokens(amount: u64) -> Asset {
    let faucet =
        miden_protocol::account::AccountId::try_from(ACCOUNT_ID_PUBLIC_FUNGIBLE_FAUCET).unwrap();
    let asset: miden_protocol::asset::Asset = FungibleAsset::new(faucet, amount).unwrap().into();
    Asset { key: word(asset.to_key_word()), value: word(asset.to_value_word()) }
}

#[test]
fn witnesses_prove_vault_and_map_entries() {
    let id = account_id(1, AccountStorageMode::Network);
    let slot = StorageSlotName::mock(1);
    let key = Word(1, 0, 0, 0);
    let mut forest = AccountStateForest::new();
    let update = BlockAccountUpdate {
        account_id: id,
        final_state_commitment: Word(1, 2, 3, 4),
        details: AccountUpdateDetails::Delta(AccountDelta {
            storage: StorageDelta {
                values: vec![],
                maps: vec![MapDelta {
                    slot_name: slot.as_str().to_string(),
                    entries: vec![(key, Word(5, 5, 5, 5))],
                }],
            },
            vault: VaultDelta {
                fungible: vec![(tokens(1).key, 100)],
                non_fungible: vec![],
            },
            nonce_delta: 1,
        }),
    };
    forest.update_account(block(2), &update).unwrap();

    let keys = vec![digest(tokens(1).key), digest(tokens(1).key)];
    let response = get_vault_asset_witnesses(&forest, id, &keys, None, block(3)).unwrap();
    assert_eq!(response.block_num, block(3));
    assert_eq!(response.asset_witnesses.len(), 1, "keys are a set");
    let proof = SmtProof::read_from_bytes(&response.asset_witnesses[0]).unwrap();
    assert_eq!(word(proof.compute_root()), forest.get_vault_root(id, block(3)).unwrap());
    assert_eq!(
        get_vault_asset_witnesses(&forest, id, &keys, Some(1), block(3)).unwrap_err().code,
        Code::Internal
    );

    let response = get_storage_map_witness(
        &forest,
        id,
        digest(key),
        slot.as_str(),
        Some(2),
        block(3),
        block(4),
    )
    .unwrap();
    assert_eq!((response.key, response.block_num), (key, block(4)));
    let proof = SmtProof::read_from_bytes(&response.witness).unwrap();
    assert_eq!(
        word(proof.compute_root()),
        forest.get_storage_map_root(id, slot.as_str(), block(2)).unwrap()
    );
    let code = |key, slot: &str, number| {
        get_storage_map_witness(&forest, id, key, slot, Some(number), block(3), block(3))
            .unwrap_err()
            .code
    };
    assert_eq!(code(digest(key), slot.as_str(), 1), Code::Internal);
    assert_eq!(code(no_digest(), slot.as_str(), 2), Code::InvalidArgument);
    assert_eq!(code(digest(key), "no slot", 2), Code::InvalidArgument);
}

#[test]
fn keys_of_witness_requests_are_checked() {
    let key = digest(tokens(1).key);
    assert_eq!(read_vault_keys(&vec![key, key]).unwrap().words, vec![tokens(1).key]);
    assert_eq!(
        read_vault_keys(&vec![key; 101]).unwrap_err().message,
        "number of vault keys in request cannot exceed 100"
    );
    assert_eq!(
        read_vault_keys(&vec![no_digest()]).unwrap_err().code,
        Code::InvalidArgument
    );
    assert_eq!(
        read_vault_keys(&vec![digest(Word(1, 2, 3, 4))]).unwrap_err().code,
        Code::InvalidArgument
    );
    let slot = StorageSlotName::mock(1);
    assert_eq!(read_map_key(digest(Word(1, 2, 3, 4)), slot.as_str()), Ok(Word(1, 2, 3, 4)));
    assert_eq!(
        read_map_key(digest(Word(1, 2, 3, 4)), "no slot").unwrap_err().message,
        "Invalid storage slot name"
    );
    assert_eq!(requested_block(Some(3), block(9)), block(3));
    assert_eq!(requested_block(None, block(9)), block(9));
}

// PROOF SCHEDULER
// ================================================================================================

#[test]
fn transient_failures_are_retried_twice() {
    let mut attempts = ProveAttempts::new(block(5));
    let transient = || {
        AttemptOutcome::Failed(ProveBlockError::from_db_error(DatabaseError::AccountError))
    };
    assert_eq!(attempts.finish_attempt(transient()), ProveAction::Retry);
    assert_eq!(attempts.finish_attempt(AttemptOutcome::TimedOut), ProveAction::Retry);
    assert_eq!(
        attempts.finish_attempt(transient()),
        ProveAction::Abort(ProveFailure::TooManyAttempts {
            block_num: block(5),
            attempts: MAX_PROVE_ATTEMPTS,
        })
    );
    let mut attempts = ProveAttempts::new(block(5));
    assert_eq!(
        attempts.finish_attempt(AttemptOutcome::Proven(vec![1])),
        ProveAction::Save(vec![1])
    );
    assert_eq!(BLOCK_PROVE_ATTEMPT_TIMEOUT_SECS * 3, BLOCK_PROVE_OVERALL_TIMEOUT_SECS);
    assert_eq!(DEFAULT_MAX_CONCURRENT_PROOFS, 8);
}

#[test]
fn fatal_failures_are_not_retried() {
    let error = ProveBlockError::from_prover_error(StoreProverError::RemoteProvingFailed(
        RemoteProverClientError::InvalidEndpoint("nowhere".to_string()),
    ));
    let fatal = ProofSchedulerError::InvalidProverEndpoint("nowhere".to_string());
    assert_eq!(error, ProveBlockError::Fatal(fatal.clone()));
    let mut attempts = ProveAttempts::new(block(5));
    assert_eq!(
        attempts.finish_attempt(AttemptOutcome::Failed(error)),
        ProveAction::Abort(ProveFailure::Fatal(fatal))
    );
    let local = StoreProverError::LocalProvingFailed("no memory".to_string());
    assert_eq!(
        ProveBlockError::from_prover_error(local.clone()),
        ProveBlockError::Transient(TransientError::Prover(local))
    );
}

#[test]
fn blocks_are_proven_from_their_inputs() {
    assert_eq!(check_proving_inputs(Ok(Some(7)), block(5)), Ok(7));
    assert_eq!(
        check_proving_inputs::<u8>(Ok(None), block(5)),
        Err(ProveBlockError::Fatal(ProofSchedulerError::MissingProvingInputs(block(5))))
    );
    assert_eq!(
        check_proving_inputs::<u8>(Err(DatabaseError::DeserializationError), block(5)),
        Err(ProveBlockError::Fatal(ProofSchedulerError::DeserializationFailed))
    );
    assert_eq!(
        check_proving_inputs::<u8>(Err(DatabaseError::AccountError), block(5)),
        Err(ProveBlockError::Transient(TransientError::Database(DatabaseError::AccountError)))
    );
}

#[test]
fn no_more_blocks_are_proven_at_once_than_allowed() {
    let mut schedule = ProofSchedule::new(block(3), 2);
    assert_eq!(schedule.next_query(), Some((block(3), 2)));
    schedule.schedule(&vec![block(4), block(6)]);
    assert_eq!(schedule.next_query(), None);
    assert_eq!(
        schedule.handle(SchedulerEvent::JobEnded(Ok(()))),
        SchedulerAction::Continue
    );
    assert_eq!(schedule.next_query(), Some((block(6), 1)));
    schedule.schedule(&vec![]);
    assert_eq!(schedule.highest_scheduled, block(6));
    assert_eq!(schedule.handle(SchedulerEvent::ChainTipChanged), SchedulerAction::Continue);
    assert_eq!(
        schedule.handle(SchedulerEvent::ChainTipClosed),
        SchedulerAction::Exit(Ok(()))
    );
    let failure = ProveFailure::Fatal(ProofSchedulerError::DeserializationFailed);
    assert_eq!(
        schedule.handle(SchedulerEvent::JobEnded(Err(failure.clone()))),
        SchedulerAction::Exit(Err(failure))
    );
}

// SERVER
// ================================================================================================

#[test]
fn replicas_ask_for_what_they_lack() {
    let tips = ChainTips { committed: block(7), proven: block(4) };
    assert_eq!(first_block_to_request(SyncKind::Blocks, tips), block(8));
    assert_eq!(first_block_to_request(SyncKind::Proofs, tips), block(5));
    let again = reconnect(StreamEnd::Ended);
    assert_eq!((again.reason.as_str(), again.delay_secs), ("unexpected end of stream", 5));
    let again = reconnect(StreamEnd::Failed("refused".to_string()));
    assert_eq!((again.reason.as_str(), again.delay_secs), ("refused", 5));
}

#[test]
fn the_mode_says_which_services_run() {
    let producer = StoreMode::BlockProducer { block_prover_url: None, max_concurrent_proofs: 8 };
    assert_eq!(
        services(&producer),
        Services { rpc: true, block_producer: true, proof_scheduler: true, replica_sync: false }
    );
    let replica = StoreMode::Replica { upstream_url: "http://store".to_string() };
    assert_eq!(
        services(&replica),
        Services { rpc: true, block_producer: false, proof_scheduler: false, replica_sync: true }
    );
}

#[test]
fn the_server_ends_with_a_reason() {
    assert_eq!(serve_result(ServerEvent::ServiceEnded(Ok(()))), Ok(()));
    for (event, error) in [
        (
            ServerEvent::ServiceEnded(Err("port in use".to_string())),
            ServeError::ServiceFailed("port in use".to_string()),
        ),
        (
            ServerEvent::Terminated(ApplyBlockError::ClosedChannel),
            ServeError::Terminated(ApplyBlockError::ClosedChannel),
        ),
        (ServerEvent::ModeTaskEnded(Ok(())), ServeError::TaskExitedUnexpectedly),
        (
            ServerEvent::ModeTaskEnded(Err("no proof".to_string())),
            ServeError::TaskFatalError("no proof".to_string()),
        ),
        (
            ServerEvent::ModeTaskPanicked("overflow".to_string()),
            ServeError::TaskPanicked("overflow".to_string()),
        ),
    ] {
        assert_eq!(serve_result(event), Err(error));
    }
}

#[test]
fn the_data_directory_holds_all_parts() {
    assert_eq!(DataDirectory::load("/no/directory".to_string(), false), Err(NotADirectory));
    let directory = DataDirectory::load("/data".to_string(), true).unwrap();
    assert_eq!(directory.display(), "/data");
    assert_eq!(directory.block_store_dir(), "/data/blocks");
    assert_eq!(directory.database_path(), "/data/miden-store.sqlite3");
    let paths = directory.disk_paths();
    assert_eq!(paths.sqlite_db, "/data/miden-store.sqlite3");
    assert_eq!(paths.sqlite_wal, "/data/miden-store.sqlite3-wal");
    assert_eq!(paths.block_store, "/data/blocks");
    assert_eq!(paths.account_tree, "/data/accounttree");
    assert_eq!(paths.nullifier_tree, "/data/nullifiertree");
    assert_eq!(paths.account_state_forest, "/data/accountstateforest");
    let root = DataDirectory::load("/".to_string(), true).unwrap();
    assert_eq!(root.block_store_dir(), "/blocks");
    assert_eq!(DatabaseOptions::new(0), None);
    assert_eq!(DatabaseOptions::new(4).unwrap().connection_pool_size, 4);
}
