use miden_node_store::account_id::AccountId;
use miden_node_store::block_number::{BlockNumber, BlockRange};
use miden_node_store::db::transaction_query::TransactionsQuery;
use miden_node_store::db::transactions::{
    check_transactions_query, insert_transactions, output_note_commitments,
    with_output_note_proofs, BlockNoteIndex, NoteSyncRecord, TransactionHeader, TransactionRecord,
    TransactionRecordRaw, TransactionScan, TransactionSummaryRowInsert, NUM_TXS_PER_CHUNK,
};
use miden_node_store::errors::DatabaseError;
use miden_node_store::notes::{
    check_input_notes, check_note_headers, InputNoteCommitment, NoteHeader,
};
use miden_node_store::state::account::Asset;
use miden_node_store::word::Word;
use miden_protocol::asset::FungibleAsset;
use miden_protocol::crypto::merkle::SparseMerklePath;
use miden_protocol::note::{NoteId, NoteMetadata, NoteTag, NoteType};
use miden_protocol::testing::account_id::{
    ACCOUNT_ID_PRIVATE_SENDER, ACCOUNT_ID_PUBLIC_FUNGIBLE_FAUCET,
};
use miden_protocol::transaction::TransactionId;
use miden_protocol::utils::serde::Serializable;
use miden_protocol::Felt;

const MAX_PAYLOAD: i64 = 4 * 1024 * 1024;

fn word(word: miden_protocol::Word) -> Word {
    let [a, b, c, d] = word.into_elements().map(|element| element.as_canonical_u64());
    Word(a, b, c, d)
}

fn protocol_word(elements: [u64; 4]) -> miden_protocol::Word {
    miden_protocol::Word::new(elements.map(Felt::new))
}

fn sender() -> miden_protocol::account::AccountId {
    miden_protocol::account::AccountId::try_from(ACCOUNT_ID_PRIVATE_SENDER).unwrap()
}

fn account_id(id: miden_protocol::account::AccountId) -> AccountId {
    AccountId { prefix: id.prefix().as_u64(), suffix: id.suffix().as_canonical_u64() }
}

fn block(number: u32) -> BlockNumber {
    BlockNumber::from(number)
}

fn range(start: u32, end: u32) -> BlockRange {
    BlockRange::new(block(start), block(end))
}

fn fee() -> FungibleAsset {
    let faucet =
        miden_protocol::account::AccountId::try_from(ACCOUNT_ID_PUBLIC_FUNGIBLE_FAUCET).unwrap();
    FungibleAsset::new(faucet, 100).unwrap()
}

fn output_note(num: u64) -> miden_protocol::note::NoteHeader {
    miden_protocol::note::NoteHeader::new(
        NoteId::new(protocol_word([num, num, 0, 0]), protocol_word([0, 0, num, num])),
        NoteMetadata::new(sender(), NoteType::Public).with_tag(NoteTag::new(num as u32)),
    )
}

fn mock_block_transaction(num: u64) -> TransactionHeader {
    let initial = protocol_word([num, 0, 0, 0]);
    let last = protocol_word([0, num, 0, 0]);
    let note = output_note(num);
    let asset: miden_protocol::asset::Asset = fee().into();
    TransactionHeader {
        transaction_id: word(
            TransactionId::new(
                initial,
                last,
                protocol_word([0, 0, num, 0]),
                protocol_word([0, 0, 0, num]),
                fee(),
            )
            .as_word(),
        ),
        account_id: account_id(sender()),
        initial_state_commitment: word(initial),
        final_state_commitment: word(last),
        input_notes: vec![InputNoteCommitment { nullifier: Word(0, 0, 0, num), header: None }],
        output_notes: vec![NoteHeader {
            note_id: word(note.id().as_word()),
            metadata: note.metadata().to_bytes(),
        }],
        fee: Asset { key: word(asset.to_key_word()), value: word(asset.to_value_word()) },
    }
}

fn raw(row: &TransactionSummaryRowInsert) -> TransactionRecordRaw {
    TransactionRecordRaw {
        account_id: row.account_id.clone(),
        block_num: row.block_num,
        transaction_id: row.transaction_id.clone(),
        initial_state_commitment: row.initial_state_commitment.clone(),
        final_state_commitment: row.final_state_commitment.clone(),
        input_notes: row.input_notes.clone(),
        output_notes: row.output_notes.clone(),
        size_in_bytes: row.size_in_bytes,
        fee: row.fee.clone(),
    }
}

fn select(
    rows: &[TransactionSummaryRowInsert],
    records: &Vec<NoteSyncRecord>,
    block_range: BlockRange,
) -> (BlockNumber, Vec<TransactionRecord>) {
    let mut scan = TransactionScan::new(MAX_PAYLOAD);
    assert!(!scan.add_chunk(rows.iter().map(raw).collect(), MAX_PAYLOAD));
    let (last_block, rows) = scan.finish(block_range, MAX_PAYLOAD).unwrap();
    (last_block, with_output_note_proofs(&rows, records).unwrap())
}

#[test]
fn sql_insert_transactions() {
    let rows =
        insert_transactions(block(1), &vec![mock_block_transaction(1), mock_block_transaction(2)])
            .unwrap();
    assert_eq!(rows.len(), 2, "Two elements must have been inserted");
    assert!(rows.iter().all(|row| row.size_in_bytes == 116 + 64 + 700));
}

#[test]
fn db_roundtrip_transactions() {
    let tx = mock_block_transaction(1);
    let rows = insert_transactions(block(1), &vec![tx.clone()]).unwrap();
    let records: Vec<_> = tx
        .output_notes
        .iter()
        .enumerate()
        .map(|(idx, note)| NoteSyncRecord {
            block_num: block(1),
            note_index: BlockNoteIndex { batch_idx: 0, note_idx_in_batch: idx },
            note_id: note.note_id,
            metadata: note.metadata.clone(),
            inclusion_path: SparseMerklePath::default().to_bytes(),
        })
        .collect();
    let (last_block, retrieved) = select(&rows, &records, range(0, 1));
    assert_eq!(last_block, block(1));
    assert_eq!(
        retrieved,
        vec![TransactionRecord { block_num: block(1), header: tx, output_note_proofs: records }]
    );
}

#[test]
fn db_roundtrip_transactions_filters_missing_output_note_sync_records() {
    let tx = mock_block_transaction(1);
    let rows = insert_transactions(block(1), &vec![tx.clone()]).unwrap();
    let (_, retrieved) = select(&rows, &vec![], range(0, 1));
    assert_eq!(
        retrieved,
        vec![TransactionRecord { block_num: block(1), header: tx, output_note_proofs: vec![] }]
    );
}

#[test]
fn unauthenticated_input_notes_are_read_back() {
    let mut tx = mock_block_transaction(5);
    tx.input_notes.push(InputNoteCommitment {
        nullifier: Word(1, 2, 3, 4),
        header: Some(tx.output_notes[0].clone()),
    });
    let rows = insert_transactions(block(7), &vec![tx.clone()]).unwrap();
    assert_eq!(rows[0].size_in_bytes, 116 + 2 * 64 + 700);
    let (_, retrieved) = select(&rows, &vec![], range(0, 9));
    assert_eq!(retrieved[0].header, tx);
    assert_eq!(retrieved[0].block_num, block(7));
}

#[test]
fn output_notes_are_found_by_their_commitments() {
    let rows =
        insert_transactions(block(1), &vec![mock_block_transaction(1), mock_block_transaction(2)])
            .unwrap();
    let commitments = output_note_commitments(&rows.iter().map(raw).collect()).unwrap();
    let expected: Vec<_> =
        [1, 2].map(|num| word(output_note(num).to_commitment())).to_vec();
    assert_eq!(commitments, expected);
}

#[test]
fn notes_without_encoded_metadata_are_refused() {
    let mut tx = mock_block_transaction(1);
    tx.output_notes[0].metadata = vec![1, 2, 3];
    assert!(!check_note_headers(&tx.output_notes));
    assert_eq!(insert_transactions(block(1), &vec![tx.clone()]), None);
    let notes = vec![InputNoteCommitment {
        nullifier: Word(1, 2, 3, 4),
        header: Some(tx.output_notes[0].clone()),
    }];
    assert!(!check_input_notes(&notes));
    assert!(check_input_notes(&tx.input_notes));
}

#[test]
fn rows_that_are_no_transactions_are_reported() {
    let rows = insert_transactions(block(1), &vec![mock_block_transaction(1)]).unwrap();
    let row = raw(&rows[0]);
    let read = |row: TransactionRecordRaw| with_output_note_proofs(&vec![row], &vec![]);
    assert!(read(row.clone()).is_ok());
    assert_eq!(
        read(TransactionRecordRaw { block_num: -5, ..row.clone() }),
        Err(DatabaseError::ConversionSqlToRust(-5))
    );
    for broken in [
        TransactionRecordRaw { transaction_id: vec![], ..row.clone() },
        TransactionRecordRaw { input_notes: vec![], ..row.clone() },
        TransactionRecordRaw { output_notes: vec![], ..row.clone() },
        TransactionRecordRaw { fee: vec![], ..row.clone() },
        TransactionRecordRaw { account_id: vec![0xff; 15], ..row },
    ] {
        assert_eq!(read(broken), Err(DatabaseError::DeserializationError));
    }
}

// SCANS
// ================================================================================================

fn row_of_size(block_num: i64, size_in_bytes: i64) -> TransactionRecordRaw {
    let rows = insert_transactions(block(1), &vec![mock_block_transaction(1)]).unwrap();
    TransactionRecordRaw { block_num, size_in_bytes, ..raw(&rows[0]) }
}

#[test]
fn scans_end_before_a_block_that_does_not_fit() {
    let mut scan = TransactionScan::new(10);
    let chunk = vec![row_of_size(3, 4), row_of_size(4, 3), row_of_size(4, 3), row_of_size(5, 1)];
    assert!(!scan.add_chunk(chunk, 10));
    assert_eq!(scan.total_size, 10);
    assert_eq!(scan.last_block_num, Some(4));
    let (last_block, rows) = scan.finish(range(0, 9), 10).unwrap();
    assert_eq!(last_block, block(3));
    assert_eq!(rows.len(), 1);
    assert_eq!(rows[0].block_num, 3);
}

#[test]
fn scans_end_before_the_block_of_a_row_that_does_not_fit() {
    // The payload is not exhausted: 7 of 10 bytes are used, and a row of 4 bytes is left out.
    let rows = vec![row_of_size(3, 4), row_of_size(4, 3), row_of_size(4, 4), row_of_size(5, 1)];
    let mut scan = TransactionScan::new(10);
    assert!(!scan.add_chunk(rows, 10));
    assert_eq!(scan.total_size, 7);
    assert_eq!(scan.left_out, Some(4));
    let (last_block, rows) = scan.finish(range(0, 9), 10).unwrap();
    assert_eq!(last_block, block(3));
    assert_eq!(rows, vec![row_of_size(3, 4)]);

    // The block that was read last is complete, and is kept.
    let mut scan = TransactionScan::new(10);
    scan.add_chunk(vec![row_of_size(3, 4), row_of_size(4, 3), row_of_size(6, 4)], 10);
    let (last_block, rows) = scan.finish(range(0, 9), 10).unwrap();
    assert_eq!(last_block, block(5));
    assert_eq!(rows.len(), 2);

    // Not even the first row fits.
    let mut scan = TransactionScan::new(10);
    scan.add_chunk(vec![row_of_size(3, 11)], 10);
    assert_eq!(scan.finish(range(0, 9), 10), Ok((block(2), vec![])));
}

#[test]
fn no_row_is_added_after_one_that_does_not_fit() {
    let mut scan = TransactionScan::new(10);
    scan.add_chunk(vec![row_of_size(3, 4), row_of_size(4, 8)], 10);
    let before = scan.clone();
    assert!(!scan.add_chunk(vec![row_of_size(5, 1)], 10));
    assert_eq!(scan, before);
}

#[test]
fn transactions_of_the_first_block_cannot_be_left_out() {
    let mut scan = TransactionScan::new(10);
    scan.add_chunk(vec![row_of_size(0, 4), row_of_size(0, 7)], 10);
    assert_eq!(scan.finish(range(0, 9), 10), Err(DatabaseError::ConversionSqlToRust(-1)));
}

#[test]
fn scans_that_fit_cover_the_range() {
    let mut scan = TransactionScan::new(10);
    assert!(!scan.add_chunk(vec![row_of_size(3, 4), row_of_size(4, 5)], 10));
    let (last_block, rows) = scan.finish(range(0, 9), 10).unwrap();
    assert_eq!(last_block, block(9));
    assert_eq!(rows.len(), 2);
}

#[test]
fn chunks_do_not_matter() {
    let rows: Vec<_> = (1..8).map(|number| row_of_size(number, number)).collect();
    let mut together = TransactionScan::new(12);
    together.add_chunk(rows.clone(), 12);
    let mut apart = TransactionScan::new(12);
    apart.add_chunk(rows[..3].to_vec(), 12);
    apart.add_chunk(rows[3..].to_vec(), 12);
    assert_eq!(together, apart);
    assert_eq!(together.transactions.len(), 4);
}

#[test]
fn a_full_chunk_is_followed_by_another() {
    let ids = vec![account_id(sender())];
    let full = vec![row_of_size(1, 1); NUM_TXS_PER_CHUNK];
    let last_id = full[0].transaction_id.clone();
    let mut scan = TransactionScan::new(MAX_PAYLOAD);
    let query = scan.next_query(&ids, range(0, 9));
    assert_eq!(
        query,
        TransactionsQuery {
            account_ids: vec![sender().to_bytes()],
            block_from: 0,
            block_to: 9,
            after: None,
            limit: 1000,
        }
    );
    assert!(scan.add_chunk(full, MAX_PAYLOAD));
    assert_eq!(
        scan.next_query(&ids, range(0, 9)),
        TransactionsQuery { after: Some((1, last_id)), ..query }
    );
    assert!(!scan.add_chunk(vec![row_of_size(2, 1)], MAX_PAYLOAD));
}

#[test]
fn transaction_queries_are_limited() {
    assert_eq!(check_transactions_query(2, 2, range(1, 1)), Ok(()));
    assert_eq!(
        check_transactions_query(3, 2, range(2, 1)),
        Err(DatabaseError::QueryParamLimit { given: 3, limit: 2 })
    );
    assert_eq!(
        check_transactions_query(2, 2, range(2, 1)),
        Err(DatabaseError::InvalidBlockRange { from: block(2), to: block(1) })
    );
}
