use miden_node_store::account_id::{AccountId, AccountStorageMode};
use miden_node_store::block_number::{BlockNumber, BlockRange};
use miden_node_store::block_set::BlockSet;
use miden_node_store::db::accounts::{read_account_id, read_asset, read_word};
use miden_node_store::db::conv::{
    block_number_from_raw_sql, block_number_to_raw_sql, nonce_to_raw_sql, raw_sql_to_nonce,
};
use miden_node_store::errors::{DatabaseError, StateSubscriptionError};
use miden_node_store::protocol::account_id_to_bytes;
use miden_node_store::state::disk_monitor::{DirEntry, DirectoryWalk};
use miden_node_store::state::replica::{
    BlockCache, BlockNotification, ProofCache, ProofNotification, BLOCK_CACHE_CAPACITY,
    PROOF_CACHE_CAPACITY,
};
use miden_node_store::state::subscription::{
    cached_block, cached_proof, fetch_block, fetch_proof, StreamCursor, StreamStep,
};
use miden_node_store::state::writer_guard::WriterGuard;
use miden_node_store::word::Word;
use miden_node_store::word_set::{is_before, WordSet};
use miden_protocol::asset::FungibleAsset;
use miden_protocol::note::{NoteId, Nullifier};
use miden_protocol::testing::account_id::{
    ACCOUNT_ID_PRIVATE_SENDER, ACCOUNT_ID_PUBLIC_FUNGIBLE_FAUCET,
};
use miden_protocol::transaction::TransactionId;
use miden_protocol::utils::serde::Serializable;
use miden_protocol::Felt;

fn block(number: u32) -> BlockNumber {
    BlockNumber::from(number)
}

fn protocol_word(num: u64) -> miden_protocol::Word {
    miden_protocol::Word::new([0, 0, 0, num].map(Felt::new))
}

fn library_word(word: miden_protocol::Word) -> Word {
    let [a, b, c, d] = word.into_elements().map(|element| element.as_canonical_u64());
    Word(a, b, c, d)
}

// CACHES
// ================================================================================================

#[test]
fn caches_hold_the_latest_entries() {
    let mut cache = BlockCache::new(2);
    for number in 1..4 {
        cache.push(block(number), BlockNotification::new(block(number), vec![number as u8]));
    }
    assert!(cache.get(block(1)).is_none());
    assert_eq!(cached_block(&cache, block(1)), None);
    assert_eq!(cached_block(&cache, block(2)), Some(vec![2]));
    let latest = cache.get(block(3)).unwrap();
    assert_eq!((latest.block_num(), latest.block_bytes()), (block(3), [3].as_slice()));
    assert_eq!((BLOCK_CACHE_CAPACITY, PROOF_CACHE_CAPACITY), (512, 512));
}

#[test]
fn proofs_are_cached_like_blocks() {
    let mut cache = ProofCache::new(2);
    cache.push(block(1), ProofNotification::new(block(1), vec![9]));
    assert_eq!(cached_proof(&cache, block(1)), Some(vec![9]));
    assert_eq!(cached_proof(&cache, block(2)), None);
    let proof = cache.get(block(1)).unwrap();
    assert_eq!((proof.block_num(), proof.proof_bytes()), (block(1), [9].as_slice()));
}

// SUBSCRIPTIONS
// ================================================================================================

#[test]
fn subscriptions_send_block_after_block() {
    let mut cursor = StreamCursor::new(block(3));
    assert_eq!(cursor.step(block(2)), StreamStep::AwaitTip);
    let mut sent = vec![];
    while let StreamStep::Send(number) = cursor.step(block(5)) {
        sent.push(number);
        assert!(cursor.sent(true));
    }
    assert_eq!(sent, vec![block(3), block(4), block(5)]);
    assert!(!cursor.sent(false));
    assert_eq!(cursor.next, block(6));
}

#[test]
fn blocks_that_are_not_cached_are_loaded() {
    let error = DatabaseError::AccountError;
    assert_eq!(fetch_block(block(1), Some(vec![1]), Ok(None)), Ok(vec![1]));
    assert_eq!(fetch_block(block(1), None, Ok(Some(vec![2]))), Ok(vec![2]));
    assert_eq!(
        fetch_block(block(1), None, Ok(None)),
        Err(StateSubscriptionError::BlockNotFound(block(1)))
    );
    assert_eq!(
        fetch_block(block(1), None, Err(error.clone())),
        Err(StateSubscriptionError::BlockLoad { block_num: block(1), source: error.clone() })
    );
    assert_eq!(fetch_proof(block(1), Some(vec![1]), Ok(None)), Ok(vec![1]));
    assert_eq!(fetch_proof(block(1), None, Ok(Some(vec![2]))), Ok(vec![2]));
    assert_eq!(
        fetch_proof(block(1), None, Ok(None)),
        Err(StateSubscriptionError::ProofNotFound(block(1)))
    );
    assert_eq!(
        fetch_proof(block(1), None, Err(error.clone())),
        Err(StateSubscriptionError::ProofLoad { block_num: block(1), source: error })
    );
}

// DISK AND LOCKS
// ================================================================================================

#[test]
fn the_size_of_a_directory_is_that_of_its_files() {
    let mut walk = DirectoryWalk::new("data".to_string());
    assert_eq!(walk.next_directory(), Some("data".to_string()));
    walk.add_listing(Some(vec![
        DirEntry::File(10),
        DirEntry::Directory("data/a".to_string()),
        DirEntry::Directory("data/b".to_string()),
    ]));
    assert_eq!(walk.next_directory(), Some("data/b".to_string()));
    walk.add_listing(Some(vec![DirEntry::File(5)]));
    assert_eq!(walk.next_directory(), Some("data/a".to_string()));
    walk.add_listing(Some(vec![]));
    assert_eq!(walk.next_directory(), None);
    assert_eq!(walk.size(), 15);
}

#[test]
fn a_walk_that_fails_finds_nothing() {
    let mut walk = DirectoryWalk::new("data".to_string());
    walk.next_directory();
    walk.add_listing(Some(vec![DirEntry::File(10), DirEntry::Directory("data/a".to_string())]));
    walk.next_directory();
    walk.add_listing(None);
    assert_eq!(walk.next_directory(), None);
    assert_eq!(walk.size(), 0);
    walk.add_listing(Some(vec![DirEntry::File(1)]));
    assert_eq!(walk.size(), 0);

    let mut walk = DirectoryWalk::new("data".to_string());
    walk.add_listing(Some(vec![DirEntry::File(u64::MAX), DirEntry::File(1)]));
    assert_eq!(walk.size(), 0);
}

#[test]
fn writers_change_the_guarded_value() {
    let mut guard = WriterGuard::new(1);
    *guard.as_mut() += 4;
    assert_eq!(*guard.as_mut(), 5);
}

// VALUES
// ================================================================================================

#[test]
fn block_numbers_do_not_wrap() {
    assert_eq!(block(4).child(), block(5));
    assert_eq!(block(4).saturating_sub(5), block(0));
    assert_eq!(block(u32::MAX).saturating_add(1), block(u32::MAX));
    assert_eq!((block(7).as_u32(), block(7).as_u64()), (7, 7));
    assert!(BlockRange::new(block(2), block(1)).is_empty());
    assert!(!BlockRange::new(block(1), block(1)).is_empty());
}

#[test]
fn stored_integers_are_read_back() {
    assert_eq!(block_number_from_raw_sql(block_number_to_raw_sql(block(9))), Ok(block(9)));
    assert_eq!(
        block_number_from_raw_sql(1 << 32),
        Err(DatabaseError::ConversionSqlToRust(1 << 32))
    );
    for nonce in [0, 1, u64::MAX] {
        assert_eq!(raw_sql_to_nonce(nonce_to_raw_sql(nonce)), nonce);
    }
    assert_eq!(nonce_to_raw_sql(u64::MAX), -1);
}

#[test]
fn sets_of_blocks_are_ascending() {
    let mut blocks = BlockSet::from_blocks(&vec![block(4), block(2), block(4)]);
    blocks.insert(block(3));
    blocks.extend(&vec![block(9), block(2)]);
    assert_eq!(blocks.blocks, vec![block(2), block(3), block(4), block(9)]);
    blocks.remove(block(3));
    blocks.remove(block(7));
    assert_eq!(blocks.blocks, vec![block(2), block(4), block(9)]);
    assert_eq!(blocks.last(), Some(block(9)));
    assert_eq!(BlockSet::new().last(), None);
}

#[test]
fn sets_of_words_are_ordered_from_the_last_element() {
    let protocol = |word: Word| {
        miden_protocol::Word::new([word.0, word.1, word.2, word.3].map(Felt::new))
    };
    let words = [Word(9, 0, 0, 1), Word(1, 2, 0, 1), Word(0, 0, 0, 2), Word(3, 0, 0, 1)];
    let mut set = WordSet::new();
    for word in words {
        set.insert(word);
        set.insert(word);
    }
    let mut expected: Vec<_> = words.to_vec();
    expected.sort_by_key(|word| protocol(*word));
    assert_eq!(set.words, expected);
    assert!(is_before(expected[0], expected[1]));
    assert!(!is_before(expected[1], expected[0]));
}

#[test]
fn words_have_canonical_elements() {
    let order = 0xFFFF_FFFF_0000_0001;
    assert_eq!(Word::from_elements(1, 2, 3, order - 1), Some(Word(1, 2, 3, order - 1)));
    assert_eq!(Word::from_elements(1, 2, 3, order), None);
    assert!(Word(0, 0, 0, 0).is_empty());
    assert_eq!(Word::empty(), Word::default());
    assert!(!Word(0, order, 0, 0).check_canonical());
}

#[test]
fn serialization_symmetry_core_types() {
    let id = miden_protocol::account::AccountId::try_from(ACCOUNT_ID_PRIVATE_SENDER).unwrap();
    let account_id =
        AccountId { prefix: id.prefix().as_u64(), suffix: id.suffix().as_canonical_u64() };
    let bytes = account_id_to_bytes(account_id);
    assert_eq!(bytes, id.to_bytes());
    assert_eq!(
        read_account_id(&bytes),
        Ok(account_id),
        "AccountId serialization must be symmetric"
    );

    let word = protocol_word(0x1234_5678_9ABC_DEF0);
    assert_eq!(
        read_word(&word.to_bytes()),
        Ok(library_word(word)),
        "Word serialization must be symmetric"
    );

    let nullifier = Nullifier::from_raw(protocol_word(0xDEAD_BEEF));
    assert_eq!(
        read_word(&nullifier.to_bytes()),
        Ok(library_word(nullifier.as_word())),
        "Nullifier serialization must be symmetric"
    );

    let faucet =
        miden_protocol::account::AccountId::try_from(ACCOUNT_ID_PUBLIC_FUNGIBLE_FAUCET).unwrap();
    let transaction_id = TransactionId::new(
        protocol_word(1),
        protocol_word(2),
        protocol_word(3),
        protocol_word(4),
        FungibleAsset::new(faucet, 100).unwrap(),
    );
    assert_eq!(
        read_word(&transaction_id.to_bytes()),
        Ok(library_word(transaction_id.as_word())),
        "TransactionId serialization must be symmetric"
    );

    let note_id = NoteId::new(protocol_word(1), protocol_word(2));
    assert_eq!(
        read_word(&note_id.to_bytes()),
        Ok(library_word(note_id.as_word())),
        "NoteId serialization must be symmetric"
    );

    assert_eq!(read_word(&vec![0; 31]), Err(DatabaseError::DeserializationError));
    assert_eq!(read_account_id(&vec![0; 14]), Err(DatabaseError::DeserializationError));
}

#[test]
fn serialization_symmetry_assets() {
    let faucet =
        miden_protocol::account::AccountId::try_from(ACCOUNT_ID_PUBLIC_FUNGIBLE_FAUCET).unwrap();
    let asset: miden_protocol::asset::Asset = FungibleAsset::new(faucet, 1000).unwrap().into();
    let read = read_asset(&asset.to_bytes()).unwrap();
    assert_eq!(read.key, library_word(asset.to_key_word()));
    assert_eq!(
        read.value,
        library_word(asset.to_value_word()),
        "Asset (fungible) serialization must be symmetric"
    );
    assert_eq!(read_asset(&vec![]), Err(DatabaseError::DeserializationError));
}

#[test]
fn identifiers_tell_where_the_state_is() {
    for (mode, expected, public_state) in [
        (
            miden_protocol::account::AccountStorageMode::Public,
            AccountStorageMode::Public,
            true,
        ),
        (
            miden_protocol::account::AccountStorageMode::Network,
            AccountStorageMode::Network,
            true,
        ),
        (
            miden_protocol::account::AccountStorageMode::Private,
            AccountStorageMode::Private,
            false,
        ),
    ] {
        let id = miden_protocol::account::AccountId::dummy(
            [3; 15],
            miden_protocol::account::AccountIdVersion::Version0,
            miden_protocol::account::AccountType::RegularAccountImmutableCode,
            mode,
        );
        let account_id =
            AccountId { prefix: id.prefix().as_u64(), suffix: id.suffix().as_canonical_u64() };
        assert_eq!(account_id.storage_mode(), Some(expected));
        assert_eq!(account_id.is_public(), id.is_public());
        assert_eq!(account_id.is_network(), id.is_network());
        assert_eq!(account_id.is_private(), id.is_private());
        assert_eq!(account_id.has_public_state(), public_state);
        assert_eq!(account_id.has_public_state(), id.has_public_state());
    }
}
