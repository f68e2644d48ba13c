use miden_node_store::block_number::BlockNumber;
use miden_node_store::db::proven::ProvenBlocks;
use miden_node_store::proven_tip::{advance_tip, ProvenTipWriter};
use miden_node_store::state::apply_proof::{apply_proof, ProofNotStored};
use miden_node_store::state::replica::ProofCache;

fn block(number: u32) -> BlockNumber {
    BlockNumber::from(number)
}

fn blocks(numbers: &[u32]) -> Vec<BlockNumber> {
    numbers.iter().map(|number| block(*number)).collect()
}

/// A chain of a genesis block and some blocks that are not proven yet.
fn chain_with_unproven(count: u32) -> ProvenBlocks {
    let mut chain = ProvenBlocks::new();
    for _ in 0..count {
        chain.add_block();
    }
    chain
}

#[test]
fn select_latest_proven_block_num_only_genesis() {
    let chain = ProvenBlocks::new();
    assert_eq!(chain.latest_proven_in_sequence(), BlockNumber::genesis());
}

#[test]
fn mark_block_proven_advances_in_sequence_for_consecutive_blocks() {
    let mut chain = chain_with_unproven(3);
    for i in 1..=3 {
        let advanced = chain.mark_proven_and_advance_sequence(block(i));
        assert_eq!(advanced, blocks(&[i]));
    }
    assert_eq!(chain.latest_proven_in_sequence(), block(3));
}

#[test]
fn mark_block_proven_with_hole_does_not_advance_past_gap() {
    let mut chain = chain_with_unproven(4);
    assert_eq!(chain.mark_proven_and_advance_sequence(block(1)), blocks(&[1]));
    assert!(chain.mark_proven_and_advance_sequence(block(3)).is_empty());
    assert!(chain.mark_proven_and_advance_sequence(block(4)).is_empty());
    assert_eq!(chain.latest_proven_in_sequence(), block(1));
}

#[test]
fn mark_block_proven_filling_hole_advances_through_all_consecutive() {
    let mut chain = chain_with_unproven(4);
    assert_eq!(chain.mark_proven_and_advance_sequence(block(1)), blocks(&[1]));
    assert!(chain.mark_proven_and_advance_sequence(block(3)).is_empty());
    assert!(chain.mark_proven_and_advance_sequence(block(4)).is_empty());
    assert_eq!(chain.latest_proven_in_sequence(), block(1));

    assert_eq!(chain.mark_proven_and_advance_sequence(block(2)), blocks(&[2, 3, 4]));
    assert_eq!(chain.latest_proven_in_sequence(), block(4));
}

#[test]
fn select_unproven_blocks_skips_proven() {
    let mut chain = chain_with_unproven(5);
    chain.mark_proven_and_advance_sequence(block(1));
    chain.mark_proven_and_advance_sequence(block(3));
    assert_eq!(chain.select_unproven_blocks(BlockNumber::genesis(), 10), blocks(&[2, 4, 5]));
}

#[test]
fn select_unproven_blocks_respects_limit() {
    let chain = chain_with_unproven(5);
    assert_eq!(chain.select_unproven_blocks(BlockNumber::genesis(), 2), blocks(&[1, 2]));
}

#[test]
fn select_unproven_blocks_starts_after_the_given_block() {
    let chain = chain_with_unproven(5);
    assert_eq!(chain.select_unproven_blocks(block(3), 10), blocks(&[4, 5]));
    assert!(chain.select_unproven_blocks(block(5), 10).is_empty());
}

#[test]
fn mark_block_proven_is_idempotent_for_in_sequence() {
    let mut chain = chain_with_unproven(1);
    assert_eq!(chain.mark_proven_and_advance_sequence(block(1)), blocks(&[1]));
    assert_eq!(chain.latest_proven_in_sequence(), block(1));
    assert!(chain.mark_proven_and_advance_sequence(block(1)).is_empty());
    assert_eq!(chain.latest_proven_in_sequence(), block(1));
}

#[test]
fn advance_only_increases_tip() {
    let (writer, _rx) = ProvenTipWriter::new(block(5));
    assert_eq!(writer.read(), block(5));

    writer.advance(block(10));
    assert_eq!(writer.read(), block(10));

    writer.advance(block(7));
    assert_eq!(writer.read(), block(10));

    writer.advance(block(10));
    assert_eq!(writer.read(), block(10));

    writer.advance(block(15));
    assert_eq!(writer.read(), block(15));
}

#[test]
fn subscribers_see_the_tip_of_every_writer() {
    let (writer, first) = ProvenTipWriter::new(block(5));
    let second = writer.clone().subscribe();
    writer.clone().advance(block(6));
    assert_eq!(*first.borrow(), block(6));
    assert_eq!(*second.borrow(), block(6));
    assert!(first.has_changed().unwrap());
}

#[test]
fn a_tip_moves_forward_only() {
    let mut tip = block(5);
    assert!(!advance_tip(&mut tip, block(5)));
    assert!(!advance_tip(&mut tip, block(4)));
    assert_eq!(tip, block(5));
    assert!(advance_tip(&mut tip, block(6)));
    assert_eq!(tip, block(6));
}

#[test]
fn stored_proofs_are_cached_and_move_the_tip() {
    let (writer, _rx) = ProvenTipWriter::new(block(5));
    let mut cache = ProofCache::new(4);
    let advance = apply_proof(&mut cache, &writer, block(6), vec![1, 2], Ok(())).unwrap();
    assert_eq!((advance.before(), advance.after()), (block(5), block(6)));
    assert!(advance.notified());
    assert_eq!(cache.get(block(6)).unwrap().proof_bytes(), [1, 2]);
    assert_eq!(writer.read(), block(6));

    let refused =
        apply_proof(&mut cache, &writer, block(7), vec![3], Err("disk is full".to_string()));
    assert_eq!(refused, Err(ProofNotStored("disk is full".to_string())));
    assert!(cache.get(block(7)).is_none());
    assert_eq!(writer.read(), block(6));

    let again = writer.clone().advance(block(6));
    assert_eq!((again.before(), again.after(), again.notified()), (block(6), block(6), false));
}
