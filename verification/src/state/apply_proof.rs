//! Applying the proof of a block.

use vstd::prelude::*;

use crate::block_number::BlockNumber;
use crate::proven_tip::{ProvenTipWriter, TipAdvance};
use crate::state::replica::{newest, ProofCache, ProofNotification};

verus! {

/// The proof of a block could not be stored.
#[derive(Clone, Debug, PartialEq, Eq)]
pub struct ProofNotStored(pub String);

/// Makes the proof of a block known to subscribers and advances the proven tip, once the proof was
/// stored. A proof that could not be stored changes nothing. Returns what the proven tip was at that
/// moment, and what it became.
pub fn apply_proof(
    proof_cache: &mut ProofCache,
    proven_tip: &ProvenTipWriter,
    block_num: BlockNumber,
    proof_bytes: Vec<u8>,
    stored: Result<(), String>,
) -> (r: Result<TipAdvance, ProofNotStored>)
    requires
        old(proof_cache).is_valid(),
    ensures
        final(proof_cache).is_valid(),
        final(proof_cache).spec_capacity() == old(proof_cache).spec_capacity(),
        match stored {
            Err(error) => {
                &&& r == Err::<TipAdvance, ProofNotStored>(ProofNotStored(error))
                &&& final(proof_cache)@ == old(proof_cache)@
            },
            Ok(()) => {
                &&& r matches Ok(advance)
                &&& advance.is_advance_to(block_num)
                &&& proven_tip.tips().contains(advance.spec_before())
                &&& exists|notification: ProofNotification|
                    {
                        &&& notification.0.block_num == block_num
                        &&& notification.0.proof_bytes == proof_bytes
                        &&& final(proof_cache)@ == #[trigger] newest(
                            old(proof_cache)@.push((block_num, notification)),
                            old(proof_cache).spec_capacity(),
                        )
                    }
            },
        },
{
    match stored {
        Err(error) => Err(ProofNotStored(error)),
        Ok(()) => {
            let notification = ProofNotification::new(block_num, proof_bytes);
            let ghost pushed = notification;
            proof_cache.push(block_num, notification);
            assert(proof_cache@ == newest(
                old(proof_cache)@.push((block_num, pushed)),
                old(proof_cache).spec_capacity(),
            ));
            Ok(proven_tip.advance(block_num))
        },
    }
}

} // verus!
