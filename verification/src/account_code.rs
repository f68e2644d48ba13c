//! The code of accounts, as far as its encoding tells of it.
//!
//! Bytes that encode no code come from outside, so it matters that the readers of the protocol library
//! return an error on them and do not panic. For `MastForest::read_from` and all that it calls, this is
//! what rules a panic out (miden-core 0.22.4, where no other crate is named):
//!
//! - Input: `SliceReader` compares each read with the end (miden-serde-utils 0.23.0,
//!   `byte_reader.rs` 728-766). Lengths are read by `read_usize` (142), and items one at a time by
//!   `read_many_iter` (226), so that a read takes a few bytes at once, and nothing is allocated
//!   for a length alone.
//! - Frame: `mast/serialization/mod.rs` 185-260 and 268. The number of nodes is limited (192). Each root
//!   and each child is compared with it (`mast/mod.rs` 984), so that the assertion of `make_root` (162)
//!   holds.
//! - Nodes: `mast/serialization/info.rs` 44-105 and 276-350. All nodes get their digest here, so that
//!   `add_to_forest_relaxed` finds one (`mast/node/basic_block_node/mod.rs` 1507, and the same function
//!   of the other nodes).
//! - Basic blocks: `mast/serialization/basic_blocks.rs` 158-285. The offset (167), the number of batches
//!   (186) and the end of each batch (225) are compared with what there is. A group has at most nine
//!   operations (116-138), so that no shift is too wide. `collect_immediate_placements`
//!   (`mast/node/basic_block_node/op_batch.rs` 318) compares each slot before it is used, and the
//!   operations of a batch end where its last group ends, as `new_from_parts` (180-243) asserts.
//! - Operations: `operations/mod.rs` 907. Advice map: `advice/map.rs` 176.
//! - Debug information: `mast/debuginfo/mod.rs` 607-688, or `empty_for_nodes` (160) if there is none.
//!   Offsets into data are compared with its length (`mast/serialization/decorator.rs` 50,
//!   `string_table.rs` 56, `asm_op.rs` 62). Indices are checked before they are followed
//!   (`mast/debuginfo/decorator_storage.rs` 143 and 238, `debug_var_storage.rs` 130 and 214,
//!   miden-utils-indexing 0.22.4, `csr.rs` 228 and 331). Debug variables:
//!   `operations/decorators/debug_var.rs` 208 and 243, and miden-debug-types 0.22.4, `location.rs` 99
//!   and `source_file.rs` 1210.
//!
//! `AccountCode::read_from` (miden-protocol 0.14.5, `account/code/mod.rs` 282) reads a forest, a byte,
//! and one more procedure than the byte says, and `from_parts` (135) asserts that these are two at
//! least. That is the one panic: a code with a single procedure.

use miden_protocol::account::AccountCode as ProtocolCode;
use miden_protocol::utils::serde::{ByteReader, Deserializable, SliceReader};
use miden_protocol::MastForest;
use vstd::prelude::*;

use crate::word::Word;

verus! {

/// The byte that follows the forest of procedures which `MastForest::read_from` reads from the start
/// of the bytes, or `None` if there is no forest or no byte after it. In the encoding of a code it is
/// the number of procedures, less one.
pub uninterp spec fn byte_after_forest(bytes: Seq<u8>) -> Option<u8>;

/// Reads a forest of procedures by `MastForest::read_from`, and the byte that follows it. Neither panics,
/// whatever the bytes are, as said at the top of this file.
#[verifier::external_body]
fn read_byte_after_forest(bytes: &Vec<u8>, start: usize) -> (r: Option<u8>)
    requires
        start <= bytes@.len(),
    ensures
        r == byte_after_forest(bytes@.skip(start as int)),
{
    let mut reader = SliceReader::new(&bytes[start..]);
    MastForest::read_from(&mut reader).ok()?;
    reader.read_u8().ok()
}

/// Whether bytes start like the encoding of a code with a single procedure. No account has such a
/// code: an account has at least two procedures.
pub open spec fn is_short_code(bytes: Seq<u8>) -> bool {
    byte_after_forest(bytes) == Some(0u8)
}

/// Whether bytes hold an optional code with a single procedure somewhere: a byte 1, and a code after
/// it. This is so of all bytes from which such a code is read. It may also be so of bytes that only look
/// alike at some place: what stands there is known only once all is decoded.
pub open spec fn has_short_code(bytes: Seq<u8>) -> bool {
    exists|i: int| 0 < i <= bytes.len() && bytes[i - 1] == 1 && #[trigger] is_short_code(
        bytes.skip(i),
    )
}

/// Returns whether bytes hold an optional code with a single procedure somewhere.
pub fn find_short_code(bytes: &Vec<u8>) -> (r: bool)
    ensures
        r == has_short_code(bytes@),
        r <==> exists|i: int|
            0 < i <= bytes@.len() && bytes@[i - 1] == 1 && #[trigger] byte_after_forest(
                bytes@.skip(i),
            ) == Some(0u8),
{
    let mut i: usize = 0;
    while i < bytes.len()
        invariant
            i <= bytes@.len(),
            forall|k: int|
                0 < k <= i && bytes@[k - 1] == 1 ==> !#[trigger] is_short_code(bytes@.skip(k)),
        decreases bytes@.len() - i,
    {
        if bytes[i] == 1 && read_byte_after_forest(bytes, i + 1) == Some(0u8) {
            assert(is_short_code(bytes@.skip(i + 1)));
            return true;
        }
        i = i + 1;
    }
    proof {
        assert forall|k: int| 0 < k <= bytes@.len() && bytes@[k - 1] == 1 implies #[trigger]
            byte_after_forest(bytes@.skip(k)) != Some(0u8) by {
            assert(!is_short_code(bytes@.skip(k)));
        }
    }
    false
}

/// The commitment of the code that `AccountCode::read_from_bytes` reads from bytes, or `None` if it
/// reads none.
pub uninterp spec fn read_code_commitment(bytes: Seq<u8>) -> Option<Word>;

/// Decodes a code by `AccountCode::read_from_bytes`, and takes its commitment. A code with a single
/// procedure makes it panic.
#[verifier::external_body]
fn account_code_from_bytes(bytes: &Vec<u8>) -> (r: Option<Word>)
    requires
        !is_short_code(bytes@),
    ensures
        r == read_code_commitment(bytes@),
{
    let code = ProtocolCode::read_from_bytes(bytes).ok()?;
    let [a, b, c, d] = code.commitment().into_elements().map(|e| e.as_canonical_u64());
    Some(Word(a, b, c, d))
}

/// The commitment of the code that is encoded by bytes, or `None` if they do not encode the code of
/// an account.
pub open spec fn code_commitment_of_bytes(bytes: Seq<u8>) -> Option<Word> {
    if is_short_code(bytes) {
        None
    } else {
        read_code_commitment(bytes)
    }
}

/// Returns the commitment of the code that is encoded by bytes, or `None` if they do not encode the
/// code of an account.
pub fn code_commitment(bytes: &Vec<u8>) -> (r: Option<Word>)
    ensures
        r == code_commitment_of_bytes(bytes@),
        byte_after_forest(bytes@) == Some(0u8) ==> r is None,
        byte_after_forest(bytes@) != Some(0u8) ==> r == read_code_commitment(bytes@),
{
    assert(bytes@.skip(0) =~= bytes@);
    if read_byte_after_forest(bytes, 0) == Some(0u8) {
        return None;
    }
    account_code_from_bytes(bytes)
}

} // verus!
