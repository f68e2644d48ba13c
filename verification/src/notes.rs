//! Notes as transactions refer to them, and their encodings.

use miden_protocol::asset::FungibleAsset;
use miden_protocol::note::{
    NoteHeader as ProtocolNoteHeader, NoteId, NoteMetadata as ProtocolNoteMetadata, Nullifier,
};
use miden_protocol::transaction::InputNoteCommitment as ProtocolInputNote;
use miden_protocol::utils::serde::{Deserializable, Serializable};
use miden_protocol::Felt;
use vstd::prelude::*;

use crate::bytes::equal_bytes;
use crate::protocol::{
    asset_bytes, asset_of_bytes, faucet_of_key, is_asset, is_fungible_faucet, lemma_asset_of_bytes,
    lemma_asset_round_trip,
};
use crate::state::account::Asset;
use crate::word::Word;

verus! {

/// The public information of a note: its identifier and its encoded metadata.
#[derive(Clone, Debug, PartialEq, Eq)]
pub struct NoteHeader {
    pub note_id: Word,
    pub metadata: Vec<u8>,
}

/// What a note header holds.
#[verifier::ext_equal]
pub struct NoteHeaderView {
    pub note_id: Word,
    pub metadata: Seq<u8>,
}

impl View for NoteHeader {
    type V = NoteHeaderView;

    open spec fn view(&self) -> NoteHeaderView {
        NoteHeaderView { note_id: self.note_id, metadata: self.metadata@ }
    }
}

/// A note that a transaction consumes: its nullifier, and its header if the note is not
/// authenticated yet.
#[derive(Clone, Debug, PartialEq, Eq)]
pub struct InputNoteCommitment {
    pub nullifier: Word,
    pub header: Option<NoteHeader>,
}

/// What the commitment to an input note holds.
#[verifier::ext_equal]
pub struct InputNoteView {
    pub nullifier: Word,
    pub header: Option<NoteHeaderView>,
}

impl View for InputNoteCommitment {
    type V = InputNoteView;

    open spec fn view(&self) -> InputNoteView {
        InputNoteView {
            nullifier: self.nullifier,
            header: match self.header {
                None => None,
                Some(header) => Some(header@),
            },
        }
    }
}

/// The headers of notes.
pub open spec fn header_views(headers: Seq<NoteHeader>) -> Seq<NoteHeaderView> {
    headers.map_values(|header: NoteHeader| header@)
}

/// The commitments to input notes.
pub open spec fn input_views(notes: Seq<InputNoteCommitment>) -> Seq<InputNoteView> {
    notes.map_values(|note: InputNoteCommitment| note@)
}

// METADATA
// ================================================================================================

/// The bytes that `NoteMetadata::to_bytes` writes for the metadata that
/// `NoteMetadata::read_from_bytes` reads from bytes, or `None` if it reads none.
pub uninterp spec fn metadata_form(bytes: Seq<u8>) -> Option<Seq<u8>>;

/// Reads metadata by `NoteMetadata::read_from_bytes` and writes it by `to_bytes`. Written metadata
/// is read back, and written in the same way again.
#[verifier::external_body]
pub(crate) fn rewrite_metadata(bytes: &Vec<u8>) -> (r: Option<Vec<u8>>)
    ensures
        match r {
            None => metadata_form(bytes@) is None,
            Some(written) => metadata_form(bytes@) == Some(written@) && metadata_form(written@)
                == Some(written@),
        },
{
    Some(ProtocolNoteMetadata::read_from_bytes(bytes).ok()?.to_bytes())
}

/// Whether bytes are the encoding of note metadata.
pub open spec fn is_metadata(bytes: Seq<u8>) -> bool {
    metadata_form(bytes) == Some(bytes)
}

/// Whether a header names a note by a canonical word and holds encoded metadata.
pub open spec fn is_note_header(header: NoteHeaderView) -> bool {
    header.note_id.is_canonical() && is_metadata(header.metadata)
}

/// Whether all headers are those of notes.
pub open spec fn are_note_headers(headers: Seq<NoteHeaderView>) -> bool {
    forall|i: int| 0 <= i < headers.len() ==> is_note_header(#[trigger] headers[i])
}

/// Whether the nullifier of an input note is canonical and its header, if any, is that of a note.
pub open spec fn is_input_note(note: InputNoteView) -> bool {
    note.nullifier.is_canonical() && (note.header matches Some(header) ==> is_note_header(header))
}

/// Whether all are commitments to input notes.
pub open spec fn are_input_notes(notes: Seq<InputNoteView>) -> bool {
    forall|i: int| 0 <= i < notes.len() ==> is_input_note(#[trigger] notes[i])
}

/// Returns whether a header is that of a note.
pub fn check_note_header(header: &NoteHeader) -> (r: bool)
    ensures
        r == is_note_header(header@),
        r == (header.note_id.is_canonical() && metadata_form(header.metadata@) == Some(
            header.metadata@,
        )),
{
    if !header.note_id.check_canonical() {
        return false;
    }
    match rewrite_metadata(&header.metadata) {
        None => false,
        Some(written) => equal_bytes(&written, &header.metadata),
    }
}

/// Returns whether all headers are those of notes.
pub fn check_note_headers(headers: &Vec<NoteHeader>) -> (r: bool)
    ensures
        r == are_note_headers(header_views(headers@)),
        r <==> forall|i: int|
            0 <= i < headers@.len() ==> (#[trigger] headers@[i]).note_id.is_canonical()
                && metadata_form(headers@[i].metadata@) == Some(headers@[i].metadata@),
{
    let ghost views = header_views(headers@);
    let mut i: usize = 0;
    while i < headers.len()
        invariant
            i <= headers@.len(),
            views == header_views(headers@),
            forall|k: int| 0 <= k < i ==> is_note_header(#[trigger] views[k]),
        decreases headers@.len() - i,
    {
        assert(views[i as int] == headers@[i as int]@);
        if !check_note_header(&headers[i]) {
            assert(!is_note_header(views[i as int]));
            return false;
        }
        i = i + 1;
    }
    proof {
        assert forall|k: int| 0 <= k < headers@.len() implies (
        #[trigger] headers@[k]).note_id.is_canonical() && metadata_form(headers@[k].metadata@)
            == Some(headers@[k].metadata@) by {
            assert(is_note_header(views[k]));
        }
    }
    true
}

/// Returns whether all are commitments to input notes.
pub fn check_input_notes(notes: &Vec<InputNoteCommitment>) -> (r: bool)
    ensures
        r == are_input_notes(input_views(notes@)),
        r <==> forall|i: int|
            0 <= i < notes@.len() ==> (#[trigger] notes@[i]).nullifier.is_canonical() && (
            notes@[i].header matches Some(header) ==> header.note_id.is_canonical()
                && metadata_form(header.metadata@) == Some(header.metadata@)),
{
    let ghost views = input_views(notes@);
    let mut i: usize = 0;
    while i < notes.len()
        invariant
            i <= notes@.len(),
            views == input_views(notes@),
            forall|k: int| 0 <= k < i ==> is_input_note(#[trigger] views[k]),
        decreases notes@.len() - i,
    {
        assert(views[i as int] == notes@[i as int]@);
        if !notes[i].nullifier.check_canonical() {
            assert(!is_input_note(views[i as int]));
            return false;
        }
        if let Some(header) = &notes[i].header {
            if !check_note_header(header) {
                assert(!is_input_note(views[i as int]));
                return false;
            }
        }
        i = i + 1;
    }
    proof {
        assert forall|k: int| 0 <= k < notes@.len() implies (
        #[trigger] notes@[k]).nullifier.is_canonical() && (notes@[k].header matches Some(header)
            ==> header.note_id.is_canonical() && metadata_form(header.metadata@) == Some(
            header.metadata@,
        )) by {
            assert(is_input_note(views[k]));
        }
    }
    true
}

// ENCODINGS
// ================================================================================================

/// The bytes that `Vec<NoteHeader>::to_bytes` writes for headers.
pub uninterp spec fn note_headers_bytes(headers: Seq<NoteHeaderView>) -> Seq<u8>;

/// The headers that `Vec<NoteHeader>::read_from_bytes` reads from bytes, or `None` if it fails.
pub uninterp spec fn note_headers_of_bytes(bytes: Seq<u8>) -> Option<Seq<NoteHeaderView>>;

/// Encodes headers by `Vec<NoteHeader>::to_bytes`. What was written can be read back.
#[verifier::external_body]
pub(crate) fn note_headers_to_bytes(headers: &Vec<NoteHeader>) -> (r: Vec<u8>)
    requires
        are_note_headers(header_views(headers@)),
    ensures
        r@ == note_headers_bytes(header_views(headers@)),
        note_headers_of_bytes(r@) == Some(header_views(headers@)),
{
    let headers: Vec<ProtocolNoteHeader> = headers.iter().map(
        |header|
            {
                let Word(a, b, c, d) = header.note_id;
                let note_id = NoteId::from_raw([a, b, c, d].map(Felt::new).into());
                let metadata = ProtocolNoteMetadata::read_from_bytes(&header.metadata);
                ProtocolNoteHeader::new(note_id, metadata.expect("encoded metadata"))
            },
    ).collect();
    headers.to_bytes()
}

/// Decodes headers by `Vec<NoteHeader>::read_from_bytes`, which returns nothing but headers of notes.
#[verifier::external_body]
pub(crate) fn note_headers_from_bytes(bytes: &Vec<u8>) -> (r: Option<Vec<NoteHeader>>)
    ensures
        match r {
            None => note_headers_of_bytes(bytes@) is None,
            Some(headers) => note_headers_of_bytes(bytes@) == Some(header_views(headers@))
                && are_note_headers(header_views(headers@)),
        },
{
    let headers = Vec::<ProtocolNoteHeader>::read_from_bytes(bytes).ok()?;
    let headers = headers.iter().map(
        |header|
            {
                let note_id = header.id().as_word().into_elements();
                let [a, b, c, d] = note_id.map(|element| element.as_canonical_u64());
                NoteHeader { note_id: Word(a, b, c, d), metadata: header.metadata().to_bytes() }
            },
    );
    Some(headers.collect())
}

/// The commitment that `NoteHeader::to_commitment` returns for a header.
pub uninterp spec fn note_commitment_of(header: NoteHeaderView) -> Word;

/// The commitment to a note and its metadata by `NoteHeader::to_commitment`.
#[verifier::external_body]
pub(crate) fn note_commitment(header: &NoteHeader) -> (r: Word)
    requires
        is_note_header(header@),
    ensures
        r == note_commitment_of(header@),
{
    let Word(a, b, c, d) = header.note_id;
    let note_id = NoteId::from_raw([a, b, c, d].map(Felt::new).into());
    let metadata = ProtocolNoteMetadata::read_from_bytes(&header.metadata);
    let header = ProtocolNoteHeader::new(note_id, metadata.expect("encoded metadata"));
    let commitment = header.to_commitment().into_elements();
    let [a, b, c, d] = commitment.map(|element| element.as_canonical_u64());
    Word(a, b, c, d)
}

/// The bytes that `Vec<InputNoteCommitment>::to_bytes` writes for commitments.
pub uninterp spec fn input_notes_bytes(notes: Seq<InputNoteView>) -> Seq<u8>;

/// The commitments that `Vec<InputNoteCommitment>::read_from_bytes` reads from bytes, or `None` if it
/// fails.
pub uninterp spec fn input_notes_of_bytes(bytes: Seq<u8>) -> Option<Seq<InputNoteView>>;

/// Encodes commitments to input notes by `Vec<InputNoteCommitment>::to_bytes`. What was written can
/// be read back.
#[verifier::external_body]
pub(crate) fn input_notes_to_bytes(notes: &Vec<InputNoteCommitment>) -> (r: Vec<u8>)
    requires
        are_input_notes(input_views(notes@)),
    ensures
        r@ == input_notes_bytes(input_views(notes@)),
        input_notes_of_bytes(r@) == Some(input_views(notes@)),
{
    let word = |w: Word| miden_protocol::Word::new([w.0, w.1, w.2, w.3].map(Felt::new));
    let header = |h: &NoteHeader| {
        let metadata = ProtocolNoteMetadata::read_from_bytes(&h.metadata).expect("metadata");
        ProtocolNoteHeader::new(NoteId::from_raw(word(h.note_id)), metadata)
    };
    let notes = notes.iter().map(|note| {
        let nullifier = Nullifier::from_raw(word(note.nullifier));
        ProtocolInputNote::from_parts_unchecked(nullifier, note.header.as_ref().map(header))
    });
    notes.collect::<Vec<_>>().to_bytes()
}

/// Decodes commitments to input notes by `Vec<InputNoteCommitment>::read_from_bytes`, which returns
/// nothing but such commitments.
#[verifier::external_body]
pub(crate) fn input_notes_from_bytes(bytes: &Vec<u8>) -> (r: Option<Vec<InputNoteCommitment>>)
    ensures
        match r {
            None => input_notes_of_bytes(bytes@) is None,
            Some(notes) => input_notes_of_bytes(bytes@) == Some(input_views(notes@))
                && are_input_notes(input_views(notes@)),
        },
{
    let notes = Vec::<ProtocolInputNote>::read_from_bytes(bytes).ok()?;
    let word = |w: miden_protocol::Word| {
        let [a, b, c, d] = w.into_elements().map(|element| element.as_canonical_u64());
        Word(a, b, c, d)
    };
    let header = |h: &ProtocolNoteHeader| {
        NoteHeader { note_id: word(h.id().as_word()), metadata: h.metadata().to_bytes() }
    };
    let notes = notes.iter().map(|note| InputNoteCommitment {
        nullifier: word(note.nullifier().as_word()),
        header: note.header().map(header),
    });
    Some(notes.collect())
}

/// Whether an asset is a fungible one.
pub open spec fn is_fungible_asset(asset: Asset) -> bool {
    is_asset(asset) && is_fungible_faucet(faucet_of_key(asset.key))
}

/// The fungible asset that the first bytes stand for, or `None` if they stand for none.
pub open spec fn fungible_asset_of_bytes(bytes: Seq<u8>) -> Option<Asset> {
    match asset_of_bytes(bytes) {
        Some(asset) if is_fungible_faucet(faucet_of_key(asset.key)) => Some(asset),
        _ => None,
    }
}

/// Encodes a fungible asset by `FungibleAsset::from_key_value_words` and `FungibleAsset::to_bytes`,
/// which writes the faucet, the amount and the flag.
#[verifier::external_body]
fn encode_fungible_asset(asset: Asset) -> (r: Vec<u8>)
    requires
        is_fungible_asset(asset),
    ensures
        r@ == asset_bytes(asset),
{
    let [key, value] = [asset.key, asset.value].map(
        |w| miden_protocol::Word::new([w.0, w.1, w.2, w.3].map(Felt::new)),
    );
    FungibleAsset::from_key_value_words(key, value).expect("a fungible asset").to_bytes()
}

/// Encodes a fungible asset. What was written can be read back.
pub(crate) fn fungible_asset_to_bytes(asset: Asset) -> (r: Vec<u8>)
    requires
        is_fungible_asset(asset),
    ensures
        r@ == asset_bytes(asset),
        fungible_asset_of_bytes(r@) == Some(asset),
{
    proof {
        lemma_asset_round_trip(asset, Seq::empty());
        assert(asset_bytes(asset) + Seq::empty() =~= asset_bytes(asset));
    }
    encode_fungible_asset(asset)
}

/// Decodes a fungible asset by `FungibleAsset::read_from_bytes`, which reads it from the front of the
/// bytes, and fails where `Asset::read_from_bytes` fails or the faucet is not a fungible one.
#[verifier::external_body]
fn decode_fungible_asset(bytes: &Vec<u8>) -> (r: Option<Asset>)
    ensures
        r == fungible_asset_of_bytes(bytes@),
{
    let asset = FungibleAsset::read_from_bytes(bytes).ok()?;
    let [key, value] = [asset.to_key_word(), asset.to_value_word()].map(
        |word|
            {
                let [a, b, c, d] = word.into_elements().map(|e| e.as_canonical_u64());
                Word(a, b, c, d)
            },
    );
    Some(Asset { key, value })
}

/// Decodes a fungible asset.
pub(crate) fn fungible_asset_from_bytes(bytes: &Vec<u8>) -> (r: Option<Asset>)
    ensures
        r == fungible_asset_of_bytes(bytes@),
        r matches Some(asset) ==> is_fungible_asset(asset),
{
    proof {
        lemma_asset_of_bytes(bytes@);
    }
    decode_fungible_asset(bytes)
}

/// A fungible asset is read from the bytes that are written for it, and only fungible assets are read.
pub proof fn lemma_fungible_assets(bytes: Seq<u8>)
    ensures
        fungible_asset_of_bytes(bytes) matches Some(asset) ==> is_fungible_faucet(
            faucet_of_key(asset.key),
        ) && asset_of_bytes(bytes) == Some(asset),
        asset_of_bytes(bytes) matches Some(asset) ==> (is_fungible_faucet(faucet_of_key(asset.key))
            ==> fungible_asset_of_bytes(bytes) == Some(asset)),
{
}

} // verus!
