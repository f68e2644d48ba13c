//! Account requests: which parts of an account's state a response holds, and how the storage maps
//! of a response are kept within a payload budget.

use prost::encoding::{encoded_len_varint, key_len};
use vstd::prelude::*;
use vstd::utf8::encode_utf8;

use crate::account_id::AccountId;
use crate::word::Word;

verus! {

// DOMAIN TYPES
// ================================================================================================

/// Whether a storage slot holds a single value or a map.
#[derive(Clone, Copy, Debug, PartialEq, Eq, Structural)]
pub enum StorageSlotType {
    ValueSlot,
    MapSlot,
}

/// A storage slot without the entries of its map: the value of a value slot, or the root of a map
/// slot.
#[derive(Clone, Debug, PartialEq, Eq)]
pub struct StorageSlotHeader {
    pub name: String,
    pub slot_type: StorageSlotType,
    pub value: Word,
}

/// What a slot header holds.
pub struct SlotHeaderView {
    pub name: Seq<char>,
    pub slot_type: StorageSlotType,
    pub value: Word,
}

impl View for StorageSlotHeader {
    type V = SlotHeaderView;

    open spec fn view(&self) -> SlotHeaderView {
        SlotHeaderView { name: self.name@, slot_type: self.slot_type, value: self.value }
    }
}

/// The headers of an account's storage slots, in storage order.
#[derive(Clone, Debug, PartialEq, Eq)]
pub struct AccountStorageHeader {
    pub slots: Vec<StorageSlotHeader>,
}

impl View for AccountStorageHeader {
    type V = Seq<SlotHeaderView>;

    open spec fn view(&self) -> Seq<SlotHeaderView> {
        self.slots@.map_values(|slot: StorageSlotHeader| slot@)
    }
}

/// The commitments that make up an account's state.
#[derive(Clone, Copy, Debug, PartialEq, Eq, Structural)]
pub struct AccountHeader {
    pub id: AccountId,
    pub nonce: u64,
    pub vault_root: Word,
    pub storage_commitment: Word,
    pub code_commitment: Word,
}

/// Which entries of a storage map are requested.
#[derive(Clone, Debug, PartialEq, Eq)]
pub enum SlotData {
    /// All entries.
    All,
    /// The entries of the given keys, with proofs.
    MapKeys(Vec<Word>),
}

/// A request for entries of one storage map.
#[derive(Clone, Debug, PartialEq, Eq)]
pub struct StorageMapRequest {
    pub slot_name: String,
    pub slot_data: SlotData,
}

/// Which storage maps of an account are requested.
#[derive(Clone, Debug, PartialEq, Eq)]
pub enum AccountStorageRequest {
    /// No map.
    NoMaps,
    /// The given ones.
    Explicit(Vec<StorageMapRequest>),
    /// Every map of the account's storage.
    AllStorageMaps,
}

/// Entries of a storage map in a response.
#[derive(Clone, Debug, PartialEq, Eq)]
pub enum StorageMapEntries {
    /// The map holds more entries than a response may hold.
    LimitExceeded,
    /// All keys with their values.
    AllEntries(Vec<(Word, Word)>),
    /// Encoded proofs of the requested keys.
    EntriesWithProofs(Vec<Vec<u8>>),
}

/// The entries of one storage map in a response.
#[derive(Clone, Debug, PartialEq, Eq)]
pub struct AccountStorageMapDetails {
    pub slot_name: String,
    pub entries: StorageMapEntries,
}

impl AccountStorageMapDetails {
    /// Returns details that only say that the map is too large.
    pub fn limit_exceeded(slot_name: String) -> (r: Self)
        ensures
            r.slot_name == slot_name,
            r.entries is LimitExceeded,
    {
        AccountStorageMapDetails { slot_name, entries: StorageMapEntries::LimitExceeded }
    }
}

/// An asset as the pair of its vault key and its value. The value of a fungible asset holds the
/// amount in its first element.
#[derive(Clone, Copy, Debug, PartialEq, Eq, Structural)]
pub struct Asset {
    pub key: Word,
    pub value: Word,
}

/// The assets of an account in a response.
#[derive(Clone, Debug, PartialEq, Eq)]
pub enum AccountVaultDetails {
    /// The vault holds more assets than a response may hold.
    LimitExceeded,
    /// All assets.
    Assets(Vec<Asset>),
}

impl AccountVaultDetails {
    /// Returns details without assets.
    pub fn empty() -> (r: Self)
        ensures
            r is Assets,
            r->Assets_0@ =~= Seq::empty(),
    {
        AccountVaultDetails::Assets(Vec::new())
    }
}

/// The storage of an account in a response.
#[derive(Clone, Debug, PartialEq, Eq)]
pub struct AccountStorageDetails {
    pub header: AccountStorageHeader,
    pub map_details: Vec<AccountStorageMapDetails>,
}

/// The state of an account in a response.
#[derive(Clone, Debug, PartialEq, Eq)]
pub struct AccountDetails {
    pub account_header: AccountHeader,
    pub account_code: Option<Vec<u8>>,
    pub vault_details: AccountVaultDetails,
    pub storage_details: AccountStorageDetails,
}

/// Which parts of an account's state are requested.
///
/// Code and vault are requested by giving the commitment that the caller already has: they are
/// returned only if the commitment differs from the account's.
#[derive(Clone, Debug, PartialEq, Eq)]
pub struct AccountDetailRequest {
    pub code_commitment: Option<Word>,
    pub asset_vault_commitment: Option<Word>,
    pub storage_request: AccountStorageRequest,
}

/// What the account state forest knows of all entries of a storage map.
#[derive(Clone, Debug, PartialEq, Eq)]
pub enum AccountStorageMapResult {
    /// The forest holds no such map at the block.
    NotFound,
    /// The entries, or that there are too many.
    Details(AccountStorageMapDetails),
    /// The forest holds the map, but the cache lacks a raw key of it.
    CannotReconstructKeysFromCache,
}

// REQUEST EXPANSION
// ================================================================================================

/// The slots that hold maps, in storage order.
pub open spec fn map_slots(slots: Seq<StorageSlotHeader>) -> Seq<StorageSlotHeader> {
    slots.filter(|slot: StorageSlotHeader| slot.slot_type == StorageSlotType::MapSlot)
}

/// Whether `requests` asks for all entries of each of the `slots`, in order.
pub open spec fn requests_all_of(
    requests: Seq<StorageMapRequest>,
    slots: Seq<StorageSlotHeader>,
) -> bool {
    &&& requests.len() == slots.len()
    &&& forall|i: int|
        #![trigger requests[i]]
        0 <= i < requests.len() ==> {
            &&& requests[i].slot_name == slots[i].name
            &&& requests[i].slot_data is All
        }
}

/// Expands a storage request to the requests of single slots.
pub fn expand_account_storage_request(
    storage_request: AccountStorageRequest,
    storage_header: &AccountStorageHeader,
) -> (requests: Vec<StorageMapRequest>)
    ensures
        match storage_request {
            AccountStorageRequest::NoMaps => requests@ =~= Seq::empty(),
            AccountStorageRequest::Explicit(explicit) => requests@ == explicit@,
            AccountStorageRequest::AllStorageMaps => requests_all_of(
                requests@,
                map_slots(storage_header.slots@),
            ),
        },
{
    match storage_request {
        AccountStorageRequest::NoMaps => Vec::new(),
        AccountStorageRequest::Explicit(requests) => requests,
        AccountStorageRequest::AllStorageMaps => {
            let mut requests: Vec<StorageMapRequest> = Vec::new();
            let slots = &storage_header.slots;
            let mut i: usize = 0;
            while i < slots.len()
                invariant
                    i <= slots@.len(),
                    requests_all_of(requests@, map_slots(slots@.take(i as int))),
                decreases slots@.len() - i,
            {
                proof {
                    let upto = slots@.take(i + 1);
                    assert(upto.drop_last() =~= slots@.take(i as int));
                    assert(upto.last() == slots@[i as int]);
                    reveal(Seq::filter);
                }
                if slots[i].slot_type == StorageSlotType::MapSlot {
                    requests.push(
                        StorageMapRequest {
                            slot_name: slots[i].name.clone(),
                            slot_data: SlotData::All,
                        },
                    );
                }
                i = i + 1;
            }
            assert(slots@.take(i as int) =~= slots@);
            requests
        },
    }
}

// RESPONSE BUDGET
// ================================================================================================

/// The number of bytes that the field of a storage map takes at most when the map is only marked
/// as too large: a slot name of up to 255 bytes and a flag.
pub const STORAGE_MAP_LIMIT_EXCEEDED_FIELD_MAX_LEN: usize = 263;

/// The number of bytes that one entry of a storage map takes at most.
pub const STORAGE_MAP_ENTRY_MAX_LEN: usize = 78;

/// The largest number of bytes of a storage slot's name.
pub const MAX_SLOT_NAME_LEN: usize = 255;

/// The number of slots for which a response reserves room.
pub const MAX_STORAGE_SLOTS: usize = 256;

/// The room that a response keeps free besides the storage maps.
pub const RESPONSE_HEADROOM_BYTES: usize = 8192;

/// The number of bytes of `value` as a variable length integer: seven bits to the byte.
pub open spec fn varint_len(value: nat) -> nat
    decreases value,
{
    if value < 128 {
        1
    } else {
        1 + varint_len(value / 128)
    }
}

/// The number of bytes of a length-delimited field: key, length and payload.
pub open spec fn bytes_field_len(field_number: nat, len: nat) -> nat {
    varint_len(field_number * 8) + varint_len(len) + len
}

/// `prost::encoding::encoded_len_varint` returns the number of bytes of the value in LEB128 form,
/// which is between 1 and 10.
pub assume_specification[ encoded_len_varint ](value: u64) -> (r: usize)
    ensures
        r == varint_len(value as nat),
        1 <= r <= 10,
;

/// `prost::encoding::key_len` returns the number of bytes of the key of the field with the given
/// tag: the tag shifted by the three bits of the wire type, as a variable length integer.
pub assume_specification[ key_len ](tag: u32) -> (r: usize)
    requires
        tag < 0x2000_0000,
    ensures
        r == varint_len((tag * 8) as nat),
        1 <= r <= 5,
;

/// Returns the number of bytes of a length-delimited field.
pub fn protobuf_bytes_field_len(field_number: u32, len: usize) -> (r: usize)
    requires
        field_number < 0x2000_0000,
        len + 15 <= usize::MAX,
    ensures
        r == bytes_field_len(field_number as nat, len as nat),
        r == varint_len((field_number * 8) as nat) + varint_len(len as nat) + len,
        r <= len + 15,
{
    key_len(field_number) + encoded_len_varint(len as u64) + len
}

/// The number of bytes of a slot name.
pub open spec fn slot_name_len(name: Seq<char>) -> nat {
    encode_utf8(name).len()
}

/// Whether the details hold a valid slot name, and entries whose size fits the machine word.
pub open spec fn is_measurable(details: AccountStorageMapDetails) -> bool {
    &&& slot_name_len(details.slot_name@) <= MAX_SLOT_NAME_LEN
    &&& details.entries matches StorageMapEntries::AllEntries(entries) ==> entries@.len()
        * STORAGE_MAP_ENTRY_MAX_LEN + 1024 <= usize::MAX
}

/// An upper bound of the number of bytes that the field of a storage map takes in a response.
pub open spec fn details_len_estimate(details: AccountStorageMapDetails) -> nat {
    match details.entries {
        StorageMapEntries::LimitExceeded => STORAGE_MAP_LIMIT_EXCEEDED_FIELD_MAX_LEN as nat,
        StorageMapEntries::AllEntries(entries) => bytes_field_len(
            2,
            bytes_field_len(1, slot_name_len(details.slot_name@)) + bytes_field_len(
                3,
                entries@.len() * (STORAGE_MAP_ENTRY_MAX_LEN as nat),
            ),
        ),
        StorageMapEntries::EntriesWithProofs(_) => usize::MAX as nat,
    }
}

/// Returns an upper bound of the encoded size of a single storage map.
///
/// Entries with proofs never stand in a response whose size is limited this way: they count as too
/// large for any response.
pub fn estimate_storage_map_details_field_len(details: &AccountStorageMapDetails) -> (r: usize)
    requires
        is_measurable(*details),
    ensures
        r == details_len_estimate(*details),
{
    match &details.entries {
        StorageMapEntries::LimitExceeded => STORAGE_MAP_LIMIT_EXCEEDED_FIELD_MAX_LEN,
        StorageMapEntries::AllEntries(entries) => {
            let slot_name_len: usize = details.slot_name.as_str().len();
            let slot_name_field_len: usize = protobuf_bytes_field_len(1, slot_name_len);
            assert(entries@.len() * STORAGE_MAP_ENTRY_MAX_LEN + 1024 <= usize::MAX);
            let all_entries_payload_len: usize = entries.len() * STORAGE_MAP_ENTRY_MAX_LEN;
            let all_entries_field_len: usize = protobuf_bytes_field_len(3, all_entries_payload_len);
            let details_len: usize = slot_name_field_len + all_entries_field_len;
            protobuf_bytes_field_len(2, details_len)
        },
        StorageMapEntries::EntriesWithProofs(_) => usize::MAX,
    }
}

/// What the details cost beyond the room that is reserved for each map anyway.
pub open spec fn extra_cost(details: AccountStorageMapDetails) -> nat {
    let estimate = details_len_estimate(details);
    if estimate >= STORAGE_MAP_LIMIT_EXCEEDED_FIELD_MAX_LEN {
        (estimate - STORAGE_MAP_LIMIT_EXCEEDED_FIELD_MAX_LEN) as nat
    } else {
        0
    }
}

/// The sizes of a response around its storage maps. The maps stand in the message of the storage
/// details, which stands in the message of the account details.
#[derive(Clone, Copy, Debug, PartialEq, Eq, Structural)]
pub struct ResponseFrame {
    /// The number of bytes outside of the account details, with the key of their field.
    pub outer_len: usize,
    /// The number of bytes of the account details outside of the storage details, with the key of
    /// their field.
    pub details_len: usize,
    /// The number of bytes of the storage details outside of the maps.
    pub storage_len: usize,
}

/// The number of bytes of a message of the given size with its length.
pub open spec fn delimited_len(len: nat) -> nat {
    varint_len(len) + len
}

/// The number of bytes of a response whose storage maps take `maps_len` bytes.
pub open spec fn response_len(frame: ResponseFrame, maps_len: nat) -> nat {
    frame.outer_len as nat + delimited_len(
        frame.details_len as nat + delimited_len(frame.storage_len as nat + maps_len),
    )
}

/// The number of bytes of the field of a map that is only marked as too large.
pub open spec fn marker_len(slot_name: String) -> nat {
    bytes_field_len(2, bytes_field_len(1, slot_name_len(slot_name@)) + 2)
}

/// The number of bytes of the fields of maps that are all marked as too large.
pub open spec fn markers_len(slot_names: Seq<String>) -> nat
    decreases slot_names.len(),
{
    if slot_names.len() == 0 {
        0
    } else {
        markers_len(slot_names.drop_last()) + marker_len(slot_names.last())
    }
}

/// What is left of a response's budget: the part of it that map contents may still cost beyond the
/// reserved room, and the number of bytes of all maps, where those that were not taken yet count as
/// marked.
pub struct Budget {
    pub extra: nat,
    pub maps_len: nat,
}

impl Budget {
    /// The budget before any map is taken.
    pub open spec fn start(
        frame: ResponseFrame,
        slot_names: Seq<String>,
        max_len: nat,
    ) -> Budget {
        let used = response_len(frame, 0) + slot_names.len() * (
        STORAGE_MAP_LIMIT_EXCEEDED_FIELD_MAX_LEN as nat);
        Budget {
            extra: if used <= max_len {
                (max_len - used) as nat
            } else {
                0
            },
            maps_len: markers_len(slot_names),
        }
    }

    /// The number of bytes of all maps if the contents of one are kept in place of its mark.
    pub open spec fn len_with(
        self,
        details: AccountStorageMapDetails,
        slot_name: String,
    ) -> int {
        self.maps_len - marker_len(slot_name) + details_len_estimate(details)
    }

    /// Whether the contents of a map are kept: what they cost beyond the reserved room is left of
    /// the budget, and the response with them fits.
    pub open spec fn keeps(
        self,
        details: AccountStorageMapDetails,
        slot_name: String,
        frame: ResponseFrame,
        max_len: nat,
    ) -> bool {
        &&& extra_cost(details) <= self.extra
        &&& response_len(frame, self.len_with(details, slot_name) as nat) <= max_len
    }

    /// The budget after `count` maps were taken in order.
    pub open spec fn after(
        details: Seq<AccountStorageMapDetails>,
        slot_names: Seq<String>,
        frame: ResponseFrame,
        max_len: nat,
        count: nat,
    ) -> Budget
        decreases count,
    {
        if count == 0 {
            Budget::start(frame, slot_names, max_len)
        } else {
            let before = Budget::after(details, slot_names, frame, max_len, (count - 1) as nat);
            let (map, slot_name) = (details[count - 1], slot_names[count - 1]);
            if before.keeps(map, slot_name, frame, max_len) {
                Budget {
                    extra: (before.extra - extra_cost(map)) as nat,
                    maps_len: before.len_with(map, slot_name) as nat,
                }
            } else {
                before
            }
        }
    }
}

/// Whether the details at position `i` are kept.
pub open spec fn is_kept(
    details: Seq<AccountStorageMapDetails>,
    slot_names: Seq<String>,
    frame: ResponseFrame,
    max_len: nat,
    i: int,
) -> bool {
    Budget::after(details, slot_names, frame, max_len, i as nat).keeps(
        details[i],
        slot_names[i],
        frame,
        max_len,
    )
}

/// Whether `accepted` holds, in order, the details that are kept within the payload limit, and a
/// mark with the slot name in place of the others.
pub open spec fn is_budgeted(
    accepted: Seq<AccountStorageMapDetails>,
    details: Seq<AccountStorageMapDetails>,
    slot_names: Seq<String>,
    frame: ResponseFrame,
    max_len: nat,
) -> bool {
    &&& accepted.len() == details.len()
    &&& forall|i: int|
        #![trigger accepted[i]]
        0 <= i < accepted.len() ==> if is_kept(details, slot_names, frame, max_len, i) {
            accepted[i] == details[i]
        } else {
            &&& accepted[i].slot_name == slot_names[i]
            &&& accepted[i].entries is LimitExceeded
        }
}

/// The number of bytes of the fields of storage maps.
pub open spec fn maps_field_len(details: Seq<AccountStorageMapDetails>) -> nat
    decreases details.len(),
{
    if details.len() == 0 {
        0
    } else {
        maps_field_len(details.drop_last()) + details_field_len(details.last())
    }
}

/// Whether slot names are not longer than they may be.
pub open spec fn are_slot_names(slot_names: Seq<String>) -> bool {
    forall|i: int|
        0 <= i < slot_names.len() ==> slot_name_len((#[trigger] slot_names[i])@)
            <= MAX_SLOT_NAME_LEN
}

/// Returns the number of bytes of a message of the given size with its length, or `None` if they
/// are too many.
fn delimited_size(len: usize) -> (r: Option<usize>)
    ensures
        match r {
            Some(size) => size == delimited_len(len as nat),
            None => delimited_len(len as nat) > usize::MAX,
        },
{
    len.checked_add(encoded_len_varint(len as u64))
}

/// Returns the number of bytes of a response whose storage maps take `maps_len` bytes, or `None` if
/// they are too many.
pub fn response_size(frame: ResponseFrame, maps_len: usize) -> (r: Option<usize>)
    ensures
        match r {
            Some(size) => size == response_len(frame, maps_len as nat),
            None => response_len(frame, maps_len as nat) > usize::MAX,
        },
{
    proof {
        lemma_varint_len_monotone(0, frame.storage_len as nat + maps_len as nat);
        lemma_varint_len_monotone(
            0,
            frame.details_len as nat + delimited_len(frame.storage_len as nat + maps_len as nat),
        );
    }
    let storage_len: usize = match frame.storage_len.checked_add(maps_len) {
        Some(len) => len,
        None => return None,
    };
    let storage_size: usize = match delimited_size(storage_len) {
        Some(size) => size,
        None => return None,
    };
    let details_len: usize = match frame.details_len.checked_add(storage_size) {
        Some(len) => len,
        None => return None,
    };
    match delimited_size(details_len) {
        Some(details_size) => frame.outer_len.checked_add(details_size),
        None => None,
    }
}

/// Returns the number of bytes of the field of a map that is only marked as too large.
fn marker_size(slot_name: &String) -> (r: usize)
    requires
        slot_name_len(slot_name@) <= MAX_SLOT_NAME_LEN,
    ensures
        r == marker_len(*slot_name),
        r <= STORAGE_MAP_LIMIT_EXCEEDED_FIELD_MAX_LEN,
{
    let name_field_len: usize = protobuf_bytes_field_len(1, slot_name.as_str().len());
    proof {
        lemma_marker_len(*slot_name);
    }
    protobuf_bytes_field_len(2, name_field_len + 2)
}

/// Returns the number of bytes of the fields of maps that are all marked as too large.
fn markers_size(slot_names: &Vec<String>) -> (r: usize)
    requires
        are_slot_names(slot_names@),
        slot_names@.len() * STORAGE_MAP_LIMIT_EXCEEDED_FIELD_MAX_LEN <= usize::MAX,
    ensures
        r == markers_len(slot_names@),
{
    let mut len: usize = 0;
    let mut i: usize = 0;
    while i < slot_names.len()
        invariant
            i <= slot_names@.len(),
            are_slot_names(slot_names@),
            slot_names@.len() * STORAGE_MAP_LIMIT_EXCEEDED_FIELD_MAX_LEN <= usize::MAX,
            len == markers_len(slot_names@.take(i as int)),
            len <= i * STORAGE_MAP_LIMIT_EXCEEDED_FIELD_MAX_LEN,
        decreases slot_names@.len() - i,
    {
        proof {
            let next = slot_names@.take(i + 1);
            assert(next.drop_last() =~= slot_names@.take(i as int));
            assert(next.last() == slot_names@[i as int]);
        }
        len = len + marker_size(&slot_names[i]);
        i = i + 1;
    }
    assert(slot_names@.take(i as int) =~= slot_names@);
    len
}

/// Returns the number of bytes of all maps if contents of up to `estimate` bytes are kept in place of
/// the mark with the slot name, or `None` if the response does not fit then.
fn try_keep(
    maps_len: usize,
    estimate: usize,
    slot_name: &String,
    frame: ResponseFrame,
    max_len: usize,
) -> (r: Option<usize>)
    requires
        slot_name_len(slot_name@) <= MAX_SLOT_NAME_LEN,
        marker_len(*slot_name) <= maps_len,
    ensures
        ({
            let len = maps_len - marker_len(*slot_name) + estimate;
            if response_len(frame, len as nat) <= max_len {
                r matches Some(found) && found == len
            } else {
                r is None
            }
        }),
{
    let ghost len = maps_len - marker_len(*slot_name) + estimate;
    proof {
        lemma_response_len_covers_maps(frame, len as nat);
    }
    let kept_len: usize = match (maps_len - marker_size(slot_name)).checked_add(estimate) {
        Some(len) => len,
        None => return None,
    };
    match response_size(frame, kept_len) {
        Some(size) => if size <= max_len {
            Some(kept_len)
        } else {
            None
        },
        None => None,
    }
}

/// Keeps the storage maps of a response within a payload budget: if the response fits into
/// `max_response_payload_bytes` with all maps marked as too large, it fits with what is returned.
///
/// The maps are taken in order. The contents of a map are kept as long as they fit, and are
/// replaced by a mark that the map is too large otherwise. Room for such a mark is reserved for
/// each map in advance.
///
/// `frame` holds the sizes of the response around the storage maps.
pub fn apply_all_storage_maps_response_budget(
    account_header: AccountHeader,
    account_code: Option<Vec<u8>>,
    vault_details: AccountVaultDetails,
    storage_header: AccountStorageHeader,
    ordered_map_details: Vec<AccountStorageMapDetails>,
    ordered_map_slot_names: Vec<String>,
    frame: ResponseFrame,
    max_response_payload_bytes: usize,
) -> (r: AccountDetails)
    requires
        ordered_map_details@.len() == ordered_map_slot_names@.len(),
        ordered_map_slot_names@.len() * STORAGE_MAP_LIMIT_EXCEEDED_FIELD_MAX_LEN <= usize::MAX,
        are_slot_names(ordered_map_slot_names@),
        forall|i: int|
            0 <= i < ordered_map_details@.len() ==> is_measurable(
                #[trigger] ordered_map_details@[i],
            ),
    ensures
        r.account_header == account_header,
        r.account_code == account_code,
        r.vault_details == vault_details,
        r.storage_details.header == storage_header,
        is_budgeted(
            r.storage_details.map_details@,
            ordered_map_details@,
            ordered_map_slot_names@,
            frame,
            max_response_payload_bytes as nat,
        ),
        response_len(frame, markers_len(ordered_map_slot_names@)) <= max_response_payload_bytes
            ==> response_len(frame, maps_field_len(r.storage_details.map_details@))
            <= max_response_payload_bytes,
{
    let ghost details = ordered_map_details@;
    let ghost names = ordered_map_slot_names@;
    let ghost max = max_response_payload_bytes as nat;
    let available: usize = match response_size(frame, 0) {
        Some(base_len) => max_response_payload_bytes.saturating_sub(base_len),
        None => 0,
    };
    let reserved: usize = ordered_map_slot_names.len() * STORAGE_MAP_LIMIT_EXCEEDED_FIELD_MAX_LEN;
    let mut extra_budget: usize = available.saturating_sub(reserved);
    let mut maps_len: usize = markers_size(&ordered_map_slot_names);
    let mut accepted_map_details: Vec<AccountStorageMapDetails> = Vec::new();
    let ghost start = Budget::after(details, names, frame, max, 0);
    assert(extra_budget == start.extra && maps_len == start.maps_len);

    let map_count: usize = ordered_map_slot_names.len();
    let mut i: usize = 0;
    for map_details in details_iter: ordered_map_details
        invariant
            map_count == names.len(),
            details_iter.seq() == details,
            names.len() == details.len(),
            ordered_map_slot_names@ == names,
            are_slot_names(names),
            max == max_response_payload_bytes,
            i == details_iter.index(),
            ({
                let budget = Budget::after(details, names, frame, max, i as nat);
                extra_budget == budget.extra && maps_len == budget.maps_len
            }),
            forall|j: int| 0 <= j < details.len() ==> is_measurable(#[trigger] details[j]),
            accepted_map_details@.len() == i,
            forall|j: int|
                #![trigger accepted_map_details@[j]]
                0 <= j < i ==> if is_kept(details, names, frame, max, j) {
                    accepted_map_details@[j] == details[j]
                } else {
                    &&& accepted_map_details@[j].slot_name == names[j]
                    &&& accepted_map_details@[j].entries is LimitExceeded
                },
    {
        proof {
            assert(map_details == details[i as int]);
            lemma_budget_has_marks(details, names, frame, max, i as nat);
            assert(marker_len(names[i as int]) + markers_len(names.skip(i + 1)) == markers_len(
                names.skip(i as int),
            )) by {
                lemma_first_marker(names.skip(i as int));
                assert(names.skip(i as int).skip(1) =~= names.skip(i + 1));
            }
        }
        let estimate: usize = estimate_storage_map_details_field_len(&map_details);
        let cost: usize = estimate.saturating_sub(STORAGE_MAP_LIMIT_EXCEEDED_FIELD_MAX_LEN);
        let kept_len: Option<usize> = try_keep(
            maps_len,
            estimate,
            &ordered_map_slot_names[i],
            frame,
            max_response_payload_bytes,
        );
        let ghost kept = is_kept(details, names, frame, max, i as int);
        match kept_len {
            Some(len) if cost <= extra_budget => {
                assert(kept);
                extra_budget = extra_budget - cost;
                maps_len = len;
                accepted_map_details.push(map_details);
            },
            _ => {
                assert(!kept);
                accepted_map_details.push(
                    AccountStorageMapDetails::limit_exceeded(ordered_map_slot_names[i].clone()),
                );
            },
        }
        i = i + 1;
    }
    proof {
        lemma_budgeted_response_fits(accepted_map_details@, details, names, frame, max);
    }
    AccountDetails {
        account_header,
        account_code,
        vault_details,
        storage_details: AccountStorageDetails {
            header: storage_header,
            map_details: accepted_map_details,
        },
    }
}

proof fn lemma_marker_len(slot_name: String)
    requires
        slot_name_len(slot_name@) <= MAX_SLOT_NAME_LEN,
    ensures
        marker_len(slot_name) <= STORAGE_MAP_LIMIT_EXCEEDED_FIELD_MAX_LEN,
{
    let name_len = slot_name_len(slot_name@);
    assert(varint_len(8) == 1 && varint_len(16) == 1);
    lemma_varint_len_monotone(name_len, 255);
    assert(varint_len(255) == 2) by {
        assert(varint_len(1) == 1);
    }
    assert(bytes_field_len(1, name_len) <= 258);
    lemma_bytes_field_len_monotone(2, bytes_field_len(1, name_len) + 2, 260);
    assert(varint_len(260) == 2) by {
        assert(varint_len(2) == 1);
    }
}

proof fn lemma_response_len_covers_maps(frame: ResponseFrame, maps_len: nat)
    ensures
        maps_len < response_len(frame, maps_len),
{
    lemma_varint_len_monotone(0, frame.storage_len as nat + maps_len);
    lemma_varint_len_monotone(
        0,
        frame.details_len as nat + delimited_len(frame.storage_len as nat + maps_len),
    );
}

proof fn lemma_response_len_monotone(frame: ResponseFrame, a: nat, b: nat)
    requires
        a <= b,
    ensures
        response_len(frame, a) <= response_len(frame, b),
{
    lemma_varint_len_monotone(frame.storage_len as nat + a, frame.storage_len as nat + b);
    lemma_varint_len_monotone(
        frame.details_len as nat + delimited_len(frame.storage_len as nat + a),
        frame.details_len as nat + delimited_len(frame.storage_len as nat + b),
    );
}

proof fn lemma_first_marker(slot_names: Seq<String>)
    requires
        slot_names.len() > 0,
    ensures
        markers_len(slot_names) == marker_len(slot_names[0]) + markers_len(slot_names.skip(1)),
    decreases slot_names.len(),
{
    let rest = slot_names.skip(1);
    if slot_names.len() == 1 {
        assert(slot_names.drop_last() =~= Seq::empty());
        assert(rest =~= Seq::empty());
    } else {
        let before = slot_names.drop_last();
        lemma_first_marker(before);
        assert(rest.drop_last() =~= before.skip(1));
        assert(rest.last() == slot_names.last());
    }
}

/// The marks of the maps that were not taken yet are part of what the maps take.
proof fn lemma_budget_has_marks(
    details: Seq<AccountStorageMapDetails>,
    slot_names: Seq<String>,
    frame: ResponseFrame,
    max_len: nat,
    count: nat,
)
    requires
        details.len() == slot_names.len(),
        count <= details.len(),
    ensures
        markers_len(slot_names.skip(count as int)) <= Budget::after(
            details,
            slot_names,
            frame,
            max_len,
            count,
        ).maps_len,
    decreases count,
{
    if count == 0 {
        assert(slot_names.skip(0) =~= slot_names);
    } else {
        let last = (count - 1) as int;
        lemma_budget_has_marks(details, slot_names, frame, max_len, last as nat);
        lemma_first_marker(slot_names.skip(last));
        assert(slot_names.skip(last).skip(1) =~= slot_names.skip(count as int));
    }
}

/// If the response fits with all maps marked as too large, it fits with the maps that are kept
/// within the budget. If it does not, it takes no more than with all maps marked.
pub proof fn lemma_budgeted_response_fits(
    accepted: Seq<AccountStorageMapDetails>,
    details: Seq<AccountStorageMapDetails>,
    slot_names: Seq<String>,
    frame: ResponseFrame,
    max_len: nat,
)
    requires
        is_budgeted(accepted, details, slot_names, frame, max_len),
        details.len() == slot_names.len(),
        forall|i: int| 0 <= i < details.len() ==> is_measurable(#[trigger] details[i]),
        max_len <= usize::MAX,
    ensures
        response_len(frame, markers_len(slot_names)) <= max_len ==> response_len(
            frame,
            maps_field_len(accepted),
        ) <= max_len,
        response_len(frame, markers_len(slot_names)) > max_len ==> response_len(
            frame,
            maps_field_len(accepted),
        ) <= response_len(frame, markers_len(slot_names)),
{
    let count = details.len();
    lemma_budget_prefix(accepted, details, slot_names, frame, max_len, count);
    assert(accepted.take(count as int) =~= accepted);
    let budget = Budget::after(details, slot_names, frame, max_len, count);
    lemma_response_len_monotone(frame, maps_field_len(accepted), budget.maps_len);
}

#[verifier::spinoff_prover]
proof fn lemma_budget_prefix(
    accepted: Seq<AccountStorageMapDetails>,
    details: Seq<AccountStorageMapDetails>,
    slot_names: Seq<String>,
    frame: ResponseFrame,
    max_len: nat,
    count: nat,
)
    requires
        is_budgeted(accepted, details, slot_names, frame, max_len),
        details.len() == slot_names.len(),
        forall|i: int| 0 <= i < details.len() ==> is_measurable(#[trigger] details[i]),
        max_len <= usize::MAX,
        count <= details.len(),
    ensures
        ({
            let budget = Budget::after(details, slot_names, frame, max_len, count);
            &&& maps_field_len(accepted.take(count as int)) + markers_len(
                slot_names.skip(count as int),
            ) <= budget.maps_len
            &&& budget.maps_len == markers_len(slot_names) || response_len(frame, budget.maps_len)
                <= max_len
        }),
    decreases count,
{
    if count == 0 {
        assert(slot_names.skip(0) =~= slot_names);
    } else {
        let last = (count - 1) as int;
        lemma_budget_prefix(accepted, details, slot_names, frame, max_len, last as nat);
        let before = Budget::after(details, slot_names, frame, max_len, last as nat);
        let taken = accepted.take(count as int);
        assert(taken.drop_last() =~= accepted.take(last));
        assert(taken.last() == accepted[last]);
        lemma_first_marker(slot_names.skip(last));
        assert(slot_names.skip(last).skip(1) =~= slot_names.skip(count as int));
        if is_kept(details, slot_names, frame, max_len, last) {
            lemma_kept_map_len(before, details[last], slot_names[last], frame, max_len);
        } else {
            lemma_mark_len(accepted[last], slot_names[last]);
        }
    }
}

/// A map whose contents are kept takes no more bytes than were estimated for it.
proof fn lemma_kept_map_len(
    budget: Budget,
    map: AccountStorageMapDetails,
    slot_name: String,
    frame: ResponseFrame,
    max_len: nat,
)
    requires
        budget.keeps(map, slot_name, frame, max_len),
        marker_len(slot_name) <= budget.maps_len,
        is_measurable(map),
        max_len <= usize::MAX,
    ensures
        details_field_len(map) <= details_len_estimate(map),
{
    if map.entries is EntriesWithProofs {
        lemma_response_len_covers_maps(frame, budget.len_with(map, slot_name) as nat);
    } else {
        lemma_estimate_covers_encoded_size(map);
    }
}

proof fn lemma_mark_len(map: AccountStorageMapDetails, slot_name: String)
    requires
        map.slot_name == slot_name,
        map.entries is LimitExceeded,
    ensures
        details_field_len(map) == marker_len(slot_name),
{
}

/// The room that a response reserves for storage maps and beyond is enough: if the response without
/// maps fits into the payload limit less that room, the response with the maps that are kept fits
/// into the payload limit.
pub proof fn lemma_reserved_room_is_enough(
    accepted: Seq<AccountStorageMapDetails>,
    details: Seq<AccountStorageMapDetails>,
    slot_names: Seq<String>,
    frame: ResponseFrame,
    max_payload: nat,
)
    requires
        MAX_STORAGE_SLOTS * STORAGE_MAP_LIMIT_EXCEEDED_FIELD_MAX_LEN + RESPONSE_HEADROOM_BYTES
            <= max_payload <= usize::MAX,
        ({
            let limit = max_payload - MAX_STORAGE_SLOTS * STORAGE_MAP_LIMIT_EXCEEDED_FIELD_MAX_LEN
                - RESPONSE_HEADROOM_BYTES;
            &&& is_budgeted(accepted, details, slot_names, frame, limit as nat)
            &&& response_len(frame, 0) <= limit
        }),
        details.len() == slot_names.len() <= MAX_STORAGE_SLOTS,
        are_slot_names(slot_names),
        forall|i: int| 0 <= i < details.len() ==> is_measurable(#[trigger] details[i]),
    ensures
        response_len(frame, maps_field_len(accepted)) <= max_payload,
{
    let limit = (max_payload - MAX_STORAGE_SLOTS * STORAGE_MAP_LIMIT_EXCEEDED_FIELD_MAX_LEN
        - RESPONSE_HEADROOM_BYTES) as nat;
    lemma_budgeted_response_fits(accepted, details, slot_names, frame, limit);
    lemma_markers_len(slot_names);
    let markers = markers_len(slot_names);
    assert(markers <= MAX_STORAGE_SLOTS * STORAGE_MAP_LIMIT_EXCEEDED_FIELD_MAX_LEN) by (
    nonlinear_arith)
        requires
            markers <= slot_names.len() * (STORAGE_MAP_LIMIT_EXCEEDED_FIELD_MAX_LEN as nat),
            slot_names.len() <= MAX_STORAGE_SLOTS,
    ;
    let storage = frame.storage_len as nat;
    lemma_varint_len_bound(storage + markers);
    lemma_varint_len_monotone(0, storage);
    let before = frame.details_len as nat + delimited_len(storage);
    let after = frame.details_len as nat + delimited_len(storage + markers);
    lemma_varint_len_monotone(0, before);
    lemma_varint_len_bound(after);
}

proof fn lemma_markers_len(slot_names: Seq<String>)
    requires
        are_slot_names(slot_names),
    ensures
        markers_len(slot_names) <= slot_names.len() * (
        STORAGE_MAP_LIMIT_EXCEEDED_FIELD_MAX_LEN as nat),
    decreases slot_names.len(),
{
    if slot_names.len() > 0 {
        let before = slot_names.drop_last();
        assert forall|i: int| 0 <= i < before.len() implies slot_name_len((#[trigger] before[i])@)
            <= MAX_SLOT_NAME_LEN by {
            assert(before[i] == slot_names[i]);
        }
        lemma_markers_len(before);
        assert(slot_name_len(slot_names[slot_names.len() - 1]@) <= MAX_SLOT_NAME_LEN);
        lemma_marker_len(slot_names.last());
    }
}

/// Numbers of up to 70 bits take at most ten bytes.
proof fn lemma_varint_len_bound(value: nat)
    requires
        value < 0x40_0000_0000_0000_0000,
    ensures
        1 <= varint_len(value) <= 10,
{
    reveal_with_fuel(varint_len, 11);
}

// ENCODED SIZE
// ================================================================================================

/// The number of bytes of an integer field of fixed width, which is left out if it is zero.
pub open spec fn fixed64_field_len(value: u64) -> nat {
    if value == 0 {
        0
    } else {
        9
    }
}

/// The number of bytes of a word as a message of four integer fields.
pub open spec fn word_message_len(word: Word) -> nat {
    fixed64_field_len(word.0) + fixed64_field_len(word.1) + fixed64_field_len(word.2)
        + fixed64_field_len(word.3)
}

/// The number of bytes of the field of a map entry.
pub open spec fn entry_field_len(entry: (Word, Word)) -> nat {
    bytes_field_len(
        1,
        bytes_field_len(1, word_message_len(entry.0)) + bytes_field_len(
            2,
            word_message_len(entry.1),
        ),
    )
}

/// The number of bytes of the fields of map entries.
pub open spec fn entries_len(entries: Seq<(Word, Word)>) -> nat
    decreases entries.len(),
{
    if entries.len() == 0 {
        0
    } else {
        entries_len(entries.drop_last()) + entry_field_len(entries.last())
    }
}

/// The number of bytes that the field of a storage map without proofs takes in a response.
pub open spec fn details_field_len(details: AccountStorageMapDetails) -> nat {
    let slot_name_field_len = bytes_field_len(1, slot_name_len(details.slot_name@));
    match details.entries {
        StorageMapEntries::AllEntries(entries) => bytes_field_len(
            2,
            slot_name_field_len + bytes_field_len(3, entries_len(entries@)),
        ),
        _ => bytes_field_len(2, slot_name_field_len + 2),
    }
}

proof fn lemma_varint_len_monotone(a: nat, b: nat)
    requires
        a <= b,
    ensures
        1 <= varint_len(a) <= varint_len(b),
    decreases b,
{
    if b >= 128 {
        if a >= 128 {
            lemma_varint_len_monotone(a / 128, b / 128);
        } else {
            lemma_varint_len_monotone(0, b / 128);
        }
    }
}

proof fn lemma_bytes_field_len_monotone(field_number: nat, a: nat, b: nat)
    requires
        a <= b,
    ensures
        bytes_field_len(field_number, a) <= bytes_field_len(field_number, b),
{
    lemma_varint_len_monotone(a, b);
}

proof fn lemma_entry_field_len(entry: (Word, Word))
    ensures
        entry_field_len(entry) <= STORAGE_MAP_ENTRY_MAX_LEN,
{
    assert(varint_len(8) == 1 && varint_len(16) == 1);
    assert(word_message_len(entry.0) <= 36 && word_message_len(entry.1) <= 36);
}

proof fn lemma_entries_len(entries: Seq<(Word, Word)>)
    ensures
        entries_len(entries) <= entries.len() * (STORAGE_MAP_ENTRY_MAX_LEN as nat),
    decreases entries.len(),
{
    if entries.len() > 0 {
        lemma_entries_len(entries.drop_last());
        lemma_entry_field_len(entries.last());
    }
}

/// The size estimate of a storage map without proofs is an upper bound of its encoded size.
pub proof fn lemma_estimate_covers_encoded_size(details: AccountStorageMapDetails)
    requires
        is_measurable(details),
        !(details.entries is EntriesWithProofs),
    ensures
        details_field_len(details) <= details_len_estimate(details),
{
    let name_len = slot_name_len(details.slot_name@);
    match details.entries {
        StorageMapEntries::AllEntries(entries) => {
            let payload = entries@.len() * (STORAGE_MAP_ENTRY_MAX_LEN as nat);
            lemma_entries_len(entries@);
            lemma_bytes_field_len_monotone(3, entries_len(entries@), payload);
            lemma_bytes_field_len_monotone(
                2,
                bytes_field_len(1, name_len) + bytes_field_len(3, entries_len(entries@)),
                bytes_field_len(1, name_len) + bytes_field_len(3, payload),
            );
        },
        _ => {
            lemma_marker_len(details.slot_name);
        },
    }
}

fn word_message_size(word: &Word) -> (r: usize)
    ensures
        r == word_message_len(*word),
        r <= 36,
{
    let mut len: usize = 0;
    if word.0 != 0 {
        len = len + 9;
    }
    if word.1 != 0 {
        len = len + 9;
    }
    if word.2 != 0 {
        len = len + 9;
    }
    if word.3 != 0 {
        len = len + 9;
    }
    len
}

/// Returns the number of bytes that the field of a storage map without proofs takes in a response.
pub fn storage_map_details_field_len(details: &AccountStorageMapDetails) -> (r: usize)
    requires
        is_measurable(*details),
    ensures
        r == details_field_len(*details),
{
    let slot_name_len: usize = details.slot_name.as_str().len();
    let slot_name_field_len: usize = protobuf_bytes_field_len(1, slot_name_len);
    match &details.entries {
        StorageMapEntries::AllEntries(entries) => {
            let mut payload_len: usize = 0;
            let mut i: usize = 0;
            while i < entries.len()
                invariant
                    i <= entries@.len(),
                    entries@.len() * STORAGE_MAP_ENTRY_MAX_LEN + 1024 <= usize::MAX,
                    payload_len == entries_len(entries@.take(i as int)),
                    payload_len <= i * STORAGE_MAP_ENTRY_MAX_LEN,
                decreases entries@.len() - i,
            {
                proof {
                    assert(entries@.take(i + 1).drop_last() =~= entries@.take(i as int));
                    assert(entries@.take(i + 1).last() == entries@[i as int]);
                    lemma_entry_field_len(entries@[i as int]);
                }
                let key_field_len: usize = protobuf_bytes_field_len(
                    1,
                    word_message_size(&entries[i].0),
                );
                let value_field_len: usize = protobuf_bytes_field_len(
                    2,
                    word_message_size(&entries[i].1),
                );
                payload_len = payload_len + protobuf_bytes_field_len(
                    1,
                    key_field_len + value_field_len,
                );
                i = i + 1;
            }
            assert(entries@.take(i as int) =~= entries@);
            let entries_field_len: usize = protobuf_bytes_field_len(3, payload_len);
            protobuf_bytes_field_len(2, slot_name_field_len + entries_field_len)
        },
        _ => protobuf_bytes_field_len(2, slot_name_field_len + 2),
    }
}

// LAWS
// ================================================================================================

/// A request for all storage maps asks for all entries of every slot that holds a map, and of no other.
pub proof fn lemma_all_maps_are_requested(
    requests: Seq<StorageMapRequest>,
    slots: Seq<StorageSlotHeader>,
)
    requires
        requests_all_of(requests, map_slots(slots)),
    ensures
        forall|i: int|
            0 <= i < slots.len() && (#[trigger] slots[i]).slot_type == StorageSlotType::MapSlot
                ==> exists|k: int|
                0 <= k < requests.len() && (#[trigger] requests[k]).slot_name == slots[i].name
                    && requests[k].slot_data is All,
        forall|k: int|
            0 <= k < requests.len() ==> (#[trigger] requests[k]).slot_data is All && exists|i: int|
                0 <= i < slots.len() && (#[trigger] slots[i]).slot_type == StorageSlotType::MapSlot
                    && slots[i].name == requests[k].slot_name,
        requests.len() <= slots.len(),
{
    let is_map = |slot: StorageSlotHeader| slot.slot_type == StorageSlotType::MapSlot;
    let maps = map_slots(slots);
    assert(maps == slots.filter(is_map));
    slots.lemma_filter_len(is_map);
    assert forall|i: int|
        0 <= i < slots.len() && (
        #[trigger] slots[i]).slot_type == StorageSlotType::MapSlot implies exists|k: int|
        0 <= k < requests.len() && (#[trigger] requests[k]).slot_name == slots[i].name
            && requests[k].slot_data is All by {
        slots.lemma_filter_contains(is_map, i);
        let k = choose|k: int| 0 <= k < maps.len() && maps[k] == slots[i];
        assert(requests[k].slot_name == slots[i].name);
    }
    assert forall|k: int| 0 <= k < requests.len() implies (#[trigger] requests[k]).slot_data is All
        && exists|i: int|
        0 <= i < slots.len() && (#[trigger] slots[i]).slot_type == StorageSlotType::MapSlot
            && slots[i].name == requests[k].slot_name by {
        slots.lemma_filter_pred(is_map, k);
        assert(maps.contains(maps[k]));
        slots.lemma_filter_contains_rev(is_map, maps[k]);
        let i = choose|i: int| 0 <= i < slots.len() && slots[i] == maps[k];
        assert(slots[i].name == requests[k].slot_name);
    }
}

/// How large storage maps are taken to be: a map that is only marked takes 263 bytes, an entry takes 78
/// bytes, and proofs do not fit into any response.
pub proof fn lemma_estimates_of_maps(details: AccountStorageMapDetails)
    ensures
        details.entries is LimitExceeded ==> details_len_estimate(details) == 263,
        details.entries is EntriesWithProofs ==> details_len_estimate(details) == usize::MAX,
        details.entries matches StorageMapEntries::AllEntries(entries) ==> {
            let name_len = encode_utf8(details.slot_name@).len();
            let name = varint_len(8) + varint_len(name_len) + name_len;
            let content = varint_len(24) + varint_len((78 * entries@.len()) as nat) + 78
                * entries@.len();
            details_len_estimate(details) == varint_len(16) + varint_len((name + content) as nat)
                + name + content
        },
{
}

/// The sizes in a response add up: it holds what is around the account details, and the account details
/// hold what is around the storage details, both behind their lengths.
pub proof fn lemma_sizes_of_responses(frame: ResponseFrame, maps_len: nat)
    ensures
        ({
            let storage = frame.storage_len + maps_len;
            let details = frame.details_len + varint_len(storage as nat) + storage;
            response_len(frame, maps_len) == frame.outer_len + varint_len(details as nat) + details
        }),
{
}

/// If a response has room for all storage maps, all of them are returned: each map takes up to `bound`
/// bytes, and so many bytes for each are left in the response.
pub proof fn lemma_maps_that_fit_are_kept(
    accepted: Seq<AccountStorageMapDetails>,
    details: Seq<AccountStorageMapDetails>,
    slot_names: Seq<String>,
    frame: ResponseFrame,
    max_len: nat,
    bound: nat,
)
    requires
        is_budgeted(accepted, details, slot_names, frame, max_len),
        details.len() == slot_names.len(),
        are_slot_names(slot_names),
        bound >= 263,
        forall|i: int|
            0 <= i < details.len() ==> details_len_estimate(#[trigger] details[i]) <= bound,
        response_len(frame, 0) + details.len() * bound <= max_len,
        response_len(frame, details.len() * bound) <= max_len,
    ensures
        accepted == details,
{
    assert forall|i: int| 0 <= i < details.len() implies accepted[i] == details[i] by {
        lemma_budget_with_room(details, slot_names, frame, max_len, bound, i as nat);
        lemma_map_with_room(details, slot_names, frame, max_len, bound, i as nat);
    }
    assert(accepted =~= details);
}

#[verifier::spinoff_prover]
proof fn lemma_budget_with_room(
    details: Seq<AccountStorageMapDetails>,
    slot_names: Seq<String>,
    frame: ResponseFrame,
    max_len: nat,
    bound: nat,
    count: nat,
)
    requires
        details.len() == slot_names.len(),
        are_slot_names(slot_names),
        bound >= 263,
        forall|i: int|
            0 <= i < details.len() ==> details_len_estimate(#[trigger] details[i]) <= bound,
        response_len(frame, 0) + details.len() * bound <= max_len,
        response_len(frame, details.len() * bound) <= max_len,
        count <= details.len(),
    ensures
        ({
            let budget = Budget::after(details, slot_names, frame, max_len, count);
            &&& budget.extra >= (details.len() - count) * (bound - 263)
            &&& budget.maps_len <= markers_len(slot_names.skip(count as int)) + count * bound
        }),
    decreases count,
{
    if count == 0 {
        assert(slot_names.skip(0) =~= slot_names);
        assert(0 * bound == 0);
        assert(details.len() * bound == details.len() * 263 + details.len() * (bound - 263))
            by (nonlinear_arith)
            requires
                bound >= 263,
        ;
        assert(details.len() * bound >= details.len() * 263) by (nonlinear_arith)
            requires
                bound >= 263,
        ;
    } else {
        let last = (count - 1) as nat;
        lemma_budget_with_room(details, slot_names, frame, max_len, bound, last);
        lemma_map_with_room(details, slot_names, frame, max_len, bound, last);
        lemma_first_marker(slot_names.skip(last as int));
        assert(slot_names.skip(last as int).skip(1) =~= slot_names.skip(count as int));
        let before = Budget::after(details, slot_names, frame, max_len, last);
        let budget = Budget::after(details, slot_names, frame, max_len, count);
        let (map, slot_name) = (details[last as int], slot_names[last as int]);
        assert(before.keeps(map, slot_name, frame, max_len));
        assert(extra_cost(map) <= bound - 263);
        assert(budget.extra == before.extra - extra_cost(map));
        lemma_budget_has_marks(details, slot_names, frame, max_len, last);
        assert(budget.maps_len == before.maps_len - marker_len(slot_name) + details_len_estimate(
            map,
        ));
        assert((details.len() - last) * (bound - 263) == (details.len() - count) * (bound - 263) + (
        bound - 263)) by (nonlinear_arith)
            requires
                last == count - 1,
        ;
        assert(last * bound + bound == count * bound) by (nonlinear_arith)
            requires
                last == count - 1,
        ;
    }
}

proof fn lemma_map_with_room(
    details: Seq<AccountStorageMapDetails>,
    slot_names: Seq<String>,
    frame: ResponseFrame,
    max_len: nat,
    bound: nat,
    i: nat,
)
    requires
        details.len() == slot_names.len(),
        are_slot_names(slot_names),
        bound >= 263,
        details_len_estimate(details[i as int]) <= bound,
        response_len(frame, details.len() * bound) <= max_len,
        i < details.len(),
        ({
            let budget = Budget::after(details, slot_names, frame, max_len, i);
            &&& budget.extra >= (details.len() - i) * (bound - 263)
            &&& budget.maps_len <= markers_len(slot_names.skip(i as int)) + i * bound
        }),
    ensures
        is_kept(details, slot_names, frame, max_len, i as int),
{
    let budget = Budget::after(details, slot_names, frame, max_len, i);
    let rest = slot_names.skip(i as int);
    let n = details.len();
    lemma_budget_has_marks(details, slot_names, frame, max_len, i);
    lemma_first_marker(rest);
    assert(are_slot_names(rest.skip(1))) by {
        assert forall|k: int| 0 <= k < rest.skip(1).len() implies slot_name_len(
            (#[trigger] rest.skip(1)[k])@,
        ) <= MAX_SLOT_NAME_LEN by {
            assert(rest.skip(1)[k] == slot_names[i + 1 + k]);
        }
    }
    lemma_markers_len(rest.skip(1));
    assert((n - i) * (bound - 263) >= bound - 263) by (nonlinear_arith)
        requires
            i < n,
            bound >= 263,
    ;
    assert((n - i - 1) * 263 + i * bound + bound <= n * bound) by (nonlinear_arith)
        requires
            i < n,
            bound >= 263,
    ;
    let len = budget.len_with(details[i as int], slot_names[i as int]);
    assert(rest[0] == slot_names[i as int]);
    assert(len <= n * bound);
    lemma_response_len_monotone(frame, len as nat, n * bound);
}

/// The number of bytes of a storage map in a response: an entry takes nine bytes for each element of its
/// words that is not zero, and the keys and lengths of its fields.
pub proof fn lemma_sizes_of_maps(details: AccountStorageMapDetails, entry: (Word, Word))
    ensures
        !(details.entries is AllEntries) ==> ({
            let name_len = encode_utf8(details.slot_name@).len();
            let name = varint_len(8) + varint_len(name_len) + name_len;
            details_field_len(details) == varint_len(16) + varint_len((name + 2) as nat) + name + 2
        }),
        word_message_len(entry.0) == 9 * ((if entry.0.0 == 0 {
            0int
        } else {
            1
        }) + (if entry.0.1 == 0 {
            0int
        } else {
            1
        }) + (if entry.0.2 == 0 {
            0int
        } else {
            1
        }) + (if entry.0.3 == 0 {
            0int
        } else {
            1
        })),
        forall|entries: Seq<(Word, Word)>| #[trigger]
            entries_len(entries.push(entry)) == entries_len(entries) + entry_field_len(entry),
{
    assert forall|entries: Seq<(Word, Word)>| #[trigger]
        entries_len(entries.push(entry)) == entries_len(entries) + entry_field_len(entry) by {
        assert(entries.push(entry).drop_last() =~= entries);
    }
}

} // verus!
