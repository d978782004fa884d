//! Exact record layout and sizing.
//!
//! Every record is stored in a slot of exactly its serialized size: an
//! 8-byte record kind discriminator, then the fields in declaration
//! order. Strings are a 4-byte little-endian byte-length prefix plus
//! the raw UTF-8 bytes; the fixed-capacity address lists of the index
//! records reserve a 4-byte length prefix plus `capacity` times the
//! entry address width regardless of current length. The size computed
//! here is the number of bytes the serializer writes, proved below, so
//! storage is allocated with zero slack and zero overflow.

use vstd::prelude::*;
use vstd::bytes::{spec_u32_to_le_bytes, spec_u64_to_le_bytes};
use vstd::utf8::encode_utf8;
use crate::state::{MarkerType, MarkerDescription, MarkerDescriptionView, MarkerEntry, MarkerEntryView, MAX_MARKERS_IN_TILE, MAX_MARKERS_PER_AUTHOR};
use crate::address::entry_namespace;
use crate::wire::{i32_le_bytes, i64_le_bytes, push_bytes, push_u32_le, push_u64_le, push_i32_le, push_i64_le, lemma_i32_le_bytes_len, lemma_i64_le_bytes_len, lemma_u32_le_bytes_len, lemma_u64_le_bytes_len};

verus! {

/// Width of a record kind discriminator.
pub const DISCRIMINATOR_BYTES: usize = 8;

/// Width of a marker entry address: a 12-byte namespace tag and two
/// 4-byte coordinate seeds.
pub const ENTRY_ADDRESS_BYTES: usize = 20;

/// Fixed part of a marker entry record: discriminator, 32-byte author,
/// two 4-byte string length prefixes, 1-byte marker type, 8-byte
/// position, two 8-byte timestamps, and the 8-byte like counter.
pub const MARKER_ENTRY_FIXED_BYTES: usize = 8 + 32 + 4 + 4 + 1 + 8 + 8 + 8 + 8;

/// Exact size of a tile index record: discriminator, 8-byte tile, and
/// the reserved fixed-capacity address list.
pub const MARKER_TILE_SPACE: usize = DISCRIMINATOR_BYTES + 8 + 4 + MAX_MARKERS_IN_TILE
    * ENTRY_ADDRESS_BYTES;

/// Exact size of an author index record: discriminator, 32-byte author,
/// and the reserved fixed-capacity address list.
pub const MARKER_AUTHOR_SPACE: usize = DISCRIMINATOR_BYTES + 32 + 4 + MAX_MARKERS_PER_AUTHOR
    * ENTRY_ADDRESS_BYTES;

/// Exact byte size of the marker entry record holding a description:
/// the fixed fields plus the raw bytes of the two strings.
pub open spec fn spec_marker_entry_space(d: MarkerDescriptionView) -> int {
    MARKER_ENTRY_FIXED_BYTES + encode_utf8(d.name).len() + encode_utf8(d.details).len()
}

/// Computes the exact byte size of the marker entry record holding a
/// description. It equals the number of bytes [`serialize_marker_entry`]
/// writes for any entry with that description.
pub fn marker_entry_space(description: &MarkerDescription) -> (n: usize)
    requires
        spec_marker_entry_space(description@) <= usize::MAX,
    ensures
        n == spec_marker_entry_space(description@),
{
    MARKER_ENTRY_FIXED_BYTES + description.name.as_str().len() + description.details.as_str().len()
}

/// The discriminator byte tag of a record kind: the first eight bytes
/// of its namespace tag.
pub open spec fn entry_discriminator() -> Seq<u8> {
    entry_namespace().take(8)
}

/// Numeric tag of a marker type on the wire, in declaration order.
pub open spec fn spec_marker_type_tag(t: MarkerType) -> u8 {
    match t {
        MarkerType::Basic => 0u8,
        MarkerType::Park => 1u8,
        MarkerType::Beach => 2u8,
        MarkerType::MountainPeak => 3u8,
        MarkerType::Historical => 4u8,
        MarkerType::Restaurant => 5u8,
        MarkerType::Hazard => 6u8,
    }
}

fn marker_type_tag(t: MarkerType) -> (b: u8)
    ensures
        b == spec_marker_type_tag(t),
{
    match t {
        MarkerType::Basic => 0,
        MarkerType::Park => 1,
        MarkerType::Beach => 2,
        MarkerType::MountainPeak => 3,
        MarkerType::Historical => 4,
        MarkerType::Restaurant => 5,
        MarkerType::Hazard => 6,
    }
}

/// The serialized bytes of a marker entry record: discriminator, author
/// key, length-prefixed name and details, marker type tag, position,
/// timestamps, like counter.
pub open spec fn spec_serialize_marker_entry(e: MarkerEntryView) -> Seq<u8> {
    entry_discriminator()
    + e.author
    + spec_u32_to_le_bytes(#[verifier::truncate] (encode_utf8(e.description.name).len() as u32))
    + encode_utf8(e.description.name)
    + spec_u32_to_le_bytes(#[verifier::truncate] (encode_utf8(e.description.details).len() as u32))
    + encode_utf8(e.description.details)
    + seq![spec_marker_type_tag(e.description.marker_type)]
    + i32_le_bytes(e.position.lat)
    + i32_le_bytes(e.position.lon)
    + i64_le_bytes(e.created_at)
    + i64_le_bytes(e.updated_at)
    + spec_u64_to_le_bytes(e.likes)
}

/// The serializer writes exactly the computed record size: for a name
/// of `n` bytes and details of `m` bytes, the fixed fields plus `n`
/// plus `m` bytes.
pub proof fn lemma_serialized_entry_size(e: MarkerEntryView)
    requires
        e.author.len() == 32,
    ensures
        spec_serialize_marker_entry(e).len() == spec_marker_entry_space(e.description),
{
    lemma_i32_le_bytes_len(e.position.lat);
    lemma_i32_le_bytes_len(e.position.lon);
    lemma_i64_le_bytes_len(e.created_at);
    lemma_i64_le_bytes_len(e.updated_at);
    lemma_u64_le_bytes_len(e.likes);
    lemma_u32_le_bytes_len(#[verifier::truncate] (encode_utf8(e.description.name).len() as u32));
    lemma_u32_le_bytes_len(#[verifier::truncate] (encode_utf8(e.description.details).len() as u32));
}

/// Serializes a marker entry record. The result occupies exactly
/// [`marker_entry_space`] bytes for the entry's description.
pub fn serialize_marker_entry(e: &MarkerEntry) -> (out: Vec<u8>)
    requires
        spec_marker_entry_space(e.description@) <= usize::MAX,
    ensures
        out@ == spec_serialize_marker_entry(e@),
        out@.len() == spec_marker_entry_space(e.description@),
{
    let mut out: Vec<u8> = Vec::new();
    let disc: [u8; 8] = [109, 97, 114, 107, 101, 114, 95, 101];
    push_bytes(&mut out, disc.as_slice());
    proof {
        assert(out@ =~= entry_discriminator());
    }
    push_bytes(&mut out, e.author.as_slice());
    let name_bytes = e.description.name.as_str().as_bytes();
    push_u32_le(&mut out, #[verifier::truncate] (name_bytes.len() as u32));
    push_bytes(&mut out, name_bytes);
    let details_bytes = e.description.details.as_str().as_bytes();
    push_u32_le(&mut out, #[verifier::truncate] (details_bytes.len() as u32));
    push_bytes(&mut out, details_bytes);
    out.push(marker_type_tag(e.description.marker_type));
    push_i32_le(&mut out, e.position.lat);
    push_i32_le(&mut out, e.position.lon);
    push_i64_le(&mut out, e.created_at);
    push_i64_le(&mut out, e.updated_at);
    push_u64_le(&mut out, e.likes);
    proof {
        assert(out@ =~= spec_serialize_marker_entry(e@));
        lemma_serialized_entry_size(e@);
    }
    out
}

} // verus!
