//! Deterministic record addresses.
//!
//! Every record kind lives at an address computed purely from a
//! namespace tag and the record's seed bytes: the tag's bytes followed
//! by the seeds, with integer seeds in little-endian order. The scheme
//! is collision-free by construction: addresses of different kinds
//! differ inside the tag, and within a kind the fixed-width seeds make
//! the concatenation injective.

use vstd::prelude::*;
use vstd::bytes::lemma_auto_spec_u32_to_from_le_bytes;
use crate::state::{Position, Tile};
use crate::wire::{i32_le_bytes, push_bytes, push_i32_le, lemma_i32_le_bytes_injective};

verus! {

/// A deterministic storage address: namespace tag bytes followed by
/// seed bytes.
pub struct Address {
    bytes: Vec<u8>,
}

impl View for Address {
    type V = Seq<u8>;

    closed spec fn view(&self) -> Seq<u8> {
        self.bytes@
    }
}

impl Clone for Address {
    fn clone(&self) -> (r: Self)
        ensures
            r@ == self@,
    {
        let bytes = self.bytes.clone();
        proof {
            assert(bytes@ =~= self.bytes@);
        }
        Address { bytes }
    }
}

impl Address {
    /// Byte-for-byte equality of two addresses.
    pub fn equals(&self, other: &Address) -> (r: bool)
        ensures
            r == (self@ == other@),
    {
        let r = self.bytes == other.bytes;
        proof {
            if r {
                assert(self.bytes@ =~= other.bytes@);
            } else {
                if self.bytes@ == other.bytes@ {
                    assert(forall|i: int| 0 <= i < self.bytes@.len() ==> self.bytes@[i] == other.bytes@[i]);
                    assert(false);
                }
            }
        }
        r
    }
}

/// Namespace tag of a marker entry record: the bytes of "marker_entry".
pub open spec fn entry_namespace() -> Seq<u8> {
    seq![109u8, 97u8, 114u8, 107u8, 101u8, 114u8, 95u8, 101u8, 110u8, 116u8, 114u8, 121u8]
}

/// Namespace tag of a tile index record: the bytes of "marker_tile".
pub open spec fn tile_namespace() -> Seq<u8> {
    seq![109u8, 97u8, 114u8, 107u8, 101u8, 114u8, 95u8, 116u8, 105u8, 108u8, 101u8]
}

/// Namespace tag of an author index record: the bytes of "marker_author".
pub open spec fn author_namespace() -> Seq<u8> {
    seq![109u8, 97u8, 114u8, 107u8, 101u8, 114u8, 95u8, 97u8, 117u8, 116u8, 104u8, 111u8, 114u8]
}

/// Address of the marker entry record owning a position.
pub open spec fn entry_address_bytes(position: Position) -> Seq<u8> {
    entry_namespace() + i32_le_bytes(position.lat) + i32_le_bytes(position.lon)
}

/// Address of the tile index record owning a tile.
pub open spec fn tile_address_bytes(tile: Tile) -> Seq<u8> {
    tile_namespace() + i32_le_bytes(tile.x) + i32_le_bytes(tile.y)
}

/// Address of the author index record owning an author identity.
pub open spec fn author_address_bytes(author: Seq<u8>) -> Seq<u8> {
    author_namespace() + author
}

/// Derives the address of the marker entry record at a position from
/// the entry namespace and the position's raw coordinate bytes.
pub fn entry_address(position: Position) -> (a: Address)
    ensures
        a@ == entry_address_bytes(position),
{
    let mut bytes: Vec<u8> = Vec::new();
    let tag: [u8; 12] = [109, 97, 114, 107, 101, 114, 95, 101, 110, 116, 114, 121];
    push_bytes(&mut bytes, tag.as_slice());
    proof {
        assert(bytes@ =~= entry_namespace());
    }
    push_i32_le(&mut bytes, position.lat);
    push_i32_le(&mut bytes, position.lon);
    Address { bytes }
}

/// Derives the address of the tile index record of a tile from the
/// tile namespace and the tile's raw cell coordinate bytes.
pub fn tile_address(tile: Tile) -> (a: Address)
    ensures
        a@ == tile_address_bytes(tile),
{
    let mut bytes: Vec<u8> = Vec::new();
    let tag: [u8; 11] = [109, 97, 114, 107, 101, 114, 95, 116, 105, 108, 101];
    push_bytes(&mut bytes, tag.as_slice());
    proof {
        assert(bytes@ =~= tile_namespace());
    }
    push_i32_le(&mut bytes, tile.x);
    push_i32_le(&mut bytes, tile.y);
    Address { bytes }
}

/// Derives the address of the author index record of an author from
/// the author namespace and the author's key bytes.
pub fn author_address(author: &[u8]) -> (a: Address)
    ensures
        a@ == author_address_bytes(author@),
{
    let mut bytes: Vec<u8> = Vec::new();
    let tag: [u8; 13] = [109, 97, 114, 107, 101, 114, 95, 97, 117, 116, 104, 111, 114];
    push_bytes(&mut bytes, tag.as_slice());
    proof {
        assert(bytes@ =~= author_namespace());
    }
    push_bytes(&mut bytes, author);
    Address { bytes }
}

/// Distinct positions derive distinct entry addresses.
pub proof fn lemma_entry_address_injective(p1: Position, p2: Position)
    requires
        entry_address_bytes(p1) == entry_address_bytes(p2),
    ensures
        p1 == p2,
{
    lemma_auto_spec_u32_to_from_le_bytes();
    let s1 = entry_address_bytes(p1);
    let s2 = entry_address_bytes(p2);
    assert(s1.subrange(12, 16) =~= i32_le_bytes(p1.lat));
    assert(s1.subrange(16, 20) =~= i32_le_bytes(p1.lon));
    assert(s2.subrange(12, 16) =~= i32_le_bytes(p2.lat));
    assert(s2.subrange(16, 20) =~= i32_le_bytes(p2.lon));
    lemma_i32_le_bytes_injective(p1.lat, p2.lat);
    lemma_i32_le_bytes_injective(p1.lon, p2.lon);
}

/// Distinct tiles derive distinct tile index addresses.
pub proof fn lemma_tile_address_injective(t1: Tile, t2: Tile)
    requires
        tile_address_bytes(t1) == tile_address_bytes(t2),
    ensures
        t1 == t2,
{
    lemma_auto_spec_u32_to_from_le_bytes();
    let s1 = tile_address_bytes(t1);
    let s2 = tile_address_bytes(t2);
    assert(s1.subrange(11, 15) =~= i32_le_bytes(t1.x));
    assert(s1.subrange(15, 19) =~= i32_le_bytes(t1.y));
    assert(s2.subrange(11, 15) =~= i32_le_bytes(t2.x));
    assert(s2.subrange(15, 19) =~= i32_le_bytes(t2.y));
    lemma_i32_le_bytes_injective(t1.x, t2.x);
    lemma_i32_le_bytes_injective(t1.y, t2.y);
}

/// Distinct author identities derive distinct author index addresses.
pub proof fn lemma_author_address_injective(a1: Seq<u8>, a2: Seq<u8>)
    requires
        author_address_bytes(a1) == author_address_bytes(a2),
    ensures
        a1 == a2,
{
    let s1 = author_address_bytes(a1);
    let s2 = author_address_bytes(a2);
    assert(s1.subrange(13, s1.len() as int) =~= a1);
    assert(s2.subrange(13, s2.len() as int) =~= a2);
}

/// No entry address is a tile index address: they differ in the tag.
pub proof fn lemma_entry_tile_distinct(p: Position, t: Tile)
    ensures
        entry_address_bytes(p) != tile_address_bytes(t),
{
    lemma_auto_spec_u32_to_from_le_bytes();
    assert(entry_address_bytes(p)[7] == 101u8);
    assert(tile_address_bytes(t)[7] == 116u8);
}

/// No entry address is an author index address: they differ in the tag.
pub proof fn lemma_entry_author_distinct(p: Position, a: Seq<u8>)
    ensures
        entry_address_bytes(p) != author_address_bytes(a),
{
    lemma_auto_spec_u32_to_from_le_bytes();
    assert(entry_address_bytes(p)[7] == 101u8);
    assert(author_address_bytes(a)[7] == 97u8);
}

/// No tile index address is an author index address: they differ in the tag.
pub proof fn lemma_tile_author_distinct(t: Tile, a: Seq<u8>)
    ensures
        tile_address_bytes(t) != author_address_bytes(a),
{
    lemma_auto_spec_u32_to_from_le_bytes();
    assert(tile_address_bytes(t)[7] == 116u8);
    assert(author_address_bytes(a)[7] == 97u8);
}

} // verus!
