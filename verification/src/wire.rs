//! Little-endian wire encoding helpers shared by the address derivation
//! and the record layout.

use vstd::prelude::*;
use vstd::bytes::{spec_u32_to_le_bytes, spec_u32_from_le_bytes, spec_u64_to_le_bytes, lemma_auto_spec_u32_to_from_le_bytes, lemma_auto_spec_u64_to_from_le_bytes, u32_to_le_bytes, u64_to_le_bytes};

verus! {

/// The four little-endian bytes of a signed 32-bit value, in two's
/// complement.
pub open spec fn i32_le_bytes(x: i32) -> Seq<u8> {
    spec_u32_to_le_bytes(#[verifier::truncate] (x as u32))
}

/// The eight little-endian bytes of a signed 64-bit value, in two's
/// complement.
pub open spec fn i64_le_bytes(x: i64) -> Seq<u8> {
    spec_u64_to_le_bytes(#[verifier::truncate] (x as u64))
}

pub proof fn lemma_i32_le_bytes_len(x: i32)
    ensures
        i32_le_bytes(x).len() == 4,
{
    lemma_auto_spec_u32_to_from_le_bytes();
    assert(spec_u32_to_le_bytes(#[verifier::truncate] (x as u32)).len() == 4);
}

pub proof fn lemma_i64_le_bytes_len(x: i64)
    ensures
        i64_le_bytes(x).len() == 8,
{
    lemma_auto_spec_u64_to_from_le_bytes();
    assert(spec_u64_to_le_bytes(#[verifier::truncate] (x as u64)).len() == 8);
}

pub proof fn lemma_u32_le_bytes_len(x: u32)
    ensures
        spec_u32_to_le_bytes(x).len() == 4,
{
    lemma_auto_spec_u32_to_from_le_bytes();
    assert(spec_u32_to_le_bytes(x).len() == 4);
}

pub proof fn lemma_u64_le_bytes_len(x: u64)
    ensures
        spec_u64_to_le_bytes(x).len() == 8,
{
    lemma_auto_spec_u64_to_from_le_bytes();
    assert(spec_u64_to_le_bytes(x).len() == 8);
}

/// Two 32-bit values with the same little-endian bytes are equal.
pub proof fn lemma_i32_le_bytes_injective(x1: i32, x2: i32)
    requires
        i32_le_bytes(x1) == i32_le_bytes(x2),
    ensures
        x1 == x2,
{
    lemma_auto_spec_u32_to_from_le_bytes();
    let c1 = #[verifier::truncate] (x1 as u32);
    let c2 = #[verifier::truncate] (x2 as u32);
    assert(spec_u32_to_le_bytes(c1).len() == 4 && spec_u32_from_le_bytes(spec_u32_to_le_bytes(c1)) == c1);
    assert(spec_u32_to_le_bytes(c2).len() == 4 && spec_u32_from_le_bytes(spec_u32_to_le_bytes(c2)) == c2);
    assert(c1 == c2);
    assert(#[verifier::truncate] (x1 as u32) == #[verifier::truncate] (x2 as u32) ==> x1 == x2) by (bit_vector);
}

/// Appends a byte slice to an output buffer.
pub fn push_bytes(out: &mut Vec<u8>, src: &[u8])
    ensures
        final(out)@ == old(out)@ + src@,
{
    let ghost start = out@;
    let mut i: usize = 0;
    while i < src.len()
        invariant
            i <= src@.len(),
            out@ == start + src@.subrange(0, i as int),
        decreases src@.len() - i,
    {
        out.push(src[i]);
        i = i + 1;
        proof {
            assert(start + src@.subrange(0, i - 1) + seq![src@[i - 1]] =~= start + src@.subrange(0, i as int));
        }
    }
    proof {
        assert(out@ =~= start + src@);
    }
}

/// Appends the little-endian bytes of an unsigned 32-bit value.
pub fn push_u32_le(out: &mut Vec<u8>, x: u32)
    ensures
        final(out)@ == old(out)@ + spec_u32_to_le_bytes(x),
{
    let mut le = u32_to_le_bytes(x);
    out.append(&mut le);
}

/// Appends the little-endian bytes of a signed 32-bit value.
pub fn push_i32_le(out: &mut Vec<u8>, x: i32)
    ensures
        final(out)@ == old(out)@ + i32_le_bytes(x),
{
    let mut le = u32_to_le_bytes(#[verifier::truncate] (x as u32));
    out.append(&mut le);
}

/// Appends the little-endian bytes of an unsigned 64-bit value.
pub fn push_u64_le(out: &mut Vec<u8>, x: u64)
    ensures
        final(out)@ == old(out)@ + spec_u64_to_le_bytes(x),
{
    let mut le = u64_to_le_bytes(x);
    out.append(&mut le);
}

/// Appends the little-endian bytes of a signed 64-bit value.
pub fn push_i64_le(out: &mut Vec<u8>, x: i64)
    ensures
        final(out)@ == old(out)@ + i64_le_bytes(x),
{
    let mut le = u64_to_le_bytes(#[verifier::truncate] (x as u64));
    out.append(&mut le);
}

} // verus!
