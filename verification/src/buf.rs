//! Little-endian scalar reads and writes over byte buffers, and small
//! byte-level helpers the rest of the codec is built on.

use vstd::prelude::*;
use vstd::bytes::{
    spec_u16_from_le_bytes, spec_u16_to_le_bytes, spec_u32_from_le_bytes, spec_u32_to_le_bytes,
    spec_u64_from_le_bytes, spec_u64_to_le_bytes, u16_from_le_bytes, u16_to_le_bytes,
    u32_from_le_bytes, u32_to_le_bytes, u64_from_le_bytes, u64_to_le_bytes,
    lemma_auto_spec_u16_to_from_le_bytes, lemma_auto_spec_u32_to_from_le_bytes,
    lemma_auto_spec_u64_to_from_le_bytes,
};
use vstd::slice::slice_subrange;
use vstd::string::StringSliceAdditionalSpecFns;

verus! {

/// The two-byte little-endian value stored at `pos`.
pub open spec fn spec_u16_at(b: Seq<u8>, pos: int) -> u16 {
    spec_u16_from_le_bytes(b.subrange(pos, pos + 2))
}

/// The four-byte little-endian value stored at `pos`.
pub open spec fn spec_u32_at(b: Seq<u8>, pos: int) -> u32 {
    spec_u32_from_le_bytes(b.subrange(pos, pos + 4))
}

/// The eight-byte little-endian value stored at `pos`.
pub open spec fn spec_u64_at(b: Seq<u8>, pos: int) -> u64 {
    spec_u64_from_le_bytes(b.subrange(pos, pos + 8))
}

/// The eight-byte little-endian two's-complement value stored at `pos`.
pub open spec fn spec_i64_at(b: Seq<u8>, pos: int) -> i64 {
    spec_u64_at(b, pos) as i64
}

/// The four-byte little-endian two's-complement value stored at `pos`.
pub open spec fn spec_i32_at(b: Seq<u8>, pos: int) -> i32 {
    spec_u32_at(b, pos) as i32
}

pub fn read_u16_at(buf: &[u8], pos: usize) -> (r: u16)
    requires
        pos + 2 <= buf@.len(),
    ensures
        r == spec_u16_at(buf@, pos as int),
{
    let n = buf.len();
    u16_from_le_bytes(slice_subrange(buf, pos, pos + 2))
}

pub fn read_u32_at(buf: &[u8], pos: usize) -> (r: u32)
    requires
        pos + 4 <= buf@.len(),
    ensures
        r == spec_u32_at(buf@, pos as int),
{
    let n = buf.len();
    u32_from_le_bytes(slice_subrange(buf, pos, pos + 4))
}

pub fn read_u64_at(buf: &[u8], pos: usize) -> (r: u64)
    requires
        pos + 8 <= buf@.len(),
    ensures
        r == spec_u64_at(buf@, pos as int),
{
    let n = buf.len();
    u64_from_le_bytes(slice_subrange(buf, pos, pos + 8))
}

pub fn read_i64_at(buf: &[u8], pos: usize) -> (r: i64)
    requires
        pos + 8 <= buf@.len(),
    ensures
        r == spec_i64_at(buf@, pos as int),
{
    read_u64_at(buf, pos) as i64
}

pub fn read_i32_at(buf: &[u8], pos: usize) -> (r: i32)
    requires
        pos + 4 <= buf@.len(),
    ensures
        r == spec_i32_at(buf@, pos as int),
{
    read_u32_at(buf, pos) as i32
}

/// Append the two little-endian bytes of `x` to `out`.
pub fn push_u16_le(out: &mut Vec<u8>, x: u16)
    ensures
        final(out)@ == old(out)@ + spec_u16_to_le_bytes(x),
{
    let bytes = u16_to_le_bytes(x);
    let mut i: usize = 0;
    while i < 2
        invariant
            bytes@ == spec_u16_to_le_bytes(x),
            bytes@.len() == 2,
            0 <= i <= 2,
            out@ == old(out)@ + bytes@.subrange(0, i as int),
        decreases 2 - i,
    {
        out.push(bytes[i]);
        i += 1;
        proof {
            assert(out@ =~= old(out)@ + bytes@.subrange(0, i as int));
        }
    }
    proof {
        assert(out@ =~= old(out)@ + bytes@);
    }
}

/// Append the four little-endian bytes of `x` to `out`.
pub fn push_u32_le(out: &mut Vec<u8>, x: u32)
    ensures
        final(out)@ == old(out)@ + spec_u32_to_le_bytes(x),
{
    let bytes = u32_to_le_bytes(x);
    let mut i: usize = 0;
    while i < 4
        invariant
            bytes@ == spec_u32_to_le_bytes(x),
            bytes@.len() == 4,
            0 <= i <= 4,
            out@ == old(out)@ + bytes@.subrange(0, i as int),
        decreases 4 - i,
    {
        out.push(bytes[i]);
        i += 1;
        proof {
            assert(out@ =~= old(out)@ + bytes@.subrange(0, i as int));
        }
    }
    proof {
        assert(out@ =~= old(out)@ + bytes@);
    }
}

/// Append the eight little-endian bytes of `x` to `out`.
pub fn push_u64_le(out: &mut Vec<u8>, x: u64)
    ensures
        final(out)@ == old(out)@ + spec_u64_to_le_bytes(x),
{
    let bytes = u64_to_le_bytes(x);
    let mut i: usize = 0;
    while i < 8
        invariant
            bytes@ == spec_u64_to_le_bytes(x),
            bytes@.len() == 8,
            0 <= i <= 8,
            out@ == old(out)@ + bytes@.subrange(0, i as int),
        decreases 8 - i,
    {
        out.push(bytes[i]);
        i += 1;
        proof {
            assert(out@ =~= old(out)@ + bytes@.subrange(0, i as int));
        }
    }
    proof {
        assert(out@ =~= old(out)@ + bytes@);
    }
}

/// Append the eight little-endian bytes of `x` to `out`.
pub fn push_i64_le(out: &mut Vec<u8>, x: i64)
    ensures
        final(out)@ == old(out)@ + spec_u64_to_le_bytes(x as u64),
{
    push_u64_le(out, x as u64);
}

/// Append the four little-endian bytes of `x` to `out`.
pub fn push_i32_le(out: &mut Vec<u8>, x: i32)
    ensures
        final(out)@ == old(out)@ + spec_u32_to_le_bytes(x as u32),
{
    push_u32_le(out, x as u32);
}

/// Round trip of the little-endian codecs: reading back what was written
/// returns the value written, for each scalar width and for the signed views
/// of the four- and eight-byte widths.
pub proof fn lemma_le_round_trip()
    ensures
        forall|x: u16| spec_u16_to_le_bytes(x).len() == 2,
        forall|x: u32| spec_u32_to_le_bytes(x).len() == 4,
        forall|x: u64| spec_u64_to_le_bytes(x).len() == 8,
        forall|x: u16| spec_u16_from_le_bytes(#[trigger] spec_u16_to_le_bytes(x)) == x,
        forall|x: u32| spec_u32_from_le_bytes(#[trigger] spec_u32_to_le_bytes(x)) == x,
        forall|x: u64| spec_u64_from_le_bytes(#[trigger] spec_u64_to_le_bytes(x)) == x,
        forall|x: i64| spec_u64_from_le_bytes(#[trigger] spec_u64_to_le_bytes(x as u64)) as i64
            == x,
        forall|x: i32| spec_u32_from_le_bytes(#[trigger] spec_u32_to_le_bytes(x as u32)) as i32
            == x,
{
    lemma_auto_spec_u16_to_from_le_bytes();
    lemma_auto_spec_u32_to_from_le_bytes();
    lemma_auto_spec_u64_to_from_le_bytes();
    assert forall|x: u16| spec_u16_from_le_bytes(#[trigger] spec_u16_to_le_bytes(x)) == x by {
        assert(spec_u16_to_le_bytes(x).len() == 2);
    }
    assert forall|x: u32| spec_u32_from_le_bytes(#[trigger] spec_u32_to_le_bytes(x)) == x by {
        assert(spec_u32_to_le_bytes(x).len() == 4);
    }
    assert forall|x: u64| spec_u64_from_le_bytes(#[trigger] spec_u64_to_le_bytes(x)) == x by {
        assert(spec_u64_to_le_bytes(x).len() == 8);
    }
    assert forall|x: i64|
        spec_u64_from_le_bytes(#[trigger] spec_u64_to_le_bytes(x as u64)) as i64 == x by {
        let y = x as u64;
        assert(spec_u64_to_le_bytes(y).len() == 8);
        assert(spec_u64_from_le_bytes(spec_u64_to_le_bytes(y)) == y);
        assert((x as u64) as i64 == x) by (bit_vector);
    }
    assert forall|x: i32|
        spec_u32_from_le_bytes(#[trigger] spec_u32_to_le_bytes(x as u32)) as i32 == x by {
        let y = x as u32;
        assert(spec_u32_to_le_bytes(y).len() == 4);
        assert(spec_u32_from_le_bytes(spec_u32_to_le_bytes(y)) == y);
        assert((x as u32) as i32 == x) by (bit_vector);
    }
}


/// A signed byte survives the cast to `u8` and back.
pub proof fn lemma_i8_round_trip(x: i8)
    ensures
        ((x as u8) as i8) == x,
{
    assert((x as u8) as i8 == x) by (bit_vector);
}

/// True when the two byte slices hold the same bytes.
pub fn bytes_eq(a: &[u8], b: &[u8]) -> (r: bool)
    ensures
        r <==> a@ == b@,
{
    if a.len() != b.len() {
        return false;
    }
    let n = a.len();
    let mut i: usize = 0;
    while i < n
        invariant
            n == a@.len(),
            n == b@.len(),
            0 <= i <= n,
            forall|j: int| 0 <= j < i ==> a@[j] == b@[j],
        decreases n - i,
    {
        if a[i] != b[i] {
            return false;
        }
        i += 1;
    }
    proof {
        assert(a@ =~= b@);
    }
    true
}

/// True when the two strings hold the same characters.
pub fn str_eq(a: &str, b: &str) -> (r: bool)
    ensures
        r <==> a@ == b@,
{
    let r = bytes_eq(a.as_bytes(), b.as_bytes());
    proof {
        if a.spec_bytes() == b.spec_bytes() {
            vstd::utf8::encode_utf8_decode_utf8(a@);
            vstd::utf8::encode_utf8_decode_utf8(b@);
        }
    }
    r
}

} // verus!
