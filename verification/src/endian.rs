//! Fixed-width integers as bytes: the big-endian order of the wire, and the
//! little-endian order that a machine may use in memory.

use vstd::prelude::*;

verus! {

/// The two bytes of `x`, most significant first.
pub open spec fn be16(x: u16) -> Seq<u8> {
    seq![(x / 0x100) as u8, (x % 0x100) as u8]
}

/// The four bytes of `x`, most significant first.
pub open spec fn be32(x: u32) -> Seq<u8> {
    seq![
        (x / 0x100_0000) as u8,
        (x / 0x1_0000 % 0x100) as u8,
        (x / 0x100 % 0x100) as u8,
        (x % 0x100) as u8,
    ]
}

/// The eight bytes of `x`, most significant first.
pub open spec fn be64(x: u64) -> Seq<u8> {
    be32((x / 0x1_0000_0000) as u32) + be32((x % 0x1_0000_0000) as u32)
}

/// The 16-bit integer whose big-endian bytes stand at `pos` in `b`.
pub open spec fn be16_at(b: Seq<u8>, pos: int) -> u16 {
    (b[pos] as int * 0x100 + b[pos + 1] as int) as u16
}

/// The 32-bit integer whose big-endian bytes stand at `pos` in `b`.
pub open spec fn be32_at(b: Seq<u8>, pos: int) -> u32 {
    (b[pos] as int * 0x100_0000 + b[pos + 1] as int * 0x1_0000 + b[pos + 2] as int * 0x100 + b[pos
        + 3] as int) as u32
}

/// The 64-bit integer whose big-endian bytes stand at `pos` in `b`.
pub open spec fn be64_at(b: Seq<u8>, pos: int) -> u64 {
    (be32_at(b, pos) as int * 0x1_0000_0000 + be32_at(b, pos + 4) as int) as u64
}

/// The 32-bit integer whose little-endian bytes stand at `pos` in `b`.
pub open spec fn le32_at(b: Seq<u8>, pos: int) -> u32 {
    (b[pos + 3] as int * 0x100_0000 + b[pos + 2] as int * 0x1_0000 + b[pos + 1] as int * 0x100
        + b[pos] as int) as u32
}

/// The 64-bit integer whose little-endian bytes stand at `pos` in `b`.
pub open spec fn le64_at(b: Seq<u8>, pos: int) -> u64 {
    (le32_at(b, pos + 4) as int * 0x1_0000_0000 + le32_at(b, pos) as int) as u64
}

/// Reading back what `be16` wrote gives the integer, wherever it stands.
pub proof fn lemma_be16_at(b: Seq<u8>, pos: int, x: u16)
    requires
        0 <= pos,
        pos + 2 <= b.len(),
        b.subrange(pos, pos + 2) == be16(x),
    ensures
        be16_at(b, pos) == x,
{
    let s = b.subrange(pos, pos + 2);
    assert(s[0] == b[pos] && s[1] == b[pos + 1]);
}

/// Reading back what `be32` wrote gives the integer, wherever it stands.
pub proof fn lemma_be32_at(b: Seq<u8>, pos: int, x: u32)
    requires
        0 <= pos,
        pos + 4 <= b.len(),
        b.subrange(pos, pos + 4) == be32(x),
    ensures
        be32_at(b, pos) == x,
{
    let s = b.subrange(pos, pos + 4);
    assert(s[0] == b[pos] && s[1] == b[pos + 1] && s[2] == b[pos + 2] && s[3] == b[pos + 3]);
}

/// Reading back what `be64` wrote gives the integer, wherever it stands.
pub proof fn lemma_be64_at(b: Seq<u8>, pos: int, x: u64)
    requires
        0 <= pos,
        pos + 8 <= b.len(),
        b.subrange(pos, pos + 8) == be64(x),
    ensures
        be64_at(b, pos) == x,
{
    let hi = (x / 0x1_0000_0000) as u32;
    let lo = (x % 0x1_0000_0000) as u32;
    let s = b.subrange(pos, pos + 8);
    assert(b.subrange(pos, pos + 4) =~= s.subrange(0, 4));
    assert(b.subrange(pos + 4, pos + 8) =~= s.subrange(4, 8));
    assert(s.subrange(0, 4) =~= be32(hi));
    assert(s.subrange(4, 8) =~= be32(lo));
    lemma_be32_at(b, pos, hi);
    lemma_be32_at(b, pos + 4, lo);
}

/// A signed integer and the unsigned integer with the same bits determine
/// each other, at every width.
pub proof fn lemma_same_bits(a: i8, b: i16, c: i32, d: i64, p: u8, q: u16, r: u32, s: u64)
    ensures
        (a as u8) as i8 == a,
        (b as u16) as i16 == b,
        (c as u32) as i32 == c,
        (d as u64) as i64 == d,
        (p as i8) as u8 == p,
        (q as i16) as u16 == q,
        (r as i32) as u32 == r,
        (s as i64) as u64 == s,
{
    assert((a as u8) as i8 == a) by (bit_vector);
    assert((b as u16) as i16 == b) by (bit_vector);
    assert((c as u32) as i32 == c) by (bit_vector);
    assert((d as u64) as i64 == d) by (bit_vector);
    assert((p as i8) as u8 == p) by (bit_vector);
    assert((q as i16) as u16 == q) by (bit_vector);
    assert((r as i32) as u32 == r) by (bit_vector);
    assert((s as i64) as u64 == s) by (bit_vector);
}

/// Appends the big-endian bytes of `x`.
pub fn push_be16(out: &mut Vec<u8>, x: u16)
    ensures
        final(out)@ == old(out)@ + be16(x),
{
    out.push((x / 0x100) as u8);
    out.push((x % 0x100) as u8);
    assert(out@ =~= old(out)@ + be16(x));
}

/// Appends the big-endian bytes of `x`.
pub fn push_be32(out: &mut Vec<u8>, x: u32)
    ensures
        final(out)@ == old(out)@ + be32(x),
{
    out.push((x / 0x100_0000) as u8);
    out.push((x / 0x1_0000 % 0x100) as u8);
    out.push((x / 0x100 % 0x100) as u8);
    out.push((x % 0x100) as u8);
    assert(out@ =~= old(out)@ + be32(x));
}

/// Appends the big-endian bytes of `x`.
pub fn push_be64(out: &mut Vec<u8>, x: u64)
    ensures
        final(out)@ == old(out)@ + be64(x),
{
    push_be32(out, (x / 0x1_0000_0000) as u32);
    push_be32(out, (x % 0x1_0000_0000) as u32);
    assert(out@ =~= old(out)@ + be64(x));
}

/// Reads the big-endian 16-bit integer at `pos`.
pub(crate) fn get_be16(data: &[u8], pos: usize) -> (x: u16)
    requires
        pos + 2 <= data@.len(),
    ensures
        x == be16_at(data@, pos as int),
{
    let hi: u16 = data[pos] as u16;
    let lo: u16 = data[pos + 1] as u16;
    hi * 0x100 + lo
}

/// Reads the big-endian 32-bit integer at `pos`.
pub(crate) fn get_be32(data: &[u8], pos: usize) -> (x: u32)
    requires
        pos + 4 <= data@.len(),
    ensures
        x == be32_at(data@, pos as int),
{
    let b0: u32 = data[pos] as u32;
    let b1: u32 = data[pos + 1] as u32;
    let b2: u32 = data[pos + 2] as u32;
    let b3: u32 = data[pos + 3] as u32;
    b0 * 0x100_0000 + b1 * 0x1_0000 + b2 * 0x100 + b3
}

/// Reads the big-endian 64-bit integer at `pos`.
pub(crate) fn get_be64(data: &[u8], pos: usize) -> (x: u64)
    requires
        pos + 8 <= data@.len(),
    ensures
        x == be64_at(data@, pos as int),
{
    let len: usize = data.len();
    let hi: u64 = get_be32(data, pos) as u64;
    let lo: u64 = get_be32(data, pos + 4) as u64;
    hi * 0x1_0000_0000 + lo
}

} // verus!
