//! Fixed-width integer encodings used by the archive format.
//!
//! Every encoding is stated arithmetically, as base-256 digits, so that the
//! byte layouts of the records can be reasoned about with plain integer
//! arithmetic.

use vstd::prelude::*;

verus! {

/// The unsigned 16-bit pattern of `x` in two's complement.
pub open spec fn i16_bits(x: i16) -> u16 {
    if x >= 0 {
        x as u16
    } else {
        (x + 0x1_0000) as u16
    }
}

/// The signed value of the two's complement pattern `u`.
pub open spec fn i16_of_bits(u: u16) -> i16 {
    if u < 0x8000 {
        u as i16
    } else {
        (u - 0x1_0000) as i16
    }
}

/// The unsigned 32-bit pattern of `x` in two's complement.
pub open spec fn i32_bits(x: i32) -> u32 {
    if x >= 0 {
        x as u32
    } else {
        (x + 0x1_0000_0000) as u32
    }
}

/// The signed value of the two's complement pattern `u`.
pub open spec fn i32_of_bits(u: u32) -> i32 {
    if u < 0x8000_0000 {
        u as i32
    } else {
        (u - 0x1_0000_0000) as i32
    }
}

/// The two bytes of `x`, least significant first.
pub open spec fn le_u16(x: u16) -> Seq<u8> {
    seq![(x % 256) as u8, (x / 256) as u8]
}

/// The two bytes of `x`, most significant first.
pub open spec fn be_u16(x: u16) -> Seq<u8> {
    seq![(x / 256) as u8, (x % 256) as u8]
}

/// The four bytes of `x`, least significant first.
pub open spec fn le_u32(x: u32) -> Seq<u8> {
    seq![
        (x % 256) as u8,
        ((x / 0x100) % 256) as u8,
        ((x / 0x1_0000) % 256) as u8,
        (x / 0x100_0000) as u8,
    ]
}

/// The four bytes of `x`, most significant first.
pub open spec fn be_u32(x: u32) -> Seq<u8> {
    seq![
        (x / 0x100_0000) as u8,
        ((x / 0x1_0000) % 256) as u8,
        ((x / 0x100) % 256) as u8,
        (x % 256) as u8,
    ]
}

/// Little-endian two's complement bytes of `x`.
pub open spec fn le_i16(x: i16) -> Seq<u8> {
    le_u16(i16_bits(x))
}

/// Big-endian two's complement bytes of `x`.
pub open spec fn be_i16(x: i16) -> Seq<u8> {
    be_u16(i16_bits(x))
}

/// Little-endian two's complement bytes of `x`.
pub open spec fn le_i32(x: i32) -> Seq<u8> {
    le_u32(i32_bits(x))
}

/// The value whose little-endian bytes start at `at` in `s`.
pub open spec fn u16_le_at(s: Seq<u8>, at: int) -> u16 {
    (s[at] + 256 * s[at + 1]) as u16
}

/// The value whose big-endian bytes start at `at` in `s`.
pub open spec fn u16_be_at(s: Seq<u8>, at: int) -> u16 {
    (256 * s[at] + s[at + 1]) as u16
}

/// The value whose little-endian bytes start at `at` in `s`.
pub open spec fn u32_le_at(s: Seq<u8>, at: int) -> u32 {
    (s[at] + 0x100 * s[at + 1] + 0x1_0000 * s[at + 2] + 0x100_0000 * s[at + 3]) as u32
}

/// The value whose big-endian bytes start at `at` in `s`.
pub open spec fn u32_be_at(s: Seq<u8>, at: int) -> u32 {
    (0x100_0000 * s[at] + 0x1_0000 * s[at + 1] + 0x100 * s[at + 2] + s[at + 3]) as u32
}

/// The signed value whose big-endian bytes start at `at` in `s`.
pub open spec fn i16_be_at(s: Seq<u8>, at: int) -> i16 {
    i16_of_bits(u16_be_at(s, at))
}

/// The signed value whose little-endian bytes start at `at` in `s`.
pub open spec fn i32_le_at(s: Seq<u8>, at: int) -> i32 {
    i32_of_bits(u32_le_at(s, at))
}

/// Reading back what was written gives the value again, wherever the bytes
/// stand in a longer sequence.
pub proof fn lemma_u16_roundtrip(x: u16, before: Seq<u8>, after: Seq<u8>)
    ensures
        u16_le_at(before + le_u16(x) + after, before.len() as int) == x,
        u16_be_at(before + be_u16(x) + after, before.len() as int) == x,
{
    let n = before.len() as int;
    let l = before + le_u16(x) + after;
    let b = before + be_u16(x) + after;
    assert(l[n] == le_u16(x)[0] && l[n + 1] == le_u16(x)[1]);
    assert(b[n] == be_u16(x)[0] && b[n + 1] == be_u16(x)[1]);
}

/// Reading back what was written gives the value again, wherever the bytes
/// stand in a longer sequence.
pub proof fn lemma_u32_roundtrip(x: u32, before: Seq<u8>, after: Seq<u8>)
    ensures
        u32_le_at(before + le_u32(x) + after, before.len() as int) == x,
        u32_be_at(before + be_u32(x) + after, before.len() as int) == x,
{
    let n = before.len() as int;
    let l = before + le_u32(x) + after;
    let b = before + be_u32(x) + after;
    assert(l[n] == le_u32(x)[0] && l[n + 1] == le_u32(x)[1] && l[n + 2] == le_u32(x)[2] && l[n
        + 3] == le_u32(x)[3]);
    assert(b[n] == be_u32(x)[0] && b[n + 1] == be_u32(x)[1] && b[n + 2] == be_u32(x)[2] && b[n
        + 3] == be_u32(x)[3]);
}

/// The two's complement pattern determines the signed value.
pub proof fn lemma_bits_roundtrip(x: i16, y: i32)
    ensures
        i16_of_bits(i16_bits(x)) == x,
        i32_of_bits(i32_bits(y)) == y,
{
}

/// Every pattern is the pattern of its signed value.
pub proof fn lemma_of_bits_roundtrip(u: u16, v: u32)
    ensures
        i16_bits(i16_of_bits(u)) == u,
        i32_bits(i32_of_bits(v)) == v,
{
}

/// The base-256 digits of a four-digit number are the digits it was made of.
pub proof fn lemma_digits(b0: int, b1: int, b2: int, b3: int)
    requires
        0 <= b0 < 256,
        0 <= b1 < 256,
        0 <= b2 < 256,
        0 <= b3 < 256,
    ensures
        ({
            let x = b0 + 0x100 * b1 + 0x1_0000 * b2 + 0x100_0000 * b3;
            &&& 0 <= x < 0x1_0000_0000
            &&& x % 256 == b0
            &&& (x / 0x100) % 256 == b1
            &&& (x / 0x1_0000) % 256 == b2
            &&& x / 0x100_0000 == b3
        }),
{
    let x = b0 + 0x100 * b1 + 0x1_0000 * b2 + 0x100_0000 * b3;
    let y = b1 + 0x100 * b2 + 0x1_0000 * b3;
    let z = b2 + 0x100 * b3;
    assert(x == 256 * y + b0);
    assert(x / 0x100 == y && x % 256 == b0);
    assert(y == 256 * z + b1);
    assert(y / 0x100 == z && y % 256 == b1);
    assert(z / 0x100 == b3 && z % 256 == b2);
    assert(x / 0x1_0000 == z) by {
        assert(x == 0x1_0000 * z + (b0 + 0x100 * b1));
    }
    assert(x / 0x100_0000 == b3) by {
        assert(x == 0x100_0000 * b3 + (b0 + 0x100 * b1 + 0x1_0000 * b2));
    }
}

/// The bytes read at `at` re-encode to the four bytes that stand there.
pub proof fn lemma_u32_reencode(s: Seq<u8>, at: int)
    requires
        0 <= at,
        at + 4 <= s.len(),
    ensures
        le_u32(u32_le_at(s, at)) == s.subrange(at, at + 4),
        be_u32(u32_be_at(s, at)) == s.subrange(at, at + 4),
{
    lemma_digits(s[at] as int, s[at + 1] as int, s[at + 2] as int, s[at + 3] as int);
    lemma_digits(s[at + 3] as int, s[at + 2] as int, s[at + 1] as int, s[at] as int);
    assert(le_u32(u32_le_at(s, at)) =~= s.subrange(at, at + 4));
    assert(be_u32(u32_be_at(s, at)) =~= s.subrange(at, at + 4));
}

/// The bytes read at `at` re-encode to the two bytes that stand there.
pub proof fn lemma_u16_reencode(s: Seq<u8>, at: int)
    requires
        0 <= at,
        at + 2 <= s.len(),
    ensures
        le_u16(u16_le_at(s, at)) == s.subrange(at, at + 2),
        be_u16(u16_be_at(s, at)) == s.subrange(at, at + 2),
{
    assert(le_u16(u16_le_at(s, at)) =~= s.subrange(at, at + 2));
    assert(be_u16(u16_be_at(s, at)) =~= s.subrange(at, at + 2));
}

/// The two's complement pattern of `x`.
pub fn bits_of_i16(x: i16) -> (u: u16)
    ensures
        u == i16_bits(x),
{
    if x >= 0 {
        x as u16
    } else {
        (x as i32 + 0x1_0000) as u16
    }
}

/// The signed value of the pattern `u`.
pub fn i16_from_bits(u: u16) -> (x: i16)
    ensures
        x == i16_of_bits(u),
{
    if u < 0x8000 {
        u as i16
    } else {
        (u as i32 - 0x1_0000) as i16
    }
}

/// The two's complement pattern of `x`.
pub fn bits_of_i32(x: i32) -> (u: u32)
    ensures
        u == i32_bits(x),
{
    if x >= 0 {
        x as u32
    } else {
        (x as i64 + 0x1_0000_0000) as u32
    }
}

/// The signed value of the pattern `u`.
pub fn i32_from_bits(u: u32) -> (x: i32)
    ensures
        x == i32_of_bits(u),
{
    if u < 0x8000_0000 {
        u as i32
    } else {
        (u as i64 - 0x1_0000_0000) as i32
    }
}

/// Appends one byte.
pub fn push_u8(buf: &mut Vec<u8>, x: u8)
    ensures
        final(buf)@ == old(buf)@ + seq![x],
{
    buf.push(x);
    assert(buf@ =~= old(buf)@ + seq![x]);
}

/// Appends `x` in little-endian byte order.
pub fn push_u16_le(buf: &mut Vec<u8>, x: u16)
    ensures
        final(buf)@ == old(buf)@ + le_u16(x),
{
    buf.push((x % 256) as u8);
    buf.push((x / 256) as u8);
    assert(buf@ =~= old(buf)@ + le_u16(x));
}

/// Appends `x` in big-endian byte order.
pub fn push_u16_be(buf: &mut Vec<u8>, x: u16)
    ensures
        final(buf)@ == old(buf)@ + be_u16(x),
{
    buf.push((x / 256) as u8);
    buf.push((x % 256) as u8);
    assert(buf@ =~= old(buf)@ + be_u16(x));
}

/// Appends `x` in little-endian byte order.
pub fn push_u32_le(buf: &mut Vec<u8>, x: u32)
    ensures
        final(buf)@ == old(buf)@ + le_u32(x),
{
    buf.push((x % 256) as u8);
    buf.push(((x / 0x100) % 256) as u8);
    buf.push(((x / 0x1_0000) % 256) as u8);
    buf.push((x / 0x100_0000) as u8);
    assert(buf@ =~= old(buf)@ + le_u32(x));
}

/// Appends `x` in big-endian byte order.
pub fn push_u32_be(buf: &mut Vec<u8>, x: u32)
    ensures
        final(buf)@ == old(buf)@ + be_u32(x),
{
    buf.push((x / 0x100_0000) as u8);
    buf.push(((x / 0x1_0000) % 256) as u8);
    buf.push(((x / 0x100) % 256) as u8);
    buf.push((x % 256) as u8);
    assert(buf@ =~= old(buf)@ + be_u32(x));
}

/// Appends `x` as little-endian two's complement.
pub fn push_i16_le(buf: &mut Vec<u8>, x: i16)
    ensures
        final(buf)@ == old(buf)@ + le_i16(x),
{
    push_u16_le(buf, bits_of_i16(x));
}

/// Appends `x` as big-endian two's complement.
pub fn push_i16_be(buf: &mut Vec<u8>, x: i16)
    ensures
        final(buf)@ == old(buf)@ + be_i16(x),
{
    push_u16_be(buf, bits_of_i16(x));
}

/// Appends `x` as little-endian two's complement.
pub fn push_i32_le(buf: &mut Vec<u8>, x: i32)
    ensures
        final(buf)@ == old(buf)@ + le_i32(x),
{
    push_u32_le(buf, bits_of_i32(x));
}

/// Appends a copy of `src`.
pub fn push_all(buf: &mut Vec<u8>, src: &[u8])
    ensures
        final(buf)@ == old(buf)@ + src@,
{
    let mut i: usize = 0;
    while i < src.len()
        invariant
            i <= src.len(),
            buf@ == old(buf)@ + src@.subrange(0, i as int),
        decreases src.len() - i,
    {
        buf.push(src[i]);
        i += 1;
        assert(buf@ =~= old(buf)@ + src@.subrange(0, i as int));
    }
    assert(src@.subrange(0, src.len() as int) =~= src@);
}

/// Appends `count` copies of `x`.
pub fn push_repeat(buf: &mut Vec<u8>, x: u8, count: usize)
    ensures
        final(buf)@ == old(buf)@ + Seq::new(count as nat, |i: int| x),
{
    let mut i: usize = 0;
    while i < count
        invariant
            i <= count,
            buf@ == old(buf)@ + Seq::new(i as nat, |j: int| x),
        decreases count - i,
    {
        buf.push(x);
        i += 1;
        assert(buf@ =~= old(buf)@ + Seq::new(i as nat, |j: int| x));
    }
}

/// The little-endian value that starts at `at`.
pub fn read_u16_le(src: &[u8], at: usize) -> (x: u16)
    requires
        at + 2 <= src.len(),
    ensures
        x == u16_le_at(src@, at as int),
{
    src[at] as u16 + 256 * (src[at + 1] as u16)
}

/// The big-endian value that starts at `at`.
pub fn read_u16_be(src: &[u8], at: usize) -> (x: u16)
    requires
        at + 2 <= src.len(),
    ensures
        x == u16_be_at(src@, at as int),
{
    256 * (src[at] as u16) + src[at + 1] as u16
}

/// The little-endian value that starts at `at`.
pub fn read_u32_le(src: &[u8], at: usize) -> (x: u32)
    requires
        at + 4 <= src.len(),
    ensures
        x == u32_le_at(src@, at as int),
{
    src[at] as u32 + 0x100 * (src[at + 1] as u32) + 0x1_0000 * (src[at + 2] as u32) + 0x100_0000
        * (src[at + 3] as u32)
}

/// The big-endian value that starts at `at`.
pub fn read_u32_be(src: &[u8], at: usize) -> (x: u32)
    requires
        at + 4 <= src.len(),
    ensures
        x == u32_be_at(src@, at as int),
{
    0x100_0000 * (src[at] as u32) + 0x1_0000 * (src[at + 1] as u32) + 0x100 * (src[at + 2] as u32)
        + src[at + 3] as u32
}

/// The little-endian two's complement value that starts at `at`.
pub fn read_i32_le(src: &[u8], at: usize) -> (x: i32)
    requires
        at + 4 <= src.len(),
    ensures
        x == i32_le_at(src@, at as int),
{
    i32_from_bits(read_u32_le(src, at))
}

/// The big-endian two's complement value that starts at `at`.
pub fn read_i16_be(src: &[u8], at: usize) -> (x: i16)
    requires
        at + 2 <= src.len(),
    ensures
        x == i16_be_at(src@, at as int),
{
    i16_from_bits(read_u16_be(src, at))
}

/// The little-endian two's complement value that starts at `at`.
pub fn read_i16_le(src: &[u8], at: usize) -> (x: i16)
    requires
        at + 2 <= src.len(),
    ensures
        x == i16_of_bits(u16_le_at(src@, at as int)),
{
    i16_from_bits(read_u16_le(src, at))
}

} // verus!
