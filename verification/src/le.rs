//! Little-endian integers in byte sequences.
use vstd::prelude::*;

verus! {

/// The number that the bytes `s` stand for, least significant byte first.
pub open spec fn le_nat(s: Seq<u8>) -> nat
    decreases s.len(),
{
    if s.len() == 0 {
        0
    } else {
        (s[0] + 256 * le_nat(s.drop_first())) as nat
    }
}

/// The 32-bit number stored little-endian at `b[at..at + 4]`.
pub open spec fn le_u32(b: Seq<u8>, at: int) -> u32 {
    (b[at] as u32) | (b[at + 1] as u32) << 8u32 | (b[at + 2] as u32) << 16u32 | (b[at + 3] as u32)
        << 24u32
}

/// The 64-bit number stored little-endian at `b[at..at + 8]`.
pub open spec fn le_u64(b: Seq<u8>, at: int) -> u64 {
    (b[at] as u64) | (b[at + 1] as u64) << 8u64 | (b[at + 2] as u64) << 16u64 | (b[at + 3] as u64)
        << 24u64 | (b[at + 4] as u64) << 32u64 | (b[at + 5] as u64) << 40u64 | (b[at + 6] as u64)
        << 48u64 | (b[at + 7] as u64) << 56u64
}

/// The little-endian bytes of `x`.
pub open spec fn u32_le(x: u32) -> Seq<u8> {
    seq![
        (x & 0xff) as u8,
        ((x >> 8u32) & 0xff) as u8,
        ((x >> 16u32) & 0xff) as u8,
        ((x >> 24u32) & 0xff) as u8,
    ]
}

/// The little-endian bytes of `x`.
pub open spec fn u64_le(x: u64) -> Seq<u8> {
    seq![
        (x & 0xff) as u8,
        ((x >> 8u64) & 0xff) as u8,
        ((x >> 16u64) & 0xff) as u8,
        ((x >> 24u64) & 0xff) as u8,
        ((x >> 32u64) & 0xff) as u8,
        ((x >> 40u64) & 0xff) as u8,
        ((x >> 48u64) & 0xff) as u8,
        ((x >> 56u64) & 0xff) as u8,
    ]
}

/// Reads the 32-bit number stored little-endian at `b[at..at + 4]`.
pub fn read_u32(b: &[u8], at: usize) -> (r: u32)
    requires
        at + 4 <= b@.len(),
    ensures
        r == le_u32(b@, at as int),
{
    (b[at] as u32) | (b[at + 1] as u32) << 8u32 | (b[at + 2] as u32) << 16u32 | (b[at + 3] as u32)
        << 24u32
}

/// Reads the 64-bit number stored little-endian at `b[at..at + 8]`.
pub fn read_u64(b: &[u8], at: usize) -> (r: u64)
    requires
        at + 8 <= b@.len(),
    ensures
        r == le_u64(b@, at as int),
{
    (b[at] as u64) | (b[at + 1] as u64) << 8u64 | (b[at + 2] as u64) << 16u64 | (b[at + 3] as u64)
        << 24u64 | (b[at + 4] as u64) << 32u64 | (b[at + 5] as u64) << 40u64 | (b[at + 6] as u64)
        << 48u64 | (b[at + 7] as u64) << 56u64
}

/// Appends the little-endian bytes of `x`.
pub fn push_u32(out: &mut Vec<u8>, x: u32)
    ensures
        final(out)@ == old(out)@ + u32_le(x),
{
    out.push((x & 0xff) as u8);
    out.push(((x >> 8u32) & 0xff) as u8);
    out.push(((x >> 16u32) & 0xff) as u8);
    out.push(((x >> 24u32) & 0xff) as u8);
    assert(out@ =~= old(out)@ + u32_le(x));
}

/// Appends the little-endian bytes of `x`.
pub fn push_u64(out: &mut Vec<u8>, x: u64)
    ensures
        final(out)@ == old(out)@ + u64_le(x),
{
    out.push((x & 0xff) as u8);
    out.push(((x >> 8u64) & 0xff) as u8);
    out.push(((x >> 16u64) & 0xff) as u8);
    out.push(((x >> 24u64) & 0xff) as u8);
    out.push(((x >> 32u64) & 0xff) as u8);
    out.push(((x >> 40u64) & 0xff) as u8);
    out.push(((x >> 48u64) & 0xff) as u8);
    out.push(((x >> 56u64) & 0xff) as u8);
    assert(out@ =~= old(out)@ + u64_le(x));
}

/// The stored number is what the four bytes stand for.
pub proof fn lemma_le_u32_value(b: Seq<u8>, at: int)
    requires
        0 <= at,
        at + 4 <= b.len(),
    ensures
        le_u32(b, at) as nat == le_nat(b.subrange(at, at + 4)),
{
    let s = b.subrange(at, at + 4);
    reveal_with_fuel(le_nat, 5);
    assert(s.drop_first().drop_first().drop_first().drop_first().len() == 0);
    let b0 = b[at] as u32;
    let b1 = b[at + 1] as u32;
    let b2 = b[at + 2] as u32;
    let b3 = b[at + 3] as u32;
    assert(s[0] == b[at] && s.drop_first()[0] == b[at + 1] && s.drop_first().drop_first()[0] == b[at
        + 2] && s.drop_first().drop_first().drop_first()[0] == b[at + 3]);
    assert((b0 | b1 << 8u32 | b2 << 16u32 | b3 << 24u32) as int == b0 + 256 * (b1 + 256 * (b2 + 256
        * b3))) by (bit_vector)
        requires
            b0 < 256,
            b1 < 256,
            b2 < 256,
            b3 < 256,
    ;
}

/// The stored number is what the eight bytes stand for.
pub proof fn lemma_le_u64_value(b: Seq<u8>, at: int)
    requires
        0 <= at,
        at + 8 <= b.len(),
    ensures
        le_u64(b, at) as nat == le_nat(b.subrange(at, at + 8)),
{
    let s = b.subrange(at, at + 8);
    reveal_with_fuel(le_nat, 9);
    let s1 = s.drop_first();
    let s2 = s1.drop_first();
    let s3 = s2.drop_first();
    let s4 = s3.drop_first();
    let s5 = s4.drop_first();
    let s6 = s5.drop_first();
    let s7 = s6.drop_first();
    assert(s7.drop_first().len() == 0);
    let b0 = b[at] as u64;
    let b1 = b[at + 1] as u64;
    let b2 = b[at + 2] as u64;
    let b3 = b[at + 3] as u64;
    let b4 = b[at + 4] as u64;
    let b5 = b[at + 5] as u64;
    let b6 = b[at + 6] as u64;
    let b7 = b[at + 7] as u64;
    assert(s[0] == b[at] && s1[0] == b[at + 1] && s2[0] == b[at + 2] && s3[0] == b[at + 3] && s4[0]
        == b[at + 4] && s5[0] == b[at + 5] && s6[0] == b[at + 6] && s7[0] == b[at + 7]);
    assert((b0 | b1 << 8u64 | b2 << 16u64 | b3 << 24u64 | b4 << 32u64 | b5 << 40u64 | b6 << 48u64
        | b7 << 56u64) as int == b0 + 256 * (b1 + 256 * (b2 + 256 * (b3 + 256 * (b4 + 256 * (b5
        + 256 * (b6 + 256 * b7))))))) by (bit_vector)
        requires
            b0 < 256,
            b1 < 256,
            b2 < 256,
            b3 < 256,
            b4 < 256,
            b5 < 256,
            b6 < 256,
            b7 < 256,
    ;
}

/// The bytes of `x` stand for `x`.
pub proof fn lemma_u32_le_value(x: u32)
    ensures
        u32_le(x).len() == 4,
        le_nat(u32_le(x)) == x,
        le_u32(u32_le(x), 0) == x,
{
    let s = u32_le(x);
    let b0 = x & 0xff;
    let b1 = (x >> 8u32) & 0xff;
    let b2 = (x >> 16u32) & 0xff;
    let b3 = (x >> 24u32) & 0xff;
    assert(b0 < 256 && b1 < 256 && b2 < 256 && b3 < 256) by (bit_vector)
        requires
            b0 == x & 0xff,
            b1 == (x >> 8u32) & 0xff,
            b2 == (x >> 16u32) & 0xff,
            b3 == (x >> 24u32) & 0xff,
    ;
    assert(x == (b0 | b1 << 8u32 | b2 << 16u32 | b3 << 24u32)) by (bit_vector)
        requires
            b0 == x & 0xff,
            b1 == (x >> 8u32) & 0xff,
            b2 == (x >> 16u32) & 0xff,
            b3 == (x >> 24u32) & 0xff,
    ;
    assert(s[0] as u32 == b0 && s[1] as u32 == b1 && s[2] as u32 == b2 && s[3] as u32 == b3);
    lemma_le_u32_value(s, 0);
    assert(s.subrange(0, 4) =~= s);
}

/// The bytes of `x` stand for `x`.
pub proof fn lemma_u64_le_value(x: u64)
    ensures
        u64_le(x).len() == 8,
        le_nat(u64_le(x)) == x,
        le_u64(u64_le(x), 0) == x,
{
    let s = u64_le(x);
    let b0 = x & 0xff;
    let b1 = (x >> 8u64) & 0xff;
    let b2 = (x >> 16u64) & 0xff;
    let b3 = (x >> 24u64) & 0xff;
    let b4 = (x >> 32u64) & 0xff;
    let b5 = (x >> 40u64) & 0xff;
    let b6 = (x >> 48u64) & 0xff;
    let b7 = (x >> 56u64) & 0xff;
    assert(b0 < 256 && b1 < 256 && b2 < 256 && b3 < 256 && b4 < 256 && b5 < 256 && b6 < 256 && b7
        < 256) by (bit_vector)
        requires
            b0 == x & 0xff,
            b1 == (x >> 8u64) & 0xff,
            b2 == (x >> 16u64) & 0xff,
            b3 == (x >> 24u64) & 0xff,
            b4 == (x >> 32u64) & 0xff,
            b5 == (x >> 40u64) & 0xff,
            b6 == (x >> 48u64) & 0xff,
            b7 == (x >> 56u64) & 0xff,
    ;
    assert(x == (b0 | b1 << 8u64 | b2 << 16u64 | b3 << 24u64 | b4 << 32u64 | b5 << 40u64 | b6
        << 48u64 | b7 << 56u64)) by (bit_vector)
        requires
            b0 == x & 0xff,
            b1 == (x >> 8u64) & 0xff,
            b2 == (x >> 16u64) & 0xff,
            b3 == (x >> 24u64) & 0xff,
            b4 == (x >> 32u64) & 0xff,
            b5 == (x >> 40u64) & 0xff,
            b6 == (x >> 48u64) & 0xff,
            b7 == (x >> 56u64) & 0xff,
    ;
    assert(s[0] as u64 == b0 && s[1] as u64 == b1 && s[2] as u64 == b2 && s[3] as u64 == b3 && s[4]
        as u64 == b4 && s[5] as u64 == b5 && s[6] as u64 == b6 && s[7] as u64 == b7);
    lemma_le_u64_value(s, 0);
    assert(s.subrange(0, 8) =~= s);
}

/// Numbers are stored where they are put: reading at `at` gives `x` when the bytes
/// there are those of `x`.
pub proof fn lemma_read_u32_at(b: Seq<u8>, at: int, x: u32)
    requires
        0 <= at,
        at + 4 <= b.len(),
        b.subrange(at, at + 4) == u32_le(x),
    ensures
        le_u32(b, at) == x,
{
    lemma_u32_le_value(x);
    let s = u32_le(x);
    assert(b[at] == s[0] && b[at + 1] == s[1] && b[at + 2] == s[2] && b[at + 3] == s[3]);
}

/// Numbers are stored where they are put: reading at `at` gives `x` when the bytes
/// there are those of `x`.
pub proof fn lemma_read_u64_at(b: Seq<u8>, at: int, x: u64)
    requires
        0 <= at,
        at + 8 <= b.len(),
        b.subrange(at, at + 8) == u64_le(x),
    ensures
        le_u64(b, at) == x,
{
    lemma_u64_le_value(x);
    let s = u64_le(x);
    assert(b[at] == s[0] && b[at + 1] == s[1] && b[at + 2] == s[2] && b[at + 3] == s[3] && b[at + 4]
        == s[4] && b[at + 5] == s[5] && b[at + 6] == s[6] && b[at + 7] == s[7]);
}

} // verus!
