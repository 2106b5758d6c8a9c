//! Fixed-width big-endian integers, as bytes and back.

use vstd::arithmetic::div_mod::lemma_fundamental_div_mod_converse;
use vstd::prelude::*;

verus! {

/// The four bytes of `x`, most significant first.
#[verifier::opaque]
pub open spec fn be32(x: u32) -> Seq<u8> {
    seq![
        (x / 0x100_0000) as u8,
        (x / 0x1_0000 % 0x100) as u8,
        (x / 0x100 % 0x100) as u8,
        (x % 0x100) as u8,
    ]
}

/// The number whose big-endian bytes are the first four of `b`.
#[verifier::opaque]
pub open spec fn be32_value(b: Seq<u8>) -> u32 {
    (b[0] as int * 0x100_0000 + b[1] as int * 0x1_0000 + b[2] as int * 0x100 + b[3] as int) as u32
}

/// The eight bytes of `x`, most significant first.
#[verifier::opaque]
pub open spec fn be64(x: u64) -> Seq<u8> {
    be32((x / 0x1_0000_0000) as u32) + be32((x % 0x1_0000_0000) as u32)
}

/// The number whose big-endian bytes are the first eight of `b`.
#[verifier::opaque]
pub open spec fn be64_value(b: Seq<u8>) -> u64 {
    let high = be32_value(b.subrange(0, 4)) as int;
    let low = be32_value(b.subrange(4, 8)) as int;
    (high * 0x1_0000_0000 + low) as u64
}

/// The two's-complement bit pattern of `i`.
pub open spec fn int_bits(i: i32) -> u32 {
    if i >= 0 {
        i as u32
    } else {
        (i + 0x1_0000_0000) as u32
    }
}

/// The integer whose two's-complement bit pattern is `bits`.
pub open spec fn bits_int(bits: u32) -> i32 {
    if bits < 0x8000_0000 {
        bits as i32
    } else {
        (bits - 0x1_0000_0000) as i32
    }
}

/// Reading back the bytes of a 32-bit number gives the number.
pub proof fn lemma_be32_value(x: u32)
    ensures
        be32(x).len() == 4,
        be32_value(be32(x)) == x,
{
    reveal(be32);
    reveal(be32_value);
}

/// Four bytes are the bytes of the number they spell.
pub proof fn lemma_be32_bytes(b: Seq<u8>)
    requires
        b.len() == 4,
    ensures
        be32(be32_value(b)) == b,
{
    reveal(be32);
    reveal(be32_value);
    let b0 = b[0] as int;
    let b1 = b[1] as int;
    let b2 = b[2] as int;
    let b3 = b[3] as int;
    let x = be32_value(b) as int;
    assert(x == b0 * 0x100_0000 + b1 * 0x1_0000 + b2 * 0x100 + b3);
    lemma_fundamental_div_mod_converse(x, 0x100, b0 * 0x1_0000 + b1 * 0x100 + b2, b3);
    lemma_fundamental_div_mod_converse(x / 0x100, 0x100, b0 * 0x100 + b1, b2);
    lemma_fundamental_div_mod_converse(x / 0x1_0000, 0x100, b0, b1);
    assert(x / 0x100 / 0x100 == x / 0x1_0000);
    assert(x / 0x1_0000 / 0x100 == x / 0x100_0000);
    assert(be32(be32_value(b)) =~= b);
}

/// Reading back the bytes of a 64-bit number gives the number.
pub proof fn lemma_be64_value(x: u64)
    ensures
        be64(x).len() == 8,
        be64_value(be64(x)) == x,
{
    reveal(be64);
    reveal(be64_value);
    let hi = (x / 0x1_0000_0000) as u32;
    let lo = (x % 0x1_0000_0000) as u32;
    lemma_be32_value(hi);
    lemma_be32_value(lo);
    assert(be64(x).subrange(0, 4) =~= be32(hi));
    assert(be64(x).subrange(4, 8) =~= be32(lo));
}

/// Eight bytes are the bytes of the number they spell.
pub proof fn lemma_be64_bytes(b: Seq<u8>)
    requires
        b.len() == 8,
    ensures
        be64(be64_value(b)) == b,
{
    reveal(be64);
    reveal(be64_value);
    let hi = be32_value(b.subrange(0, 4));
    let lo = be32_value(b.subrange(4, 8));
    lemma_be32_bytes(b.subrange(0, 4));
    lemma_be32_bytes(b.subrange(4, 8));
    lemma_fundamental_div_mod_converse(be64_value(b) as int, 0x1_0000_0000, hi as int, lo as int);
    assert(be64(be64_value(b)) =~= b.subrange(0, 4) + b.subrange(4, 8));
    assert(b.subrange(0, 4) + b.subrange(4, 8) =~= b);
}

/// An integer and its bit pattern determine each other.
pub proof fn lemma_int_bits(i: i32, bits: u32)
    ensures
        bits_int(int_bits(i)) == i,
        int_bits(bits_int(bits)) == bits,
{
}

/// The bit pattern of `i`, computed.
pub fn to_bits(i: i32) -> (bits: u32)
    ensures
        bits == int_bits(i),
{
    if i >= 0 {
        i as u32
    } else {
        (i as i64 + 0x1_0000_0000) as u32
    }
}

/// The integer with the bit pattern `bits`, computed.
pub fn from_bits(bits: u32) -> (i: i32)
    ensures
        i == bits_int(bits),
{
    if bits < 0x8000_0000 {
        bits as i32
    } else {
        (bits as i64 - 0x1_0000_0000) as i32
    }
}

/// Appends the four bytes of `x` to `out`.
pub fn put_u32(out: &mut Vec<u8>, x: u32)
    ensures
        final(out)@ == old(out)@ + be32(x),
{
    out.push((x / 0x100_0000) as u8);
    out.push((x / 0x1_0000 % 0x100) as u8);
    out.push((x / 0x100 % 0x100) as u8);
    out.push((x % 0x100) as u8);
    proof {
        reveal(be32);
    }
    assert(out@ =~= old(out)@ + be32(x));
}

/// Appends the eight bytes of `x` to `out`.
pub fn put_u64(out: &mut Vec<u8>, x: u64)
    ensures
        final(out)@ == old(out)@ + be64(x),
{
    put_u32(out, (x / 0x1_0000_0000) as u32);
    put_u32(out, (x % 0x1_0000_0000) as u32);
    proof {
        reveal(be64);
    }
    assert(out@ =~= old(out)@ + be64(x));
}

/// Reads the 32-bit number that starts at `pos`.
pub fn get_u32(b: &[u8], pos: usize) -> (x: u32)
    requires
        pos + 4 <= b@.len(),
    ensures
        x == be32_value(b@.subrange(pos as int, pos + 4)),
{
    let b0: u32 = b[pos] as u32;
    let b1: u32 = b[pos + 1] as u32;
    let b2: u32 = b[pos + 2] as u32;
    let b3: u32 = b[pos + 3] as u32;
    proof {
        reveal(be32_value);
    }
    b0 * 0x100_0000 + b1 * 0x1_0000 + b2 * 0x100 + b3
}

/// Reads the 64-bit number that starts at `pos`.
pub fn get_u64(b: &[u8], pos: usize) -> (x: u64)
    requires
        pos + 8 <= b@.len(),
    ensures
        x == be64_value(b@.subrange(pos as int, pos + 8)),
{
    let len = b.len();
    assert(pos + 8 <= len);
    let hi: u64 = get_u32(b, pos) as u64;
    let lo: u64 = get_u32(b, pos + 4) as u64;
    proof {
        reveal(be64_value);
        let s = b@.subrange(pos as int, pos + 8);
        assert(s.subrange(0, 4) =~= b@.subrange(pos as int, pos + 4));
        assert(s.subrange(4, 8) =~= b@.subrange(pos + 4, pos + 8));
    }
    hi * 0x1_0000_0000 + lo
}

} // verus!
