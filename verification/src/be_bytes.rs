//! Big-endian byte encodings of the fixed-width integers that travel on the
//! wire. Every frame field is written most-significant byte first; these
//! helpers give the encoding as a spec-level sequence, the exec writers and
//! readers proved against it, and the round-trip lemmas the codec builds on.

use vstd::prelude::*;

verus! {

/// Big-endian bytes of a `u32`, most significant first.
pub open spec fn spec_be32(x: u32) -> Seq<u8> {
    seq![
        ((x >> 24) & 0xff) as u8,
        ((x >> 16) & 0xff) as u8,
        ((x >> 8) & 0xff) as u8,
        (x & 0xff) as u8,
    ]
}

/// The `u32` read from four big-endian bytes.
pub open spec fn spec_read_be32(s: Seq<u8>) -> u32
    recommends
        s.len() == 4,
{
    ((s[0] as u32) << 24) | ((s[1] as u32) << 16) | ((s[2] as u32) << 8) | (s[3] as u32)
}

/// Reading back the four big-endian bytes of `x` yields `x` again.
pub proof fn lemma_be32_round_trip(x: u32)
    ensures
        spec_be32(x).len() == 4,
        spec_read_be32(spec_be32(x)) == x,
{
    let b0 = ((x >> 24) & 0xff) as u8;
    let b1 = ((x >> 16) & 0xff) as u8;
    let b2 = ((x >> 8) & 0xff) as u8;
    let b3 = (x & 0xff) as u8;
    assert(((b0 as u32) << 24) | ((b1 as u32) << 16) | ((b2 as u32) << 8) | (b3 as u32) == x)
        by (bit_vector)
        requires
            b0 == ((x >> 24) & 0xff) as u8,
            b1 == ((x >> 16) & 0xff) as u8,
            b2 == ((x >> 8) & 0xff) as u8,
            b3 == (x & 0xff) as u8,
    ;
}

/// Big-endian bytes of a `u64`, most significant first.
pub open spec fn spec_be64(x: u64) -> Seq<u8> {
    spec_be32(((x >> 32) & 0xffff_ffff) as u32) + spec_be32((x & 0xffff_ffff) as u32)
}

/// The `u64` read from eight big-endian bytes.
pub open spec fn spec_read_be64(s: Seq<u8>) -> u64
    recommends
        s.len() == 8,
{
    ((spec_read_be32(s.subrange(0, 4)) as u64) << 32) | (spec_read_be32(
        s.subrange(4, 8),
    ) as u64)
}

/// Reading back the eight big-endian bytes of `x` yields `x` again.
pub proof fn lemma_be64_round_trip(x: u64)
    ensures
        spec_be64(x).len() == 8,
        spec_read_be64(spec_be64(x)) == x,
{
    let hi = ((x >> 32) & 0xffff_ffff) as u32;
    let lo = (x & 0xffff_ffff) as u32;
    lemma_be32_round_trip(hi);
    lemma_be32_round_trip(lo);
    assert(spec_be64(x).subrange(0, 4) =~= spec_be32(hi));
    assert(spec_be64(x).subrange(4, 8) =~= spec_be32(lo));
    assert(((hi as u64) << 32) | (lo as u64) == x) by (bit_vector)
        requires
            hi == ((x >> 32) & 0xffff_ffff) as u32,
            lo == (x & 0xffff_ffff) as u32,
    ;
}

/// Big-endian bytes of a `u128`, most significant first.
pub open spec fn spec_be128(x: u128) -> Seq<u8> {
    spec_be64(((x >> 64) & 0xffff_ffff_ffff_ffff) as u64) + spec_be64(
        (x & 0xffff_ffff_ffff_ffff) as u64,
    )
}

/// The `u128` read from sixteen big-endian bytes.
pub open spec fn spec_read_be128(s: Seq<u8>) -> u128
    recommends
        s.len() == 16,
{
    ((spec_read_be64(s.subrange(0, 8)) as u128) << 64) | (spec_read_be64(
        s.subrange(8, 16),
    ) as u128)
}

/// Reading back the sixteen big-endian bytes of `x` yields `x` again.
pub proof fn lemma_be128_round_trip(x: u128)
    ensures
        spec_be128(x).len() == 16,
        spec_read_be128(spec_be128(x)) == x,
{
    let hi = ((x >> 64) & 0xffff_ffff_ffff_ffff) as u64;
    let lo = (x & 0xffff_ffff_ffff_ffff) as u64;
    lemma_be64_round_trip(hi);
    lemma_be64_round_trip(lo);
    assert(spec_be128(x).subrange(0, 8) =~= spec_be64(hi));
    assert(spec_be128(x).subrange(8, 16) =~= spec_be64(lo));
    assert(((hi as u128) << 64) | (lo as u128) == x) by (bit_vector)
        requires
            hi == ((x >> 64) & 0xffff_ffff_ffff_ffff) as u64,
            lo == (x & 0xffff_ffff_ffff_ffff) as u64,
    ;
}

/// An `i64` travels as its two's-complement image in a `u64`; casting back
/// restores the value.
pub proof fn lemma_i64_as_u64_round_trip(x: i64)
    ensures
        (x as u64) as i64 == x,
{
    assert((x as u64) as i64 == x) by (bit_vector);
}

/// An `i32` travels as its two's-complement image in a `u32`; casting back
/// restores the value.
pub proof fn lemma_i32_as_u32_round_trip(x: i32)
    ensures
        (x as u32) as i32 == x,
{
    assert((x as u32) as i32 == x) by (bit_vector);
}

/// Appends the four big-endian bytes of `x` to `buf`.
pub fn put_be32(buf: &mut Vec<u8>, x: u32)
    ensures
        final(buf)@ == old(buf)@ + spec_be32(x),
{
    buf.push(((x >> 24) & 0xff) as u8);
    buf.push(((x >> 16) & 0xff) as u8);
    buf.push(((x >> 8) & 0xff) as u8);
    buf.push((x & 0xff) as u8);
    assert(buf@ =~= old(buf)@ + spec_be32(x));
}

/// Appends the eight big-endian bytes of `x` to `buf`.
pub fn put_be64(buf: &mut Vec<u8>, x: u64)
    ensures
        final(buf)@ == old(buf)@ + spec_be64(x),
{
    put_be32(buf, ((x >> 32) & 0xffff_ffff) as u32);
    put_be32(buf, (x & 0xffff_ffff) as u32);
    assert(buf@ =~= old(buf)@ + spec_be64(x));
}

/// Appends the sixteen big-endian bytes of `x` to `buf`.
pub fn put_be128(buf: &mut Vec<u8>, x: u128)
    ensures
        final(buf)@ == old(buf)@ + spec_be128(x),
{
    put_be64(buf, ((x >> 64) & 0xffff_ffff_ffff_ffff) as u64);
    put_be64(buf, (x & 0xffff_ffff_ffff_ffff) as u64);
    assert(buf@ =~= old(buf)@ + spec_be128(x));
}

/// Reads the big-endian `u32` that starts at `i`.
pub fn get_be32(buf: &[u8], i: usize) -> (x: u32)
    requires
        i + 4 <= buf@.len(),
    ensures
        x == spec_read_be32(buf@.subrange(i as int, i as int + 4)),
{
    let b0 = buf[i];
    let b1 = buf[i + 1];
    let b2 = buf[i + 2];
    let b3 = buf[i + 3];
    let x = ((b0 as u32) << 24) | ((b1 as u32) << 16) | ((b2 as u32) << 8) | (b3 as u32);
    proof {
        let s = buf@.subrange(i as int, i as int + 4);
        assert(s[0] == b0 && s[1] == b1 && s[2] == b2 && s[3] == b3);
    }
    x
}

/// Reads the big-endian `u64` that starts at `i`.
pub fn get_be64(buf: &[u8], i: usize) -> (x: u64)
    requires
        i + 8 <= buf@.len(),
    ensures
        x == spec_read_be64(buf@.subrange(i as int, i as int + 8)),
{
    let n = buf.len();
    let hi = get_be32(buf, i);
    let lo = get_be32(buf, i + 4);
    proof {
        let s = buf@.subrange(i as int, i as int + 8);
        assert(s.subrange(0, 4) =~= buf@.subrange(i as int, i as int + 4));
        assert(s.subrange(4, 8) =~= buf@.subrange(i as int + 4, i as int + 8));
    }
    ((hi as u64) << 32) | (lo as u64)
}

/// Reads the big-endian `u128` that starts at `i`.
pub fn get_be128(buf: &[u8], i: usize) -> (x: u128)
    requires
        i + 16 <= buf@.len(),
    ensures
        x == spec_read_be128(buf@.subrange(i as int, i as int + 16)),
{
    let n = buf.len();
    let hi = get_be64(buf, i);
    let lo = get_be64(buf, i + 8);
    proof {
        let s = buf@.subrange(i as int, i as int + 16);
        assert(s.subrange(0, 8) =~= buf@.subrange(i as int, i as int + 8));
        assert(s.subrange(8, 16) =~= buf@.subrange(i as int + 8, i as int + 16));
    }
    ((hi as u128) << 64) | (lo as u128)
}

} // verus!
