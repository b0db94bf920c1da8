//! Big-endian integers: what a run of bytes means as a number, and the
//! executable conversions, which `byteorder` performs.

use byteorder::{BigEndian, ByteOrder};
use vstd::prelude::*;

verus! {

/// The unsigned number that the first four bytes of `b` spell, most
/// significant byte first.
pub open spec fn be_u32(b: Seq<u8>) -> u32
    recommends
        b.len() >= 4,
{
    (b[0] * 0x100_0000 + b[1] * 0x1_0000 + b[2] * 0x100 + b[3]) as u32
}

/// The unsigned number that the first eight bytes of `b` spell, most
/// significant byte first.
pub open spec fn be_u64(b: Seq<u8>) -> u64
    recommends
        b.len() >= 8,
{
    (be_u32(b) * 0x1_0000_0000 + be_u32(b.skip(4))) as u64
}

/// The two's complement reading of a 32-bit pattern.
pub open spec fn signed32(v: u32) -> i32 {
    if v < 0x8000_0000 {
        v as i32
    } else {
        (v - 0x1_0000_0000) as i32
    }
}

/// The signed number that the first four bytes of `b` spell, most
/// significant byte first, in two's complement.
pub open spec fn be_i32(b: Seq<u8>) -> i32
    recommends
        b.len() >= 4,
{
    signed32(be_u32(b))
}

/// The four bytes that spell `v`, most significant first.
pub open spec fn u32_be_bytes(v: u32) -> Seq<u8> {
    seq![
        (v / 0x100_0000) as u8,
        (v / 0x1_0000 % 0x100) as u8,
        (v / 0x100 % 0x100) as u8,
        (v % 0x100) as u8,
    ]
}

/// The eight bytes that spell `v`, most significant first.
pub open spec fn u64_be_bytes(v: u64) -> Seq<u8> {
    u32_be_bytes((v / 0x1_0000_0000) as u32) + u32_be_bytes((v % 0x1_0000_0000) as u32)
}

/// The 32-bit pattern that stands for `v` in two's complement.
pub open spec fn unsigned32(v: i32) -> u32 {
    if v >= 0 {
        v as u32
    } else {
        (v + 0x1_0000_0000) as u32
    }
}

/// The four bytes that spell `v` in two's complement, most significant first.
pub open spec fn i32_be_bytes(v: i32) -> Seq<u8> {
    u32_be_bytes(unsigned32(v))
}

/// Reading back the bytes that spell a 32-bit number gives the number,
/// whatever follows them.
pub proof fn lemma_u32_round_trip(v: u32, rest: Seq<u8>)
    ensures
        u32_be_bytes(v).len() == 4,
        be_u32(u32_be_bytes(v) + rest) == v,
{
}

/// Reading back the bytes that spell a signed 32-bit number gives the number,
/// whatever follows them.
pub proof fn lemma_i32_round_trip(v: i32, rest: Seq<u8>)
    ensures
        i32_be_bytes(v).len() == 4,
        be_i32(i32_be_bytes(v) + rest) == v,
{
    lemma_u32_round_trip(unsigned32(v), rest);
}

/// Reading back the bytes that spell a 64-bit number gives the number,
/// whatever follows them.
pub proof fn lemma_u64_round_trip(v: u64, rest: Seq<u8>)
    ensures
        u64_be_bytes(v).len() == 8,
        be_u64(u64_be_bytes(v) + rest) == v,
{
    let hi = (v / 0x1_0000_0000) as u32;
    let lo = (v % 0x1_0000_0000) as u32;
    let all = u64_be_bytes(v) + rest;
    lemma_u32_round_trip(hi, u32_be_bytes(lo) + rest);
    lemma_u32_round_trip(lo, rest);
    assert(all =~= u32_be_bytes(hi) + (u32_be_bytes(lo) + rest));
    assert(all.skip(4) =~= u32_be_bytes(lo) + rest);
}

/// `byteorder::BigEndian::read_u32`: the number that the first four bytes of
/// `buf` spell, most significant byte first. It panics on a shorter buffer.
#[verifier::external_body]
pub(crate) fn read_u32(buf: &[u8]) -> (v: u32)
    requires
        buf@.len() >= 4,
    ensures
        v == be_u32(buf@),
{
    BigEndian::read_u32(buf)
}

/// `byteorder::BigEndian::read_i32`: the first four bytes of `buf` read as a
/// big-endian number in two's complement. It panics on a shorter buffer.
#[verifier::external_body]
pub(crate) fn read_i32(buf: &[u8]) -> (v: i32)
    requires
        buf@.len() >= 4,
    ensures
        v == be_i32(buf@),
{
    BigEndian::read_i32(buf)
}

/// `byteorder::BigEndian::read_u64`: the number that the first eight bytes of
/// `buf` spell, most significant byte first. It panics on a shorter buffer.
#[verifier::external_body]
pub(crate) fn read_u64(buf: &[u8]) -> (v: u64)
    requires
        buf@.len() >= 8,
    ensures
        v == be_u64(buf@),
{
    BigEndian::read_u64(buf)
}

} // verus!
