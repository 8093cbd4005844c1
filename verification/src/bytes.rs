//! Executable big-endian conversion, proved against the model in `wire`.

use crate::wire::{be_bytes, be_value, lemma_be_bytes_split, pattern_of, pow256, signed_of};
use vstd::prelude::*;

verus! {

/// The two bytes of `v`, most significant first.
pub(crate) fn be_u16(v: u16) -> (out: Vec<u8>)
    ensures
        out@ == be_bytes(v as nat, 2),
{
    let b0: u8 = (v >> 8) as u8;
    let b1: u8 = (v & 0xff) as u8;
    proof {
        assert((v >> 8) == v / 256 && (v & 0xff) == v % 256) by (bit_vector);
        reveal_with_fuel(be_bytes, 3);
    }
    let mut out: Vec<u8> = Vec::new();
    out.push(b0);
    out.push(b1);
    assert(out@ =~= be_bytes(v as nat, 2));
    out
}

/// The four bytes of `v`, most significant first.
pub(crate) fn be_u32(v: u32) -> (out: Vec<u8>)
    ensures
        out@ == be_bytes(v as nat, 4),
{
    let b0: u8 = (v >> 24) as u8;
    let b1: u8 = ((v >> 16) & 0xff) as u8;
    let b2: u8 = ((v >> 8) & 0xff) as u8;
    let b3: u8 = (v & 0xff) as u8;
    proof {
        assert((v >> 24) == v / 0x100_0000 && ((v >> 16) & 0xff) == (v / 0x1_0000) % 256 && ((v
            >> 8) & 0xff) == (v / 0x100) % 256 && (v & 0xff) == v % 256) by (bit_vector);
        reveal_with_fuel(be_bytes, 5);
    }
    let mut out: Vec<u8> = Vec::new();
    out.push(b0);
    out.push(b1);
    out.push(b2);
    out.push(b3);
    assert(out@ =~= be_bytes(v as nat, 4));
    out
}

/// The eight bytes of `v`, most significant first.
pub(crate) fn be_u64(v: u64) -> (out: Vec<u8>)
    ensures
        out@ == be_bytes(v as nat, 8),
{
    let hi: u32 = (v >> 32) as u32;
    let lo: u32 = (v & 0xffff_ffff) as u32;
    let mut out = be_u32(hi);
    let mut low = be_u32(lo);
    proof {
        assert((v >> 32) == v / 0x1_0000_0000 && (v & 0xffff_ffff) == v % 0x1_0000_0000)
            by (bit_vector);
        lemma_be_bytes_split(v as nat, 4, 4);
        assert(pow256(4) == 0x1_0000_0000) by {
            reveal_with_fuel(pow256, 5);
        }
    }
    out.append(&mut low);
    out
}

/// The number that the first `width` bytes of `bytes` denote, big-endian.
pub(crate) fn read_be(bytes: &Vec<u8>, width: usize) -> (v: u64)
    requires
        width <= 8,
        width <= bytes.len(),
    ensures
        v == be_value(bytes@.take(width as int)),
        v < pow256(width as nat),
{
    let mut v: u64 = 0;
    let mut i: usize = 0;
    while i < width
        invariant
            i <= width <= 8,
            width <= bytes.len(),
            v == be_value(bytes@.take(i as int)),
            v < pow256(i as nat),
        decreases width - i,
    {
        let b: u8 = bytes[i];
        proof {
            let s = bytes@.take(i + 1);
            assert(s.drop_last() =~= bytes@.take(i as int));
            assert(s.last() == b);
            lemma_pow256_bound(i as nat);
            assert(v < 0x100_0000_0000_0000);
            assert((v << 8) | (b as u64) == v * 256 + b) by (bit_vector)
                requires
                    v < 0x100_0000_0000_0000u64,
            ;
        }
        v = (v << 8) | (b as u64);
        i += 1;
    }
    v
}

/// Below eight bytes a power of 256 stays under `2^56`.
proof fn lemma_pow256_bound(width: nat)
    requires
        width <= 7,
    ensures
        pow256(width) <= 0x100_0000_0000_0000,
{
    reveal_with_fuel(pow256, 8);
}

/// The bit pattern of a signed byte.
pub(crate) fn pattern_i8(x: i8) -> (u: u8)
    ensures
        u == pattern_of(x as int, 0x100),
{
    assert((x as u8) == if x < 0 { x + 0x100 } else { x as int }) by (bit_vector);
    #[verifier::truncate]
    (x as u8)
}

/// The signed byte with the given bit pattern.
pub(crate) fn signed_i8(u: u8) -> (x: i8)
    ensures
        x == signed_of(u as nat, 0x100),
{
    assert((u as i8) == if u >= 0x80 { u - 0x100 } else { u as int }) by (bit_vector);
    #[verifier::truncate]
    (u as i8)
}

/// The bit pattern of a signed 16-bit value.
pub(crate) fn pattern_i16(x: i16) -> (u: u16)
    ensures
        u == pattern_of(x as int, 0x1_0000),
{
    assert((x as u16) == if x < 0 { x + 0x1_0000 } else { x as int }) by (bit_vector);
    #[verifier::truncate]
    (x as u16)
}

/// The signed 16-bit value with the given bit pattern.
pub(crate) fn signed_i16(u: u16) -> (x: i16)
    ensures
        x == signed_of(u as nat, 0x1_0000),
{
    assert((u as i16) == if u >= 0x8000 { u - 0x1_0000 } else { u as int }) by (bit_vector);
    #[verifier::truncate]
    (u as i16)
}

/// The bit pattern of a signed 32-bit value.
pub(crate) fn pattern_i32(x: i32) -> (u: u32)
    ensures
        u == pattern_of(x as int, 0x1_0000_0000),
{
    assert((x as u32) == if x < 0 { x + 0x1_0000_0000 } else { x as int }) by (bit_vector);
    #[verifier::truncate]
    (x as u32)
}

/// The signed 32-bit value with the given bit pattern.
pub(crate) fn signed_i32(u: u32) -> (x: i32)
    ensures
        x == signed_of(u as nat, 0x1_0000_0000),
{
    assert((u as i32) == if u >= 0x8000_0000 { u - 0x1_0000_0000 } else { u as int })
        by (bit_vector);
    #[verifier::truncate]
    (u as i32)
}

/// The bit pattern of a signed 64-bit value.
pub(crate) fn pattern_i64(x: i64) -> (u: u64)
    ensures
        u == pattern_of(x as int, 0x1_0000_0000_0000_0000),
{
    assert((x as u64) == if x < 0 { x + 0x1_0000_0000_0000_0000 } else { x as int })
        by (bit_vector);
    #[verifier::truncate]
    (x as u64)
}

/// The signed 64-bit value with the given bit pattern.
pub(crate) fn signed_i64(u: u64) -> (x: i64)
    ensures
        x == signed_of(u as nat, 0x1_0000_0000_0000_0000),
{
    assert((u as i64) == if u >= 0x8000_0000_0000_0000 {
        u - 0x1_0000_0000_0000_0000
    } else {
        u as int
    }) by (bit_vector);
    #[verifier::truncate]
    (u as i64)
}

} // verus!
