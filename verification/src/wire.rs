//! The mathematical model of the fixed-width wire formats: big-endian byte
//! strings and two's-complement bit patterns.

use vstd::arithmetic::div_mod::{lemma_breakdown, lemma_div_denominator};
use vstd::prelude::*;

verus! {

/// The `width` low-order base-256 digits of `v`, most significant first.
pub open spec fn be_bytes(v: nat, width: nat) -> Seq<u8>
    decreases width,
{
    if width == 0 {
        Seq::empty()
    } else {
        be_bytes(v / 256, (width - 1) as nat).push((v % 256) as u8)
    }
}

/// The number that a big-endian byte string denotes.
pub open spec fn be_value(s: Seq<u8>) -> nat
    decreases s.len(),
{
    if s.len() == 0 {
        0
    } else {
        be_value(s.drop_last()) * 256 + s.last() as nat
    }
}

/// The unsigned bit pattern of `x` in two's complement, for a word of
/// `modulus` distinct values.
pub open spec fn pattern_of(x: int, modulus: int) -> nat {
    if x < 0 {
        (x + modulus) as nat
    } else {
        x as nat
    }
}

/// The signed value of the bit pattern `u` in two's complement, for a word of
/// `modulus` distinct values.
pub open spec fn signed_of(u: nat, modulus: int) -> int {
    if 2 * u >= modulus {
        u - modulus
    } else {
        u as int
    }
}

/// The number of distinct byte strings of `width` bytes.
pub open spec fn pow256(width: nat) -> nat
    decreases width,
{
    if width == 0 {
        1
    } else {
        256 * pow256((width - 1) as nat)
    }
}

/// A big-endian string has as many bytes as were asked for.
pub proof fn lemma_be_bytes_len(v: nat, width: nat)
    ensures
        be_bytes(v, width).len() == width,
    decreases width,
{
    if width > 0 {
        lemma_be_bytes_len(v / 256, (width - 1) as nat);
    }
}

/// Reading back a big-endian string gives the number, as far as it fits in
/// the width.
pub proof fn lemma_be_round_trip(v: nat, width: nat)
    ensures
        be_value(be_bytes(v, width)) == v % pow256(width),
    decreases width,
{
    if width == 0 {
    } else {
        let w = (width - 1) as nat;
        let s = be_bytes(v, width);
        lemma_be_round_trip(v / 256, w);
        assert(s.drop_last() =~= be_bytes(v / 256, w));
        assert(s.last() == (v % 256) as u8);
        let p = pow256(w);
        lemma_pow256_positive(w);
        lemma_breakdown(v as int, 256, p as int);
    }
}

/// A power of 256 is positive.
pub proof fn lemma_pow256_positive(width: nat)
    ensures
        pow256(width) > 0,
    decreases width,
{
    if width > 0 {
        lemma_pow256_positive((width - 1) as nat);
    }
}

/// A byte string of the given width is the big-endian string of its own value.
pub proof fn lemma_be_bytes_of_value(s: Seq<u8>)
    ensures
        be_bytes(be_value(s), s.len()) == s,
        be_value(s) < pow256(s.len()),
    decreases s.len(),
{
    if s.len() == 0 {
        assert(be_bytes(be_value(s), 0) =~= s);
    } else {
        let t = s.drop_last();
        lemma_be_bytes_of_value(t);
        let v = be_value(s);
        assert(v / 256 == be_value(t));
        assert(v % 256 == s.last() as nat);
        assert(be_bytes(v, s.len()) =~= s);
    }
}

/// A big-endian string is the string of its high part followed by the string
/// of its low part.
pub proof fn lemma_be_bytes_split(v: nat, high: nat, low: nat)
    ensures
        be_bytes(v, high + low) == be_bytes(v / pow256(low), high) + be_bytes(
            v % pow256(low),
            low,
        ),
    decreases low,
{
    if low == 0 {
        assert(pow256(low) == 1);
        assert(v / 1 == v);
        assert(be_bytes(v % 1, 0) =~= Seq::<u8>::empty());
        assert(be_bytes(v, high) + Seq::<u8>::empty() =~= be_bytes(v, high));
    } else {
        let l = (low - 1) as nat;
        let p = pow256(l);
        lemma_pow256_positive(l);
        lemma_be_bytes_split(v / 256, high, l);
        lemma_div_denominator(v as int, 256, p as int);
        lemma_breakdown(v as int, 256, p as int);
        let r = v % (256 * p);
        assert(r == 256 * ((v / 256) % p) + v % 256);
        assert(r / 256 == (v / 256) % p && r % 256 == v % 256);
        assert(pow256(low) == 256 * p);
        assert(be_bytes(v, high + low) == be_bytes(v / 256, high + l).push((v % 256) as u8));
        assert(be_bytes(r, low) == be_bytes(r / 256, l).push((r % 256) as u8));
        assert(be_bytes(v, high + low) =~= be_bytes(v / pow256(low), high) + be_bytes(
            v % pow256(low),
            low,
        ));
    }
}

/// The bit pattern of a signed value reads back as that value.
pub proof fn lemma_signed_round_trip(x: int, modulus: int)
    requires
        modulus > 0,
        modulus % 2 == 0,
        -(modulus / 2) <= x < modulus / 2,
    ensures
        pattern_of(x, modulus) < modulus,
        signed_of(pattern_of(x, modulus), modulus) == x,
{
}

} // verus!
