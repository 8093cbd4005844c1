//! Variable-length integers: seven value bits per byte, least significant
//! group first, the high bit of a byte set on all but the last byte.
//!
//! The model speaks of unsigned bit patterns; signed values enter and leave
//! through their two's-complement pattern, so a negative 32-bit value takes
//! five bytes.

use crate::bytes::{pattern_i32, pattern_i64, signed_i32, signed_i64};
use crate::error::ProtocolError;
use crate::wire::{lemma_signed_round_trip, pattern_of, signed_of};
use vstd::arithmetic::div_mod::{
    lemma_add_mod_noop_right, lemma_fundamental_div_mod, lemma_mod_mod,
    lemma_mul_mod_noop_right, lemma_small_mod,
};
use vstd::prelude::*;

verus! {

/// Number of distinct 32-bit patterns.
pub open spec fn word32() -> nat {
    0x1_0000_0000
}

/// Number of distinct 64-bit patterns.
pub open spec fn word64() -> nat {
    0x1_0000_0000_0000_0000
}

/// Most bytes that a 32-bit variable-length integer may take.
pub const MAX_VARINT_BYTES: usize = 5;

/// Most bytes that a 64-bit variable-length integer may take.
pub const MAX_VARLONG_BYTES: usize = 10;

/// The bytes that encode the unsigned value `v`.
pub open spec fn varint_digits(v: nat) -> Seq<u8>
    decreases v,
{
    if v < 128 {
        seq![v as u8]
    } else {
        seq![(v % 128 + 128) as u8] + varint_digits(v / 128)
    }
}

/// The position of the first byte with a clear high bit among the first
/// `max` bytes, if there is one.
pub open spec fn terminator(bytes: Seq<u8>, max: nat) -> Option<nat>
    decreases max,
{
    if max == 0 || bytes.len() == 0 {
        None
    } else if bytes[0] < 128 {
        Some(0)
    } else {
        match terminator(bytes.drop_first(), (max - 1) as nat) {
            Some(k) => Some(k + 1),
            None => None,
        }
    }
}

/// The number whose base-128 digits, least significant first, are the low
/// seven bits of each byte.
pub open spec fn group_value(bytes: Seq<u8>) -> nat
    decreases bytes.len(),
{
    if bytes.len() == 0 {
        0
    } else {
        (bytes[0] % 128) as nat + 128 * group_value(bytes.drop_first())
    }
}

/// What decoding a variable-length integer of at most `max` bytes from the
/// front of `bytes` yields: the bit pattern, reduced to a word of `modulus`
/// values, or the failure; and the number of bytes it takes from the front.
///
/// Without a terminating byte among the first `max` bytes the input is
/// malformed once a byte beyond them is present, and incomplete before that.
pub open spec fn varint_parse(bytes: Seq<u8>, max: nat, modulus: nat) -> (
    Result<nat, ProtocolError>,
    nat,
) {
    match terminator(bytes, max) {
        Some(k) => (Ok(group_value(bytes.take(k as int + 1)) % modulus), k + 1),
        None => if bytes.len() > max {
            (Err(ProtocolError::MalformedVarInt), 0)
        } else {
            (Err(ProtocolError::InsufficientData), 0)
        },
    }
}

/// The number of distinct values that `n` groups of seven bits hold.
pub open spec fn pow128(n: nat) -> nat
    decreases n,
{
    if n == 0 {
        1
    } else {
        128 * pow128((n - 1) as nat)
    }
}

/// All bytes of `bytes` before position `k` have the high bit set.
pub open spec fn all_continue(bytes: Seq<u8>, k: int) -> bool {
    forall|j: int| 0 <= j < k ==> #[trigger] bytes[j] >= 128
}

/// The terminator is the first byte below 128, provided it lies within the
/// first `max` bytes.
pub proof fn lemma_terminator_found(bytes: Seq<u8>, max: nat, k: nat)
    requires
        k < max,
        k < bytes.len(),
        bytes[k as int] < 128,
        all_continue(bytes, k as int),
    ensures
        terminator(bytes, max) == Some(k),
    decreases max,
{
    if k > 0 {
        let rest = bytes.drop_first();
        assert(bytes[0] >= 128);
        assert forall|j: int| 0 <= j < k - 1 implies #[trigger] rest[j] >= 128 by {
            assert(rest[j] == bytes[j + 1]);
        }
        lemma_terminator_found(rest, (max - 1) as nat, (k - 1) as nat);
    }
}

/// There is no terminator where the first `max` bytes, or all bytes if there
/// are fewer, have the high bit set.
pub proof fn lemma_terminator_absent(bytes: Seq<u8>, max: nat)
    requires
        all_continue(bytes, if bytes.len() < max { bytes.len() as int } else { max as int }),
    ensures
        terminator(bytes, max) is None,
    decreases max,
{
    if max > 0 && bytes.len() > 0 {
        let rest = bytes.drop_first();
        assert(bytes[0] >= 128);
        let bound = if rest.len() < max - 1 {
            rest.len() as int
        } else {
            max - 1
        };
        assert forall|j: int| 0 <= j < bound implies #[trigger] rest[j] >= 128 by {
            assert(rest[j] == bytes[j + 1]);
        }
        lemma_terminator_absent(rest, (max - 1) as nat);
    }
}

/// The encoding has at least one byte; its last byte ends it and no earlier
/// byte does.
pub proof fn lemma_digits_shape(v: nat)
    ensures
        varint_digits(v).len() >= 1,
        varint_digits(v).last() < 128,
        all_continue(varint_digits(v), varint_digits(v).len() - 1),
    decreases v,
{
    if v >= 128 {
        lemma_digits_shape(v / 128);
        let tail = varint_digits(v / 128);
        let d = varint_digits(v);
        assert(d.last() == tail.last());
        assert forall|j: int| 0 <= j < d.len() - 1 implies #[trigger] d[j] >= 128 by {
            if j > 0 {
                assert(d[j] == tail[j - 1]);
            }
        }
    }
}

/// A value below `128^n` takes at most `n` bytes.
pub proof fn lemma_digits_len(v: nat, n: nat)
    requires
        n >= 1,
        v < pow128(n),
    ensures
        varint_digits(v).len() <= n,
    decreases n,
{
    if v >= 128 {
        assert(n >= 2) by {
            reveal_with_fuel(pow128, 2);
        }
        lemma_digits_len(v / 128, (n - 1) as nat);
    }
}

/// The groups of an encoding spell the value that was encoded.
pub proof fn lemma_digits_value(v: nat)
    ensures
        group_value(varint_digits(v)) == v,
    decreases v,
{
    let d = varint_digits(v);
    if v < 128 {
        assert(d.drop_first() =~= Seq::<u8>::empty());
        assert(group_value(d.drop_first()) == 0);
    } else {
        lemma_digits_value(v / 128);
        assert(d.drop_first() =~= varint_digits(v / 128));
        assert(d[0] == (v % 128 + 128) as u8);
        lemma_fundamental_div_mod(v as int, 128);
    }
}

/// Decoding what was encoded, whatever follows it, gives the value back and
/// takes exactly the encoding.
pub proof fn lemma_varint_round_trip(v: nat, rest: Seq<u8>, max: nat, modulus: nat)
    requires
        v < modulus,
        varint_digits(v).len() <= max,
    ensures
        varint_parse(varint_digits(v) + rest, max, modulus) == (
            Ok::<nat, ProtocolError>(v),
            varint_digits(v).len(),
        ),
{
    let d = varint_digits(v);
    let whole = d + rest;
    lemma_digits_shape(v);
    let k = (d.len() - 1) as nat;
    assert forall|j: int| 0 <= j < k implies #[trigger] whole[j] >= 128 by {
        assert(whole[j] == d[j]);
    }
    assert(whole[k as int] == d[k as int]);
    lemma_terminator_found(whole, max, k);
    assert(whole.take(k as int + 1) =~= d);
    lemma_digits_value(v);
    lemma_small_mod(v, modulus);
}

/// A proper prefix of an encoding is incomplete: it holds no terminator and
/// is shorter than the encoding.
pub proof fn lemma_digits_prefix_incomplete(v: nat, n: nat, max: nat, modulus: nat)
    requires
        n < varint_digits(v).len(),
        varint_digits(v).len() <= max,
    ensures
        varint_parse(varint_digits(v).take(n as int), max, modulus) == (
            Err::<nat, ProtocolError>(ProtocolError::InsufficientData),
            0nat,
        ),
{
    let d = varint_digits(v);
    let p = d.take(n as int);
    lemma_digits_shape(v);
    assert forall|j: int| 0 <= j < n implies #[trigger] p[j] >= 128 by {
        assert(p[j] == d[j]);
    }
    lemma_terminator_absent(p, max);
}

/// Encoded values of 32 bits take at most five bytes, of 64 bits at most ten.
pub proof fn lemma_digits_len_words(v: nat)
    ensures
        v < word32() ==> varint_digits(v).len() <= 5,
        v < word64() ==> varint_digits(v).len() <= 10,
{
    assert(pow128(5) == 0x8_0000_0000 && pow128(10) == 0x40_0000_0000_0000_0000) by {
        reveal_with_fuel(pow128, 11);
    }
    if v < word32() {
        lemma_digits_len(v, 5);
    }
    if v < word64() {
        lemma_digits_len(v, 10);
    }
}

/// Scans `bytes[start..end]` for the end of a variable-length integer of at
/// most `max` bytes and returns its position relative to `start`.
pub(crate) fn find_terminator(bytes: &Vec<u8>, start: usize, end: usize, max: usize) -> (r: Option<
    usize,
>)
    requires
        start <= end <= bytes.len(),
    ensures
        match r {
            Some(k) => terminator(bytes@.subrange(start as int, end as int), max as nat) == Some(
                k as nat,
            ) && start + k < end && k < max,
            None => terminator(bytes@.subrange(start as int, end as int), max as nat) is None,
        },
{
    let ghost window = bytes@.subrange(start as int, end as int);
    let mut i: usize = 0;
    while i < max && i < end - start
        invariant
            start <= end <= bytes.len(),
            i <= max,
            i <= end - start,
            window == bytes@.subrange(start as int, end as int),
            all_continue(window, i as int),
        decreases max - i,
    {
        if bytes[start + i] < 128 {
            proof {
                lemma_terminator_found(window, max as nat, i as nat);
            }
            return Some(i);
        }
        i += 1;
    }
    proof {
        lemma_terminator_absent(window, max as nat);
    }
    None
}

/// Folds the seven-bit groups of `bytes[start..=last]` into one 64-bit
/// pattern; groups beyond bit 63 fall away.
pub(crate) fn fold_groups(bytes: &Vec<u8>, start: usize, last: usize) -> (v: u64)
    requires
        start <= last < bytes.len(),
    ensures
        v == group_value(bytes@.subrange(start as int, last + 1)) % word64(),
{
    let mut v: u64 = 0;
    let mut i: usize = last + 1;
    assert(bytes@.subrange(i as int, last + 1) =~= Seq::<u8>::empty());
    while i > start
        invariant
            start <= i <= last + 1,
            last < bytes.len(),
            v == group_value(bytes@.subrange(i as int, last + 1)) % word64(),
        decreases i,
    {
        i -= 1;
        let b: u8 = bytes[i];
        let d: u64 = (b & 0x7f) as u64;
        proof {
            let s = bytes@.subrange(i as int, last + 1);
            let rest = bytes@.subrange(i + 1, last + 1);
            assert(s.drop_first() =~= rest);
            assert(s[0] == b);
            let g = group_value(rest);
            assert(group_value(s) == (b % 128) as nat + 128 * g);
            assert((b & 0x7f) == b % 128) by (bit_vector);
            assert(((v << 7) | d) == (v * 128 + d) % 0x1_0000_0000_0000_0000) by (bit_vector)
                requires
                    d < 128,
            ;
            // (128 * (g % W) + d) % W == (128 * g + d) % W
            lemma_mul_mod_noop_right(128, g as int, word64() as int);
            lemma_add_mod_noop_right(d as int, 128 * ((g % word64()) as int), word64() as int);
            lemma_add_mod_noop_right(d as int, 128 * (g as int), word64() as int);
        }
        v = (v << 7) | d;
    }
    v
}

/// Appends the encoding of the pattern `v` to `out`.
pub(crate) fn push_groups(out: &mut Vec<u8>, v: u64)
    ensures
        final(out)@ == old(out)@ + varint_digits(v as nat),
{
    let mut rest: u64 = v;
    let ghost before = out@;
    loop
        invariant_except_break
            before + varint_digits(v as nat) == out@ + varint_digits(rest as nat),
        ensures
            out@ == before + varint_digits(v as nat),
        decreases rest,
    {
        let low: u8 = (rest & 0x7f) as u8;
        let next: u64 = rest >> 7;
        proof {
            assert((rest & 0x7f) == rest % 128 && (rest >> 7) == rest / 128) by (bit_vector);
        }
        if next == 0 {
            out.push(low);
            assert(out@ =~= before + varint_digits(v as nat));
            break ;
        } else {
            let ghost prev = out@;
            out.push(low | 0x80);
            proof {
                assert(low < 128 ==> (low | 0x80) == low + 128) by (bit_vector);
                assert(out@ + varint_digits(next as nat) =~= prev + varint_digits(
                    rest as nat,
                ));
            }
            rest = next;
        }
    }
}

/// Decodes a variable-length integer of at most `max` bytes from
/// `bytes[start..end]`. Gives the 64-bit pattern and the number of bytes it
/// took; the buffer is left as it is.
pub(crate) fn decode_groups(bytes: &Vec<u8>, start: usize, end: usize, max: usize) -> (r: Result<
    (u64, usize),
    ProtocolError,
>)
    requires
        start <= end <= bytes.len(),
    ensures
        match r {
            Ok((v, n)) => varint_parse(
                bytes@.subrange(start as int, end as int),
                max as nat,
                word64(),
            ) == (Ok::<nat, ProtocolError>(v as nat), n as nat) && 1 <= n <= max && start + n
                <= end,
            Err(e) => varint_parse(
                bytes@.subrange(start as int, end as int),
                max as nat,
                word64(),
            ) == (Err::<nat, ProtocolError>(e), 0nat),
        },
{
    let ghost window = bytes@.subrange(start as int, end as int);
    match find_terminator(bytes, start, end, max) {
        Some(k) => {
            let v = fold_groups(bytes, start, start + k);
            assert(bytes@.subrange(start as int, start + k + 1) =~= window.take(k + 1));
            Ok((v, k + 1))
        },
        None => {
            if end - start > max {
                Err(ProtocolError::MalformedVarInt)
            } else {
                Err(ProtocolError::InsufficientData)
            }
        },
    }
}

/// The wire form of a signed 32-bit value.
pub open spec fn varint32_wire(v: i32) -> Seq<u8> {
    varint_digits(pattern_of(v as int, 0x1_0000_0000))
}

/// What decoding a 32-bit variable-length integer from the front of `bytes`
/// yields, and how many bytes it consumes. Bits of the fifth byte beyond the
/// thirty-second fall away.
pub open spec fn varint32_parse(bytes: Seq<u8>) -> (Result<i32, ProtocolError>, nat) {
    match varint_parse(bytes, 5, word32()) {
        (Ok(p), n) => (Ok(signed_of(p, 0x1_0000_0000) as i32), n),
        (Err(e), n) => (Err(e), n),
    }
}

/// The wire form of a signed 64-bit value.
pub open spec fn varint64_wire(v: i64) -> Seq<u8> {
    varint_digits(pattern_of(v as int, 0x1_0000_0000_0000_0000))
}

/// What decoding a 64-bit variable-length integer from the front of `bytes`
/// yields, and how many bytes it consumes. Bits of the tenth byte beyond the
/// sixty-fourth fall away.
pub open spec fn varint64_parse(bytes: Seq<u8>) -> (Result<i64, ProtocolError>, nat) {
    match varint_parse(bytes, 10, word64()) {
        (Ok(p), n) => (Ok(signed_of(p, 0x1_0000_0000_0000_0000) as i64), n),
        (Err(e), n) => (Err(e), n),
    }
}

/// The bytes of a signed 32-bit value as a variable-length integer.
pub(crate) fn encode_varint32(v: i32) -> (out: Vec<u8>)
    ensures
        out@ == varint32_wire(v),
        1 <= out@.len() <= 5,
{
    let mut out: Vec<u8> = Vec::new();
    let p = pattern_i32(v);
    push_groups(&mut out, p as u64);
    proof {
        lemma_digits_len_words(p as nat);
        lemma_digits_shape(p as nat);
        assert(out@ =~= varint_digits(p as nat));
    }
    out
}

/// The bytes of a signed 64-bit value as a variable-length integer.
pub(crate) fn encode_varint64(v: i64) -> (out: Vec<u8>)
    ensures
        out@ == varint64_wire(v),
        1 <= out@.len() <= 10,
{
    let mut out: Vec<u8> = Vec::new();
    let p = pattern_i64(v);
    push_groups(&mut out, p);
    proof {
        lemma_digits_len_words(p as nat);
        lemma_digits_shape(p as nat);
        assert(out@ =~= varint_digits(p as nat));
    }
    out
}

/// Decodes a 32-bit variable-length integer from `bytes[start..end]` and
/// says how many bytes it took; the buffer is left as it is.
pub(crate) fn decode_varint32(bytes: &Vec<u8>, start: usize, end: usize) -> (r: Result<
    (i32, usize),
    ProtocolError,
>)
    requires
        start <= end <= bytes.len(),
    ensures
        match r {
            Ok((v, n)) => varint32_parse(bytes@.subrange(start as int, end as int)) == (
                Ok::<i32, ProtocolError>(v),
                n as nat,
            ) && 1 <= n <= 5 && start + n <= end,
            Err(e) => varint32_parse(bytes@.subrange(start as int, end as int)) == (
                Err::<i32, ProtocolError>(e),
                0nat,
            ),
        },
{
    match decode_groups(bytes, start, end, MAX_VARINT_BYTES) {
        Ok((v, n)) => {
            let low: u32 = (v & 0xffff_ffff) as u32;
            proof {
                assert((v & 0xffff_ffff) == v % 0x1_0000_0000) by (bit_vector);
                let window = bytes@.subrange(start as int, end as int);
                let g = group_value(window.take(n as int));
                lemma_mod_mod(g as int, 0x1_0000_0000, 0x1_0000_0000);
            }
            Ok((signed_i32(low), n))
        },
        Err(e) => Err(e),
    }
}

/// Decodes a 64-bit variable-length integer from `bytes[start..end]` and
/// says how many bytes it took; the buffer is left as it is.
pub(crate) fn decode_varint64(bytes: &Vec<u8>, start: usize, end: usize) -> (r: Result<
    (i64, usize),
    ProtocolError,
>)
    requires
        start <= end <= bytes.len(),
    ensures
        match r {
            Ok((v, n)) => varint64_parse(bytes@.subrange(start as int, end as int)) == (
                Ok::<i64, ProtocolError>(v),
                n as nat,
            ) && 1 <= n <= 10 && start + n <= end,
            Err(e) => varint64_parse(bytes@.subrange(start as int, end as int)) == (
                Err::<i64, ProtocolError>(e),
                0nat,
            ),
        },
{
    match decode_groups(bytes, start, end, MAX_VARLONG_BYTES) {
        Ok((v, n)) => Ok((signed_i64(v), n)),
        Err(e) => Err(e),
    }
}

/// A 32-bit value survives encoding and decoding, whatever follows it.
pub proof fn lemma_varint32_round_trip(v: i32, rest: Seq<u8>)
    ensures
        varint32_parse(varint32_wire(v) + rest) == (
            Ok::<i32, ProtocolError>(v),
            varint32_wire(v).len(),
        ),
        1 <= varint32_wire(v).len() <= 5,
{
    let p = pattern_of(v as int, 0x1_0000_0000);
    lemma_signed_round_trip(v as int, 0x1_0000_0000);
    lemma_digits_len_words(p);
    lemma_digits_shape(p);
    lemma_varint_round_trip(p, rest, 5, word32());
}

/// A 64-bit value survives encoding and decoding, whatever follows it.
pub proof fn lemma_varint64_round_trip(v: i64, rest: Seq<u8>)
    ensures
        varint64_parse(varint64_wire(v) + rest) == (
            Ok::<i64, ProtocolError>(v),
            varint64_wire(v).len(),
        ),
        1 <= varint64_wire(v).len() <= 10,
{
    let p = pattern_of(v as int, 0x1_0000_0000_0000_0000);
    lemma_signed_round_trip(v as int, 0x1_0000_0000_0000_0000);
    lemma_digits_len_words(p);
    lemma_digits_shape(p);
    lemma_varint_round_trip(p, rest, 10, word64());
}

} // verus!
