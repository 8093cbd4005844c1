//! The primitive value codec: every protocol value has one canonical byte
//! string, and decoding takes such a string off the front of a buffer.

use crate::bytes::{
    be_u16, be_u32, be_u64, pattern_i16, pattern_i32, pattern_i64, pattern_i8, read_be, signed_i16,
    signed_i32, signed_i64, signed_i8,
};
use crate::error::ProtocolError;
use crate::varint::{
    decode_varint32, decode_varint64, encode_varint32, encode_varint64,
    lemma_varint32_round_trip, lemma_varint64_round_trip, varint32_parse, varint32_wire,
    varint64_parse, varint64_wire,
};
use crate::wire::{
    be_bytes, be_value, lemma_be_bytes_len, lemma_be_round_trip, pattern_of, pow256, signed_of,
};
use vstd::arithmetic::div_mod::lemma_small_mod;
use vstd::prelude::*;
use vstd::slice::slice_to_vec;
use vstd::utf8::{
    decode_utf8, decode_utf8_encode_utf8, encode_utf8, encode_utf8_decode_utf8,
    encode_utf8_valid_utf8, valid_utf8,
};

verus! {

/// A value with a fixed canonical wire form.
///
/// `wire` is the byte string of a value. `parse` says what decoding makes of
/// the front of a buffer: the value or the failure, and how many bytes leave
/// the buffer either way.
pub trait MCPacketCodec: Sized + View {
    /// The values that have a wire form.
    spec fn encodable(v: Self::V) -> bool;

    /// The canonical bytes of `v`.
    spec fn wire(v: Self::V) -> Seq<u8>;

    /// The outcome of decoding from the front of `bytes` and the number of
    /// bytes consumed.
    spec fn parse(bytes: Seq<u8>) -> (Result<Self::V, ProtocolError>, nat);

    /// The canonical bytes of the value.
    fn to_mc_bytes(&self) -> (out: Vec<u8>)
        requires
            Self::encodable(self@),
        ensures
            out@ == Self::wire(self@),
    ;

    /// Takes a value off the front of the buffer.
    fn from_mc_bytes(bytes: &mut Vec<u8>) -> (r: Result<Self, ProtocolError>)
        ensures
            match r {
                Ok(v) => Self::parse(old(bytes)@).0 == Ok::<Self::V, ProtocolError>(v@),
                Err(e) => Self::parse(old(bytes)@).0 == Err::<Self::V, ProtocolError>(e),
            },
            Self::parse(old(bytes)@).1 <= old(bytes)@.len(),
            final(bytes)@ == old(bytes)@.skip(Self::parse(old(bytes)@).1 as int),
    ;

    /// Decoding the wire form of a value, whatever follows it in the buffer,
    /// gives the value back and consumes exactly its wire form.
    proof fn lemma_round_trip(v: Self::V, rest: Seq<u8>)
        requires
            Self::encodable(v),
        ensures
            Self::parse(Self::wire(v) + rest) == (
                Ok::<Self::V, ProtocolError>(v),
                Self::wire(v).len(),
            ),
    ;
}

/// What reading a big-endian number of `width` bytes from the front of
/// `bytes` yields, and how many bytes it consumes.
pub open spec fn fixed_parse(bytes: Seq<u8>, width: nat) -> (Result<nat, ProtocolError>, nat) {
    if bytes.len() < width {
        (Err(ProtocolError::InsufficientData), 0)
    } else {
        (Ok(be_value(bytes.take(width as int))), width)
    }
}

/// A big-endian number of `width` bytes reads back, whatever follows it.
pub proof fn lemma_fixed_round_trip(p: nat, width: nat, rest: Seq<u8>)
    requires
        p < pow256(width),
    ensures
        fixed_parse(be_bytes(p, width) + rest, width) == (Ok::<nat, ProtocolError>(p), width),
        be_bytes(p, width).len() == width,
{
    lemma_be_bytes_len(p, width);
    lemma_be_round_trip(p, width);
    lemma_small_mod(p, pow256(width));
    assert((be_bytes(p, width) + rest).take(width as int) =~= be_bytes(p, width));
}

/// The values of the first powers of 256.
pub proof fn lemma_pow256_values()
    ensures
        pow256(1) == 0x100,
        pow256(2) == 0x1_0000,
        pow256(4) == 0x1_0000_0000,
        pow256(8) == 0x1_0000_0000_0000_0000,
{
    reveal_with_fuel(pow256, 9);
}

/// Removes the first `n` bytes of the buffer.
pub(crate) fn drop_front(bytes: &mut Vec<u8>, n: usize)
    requires
        n <= old(bytes)@.len(),
    ensures
        final(bytes)@ == old(bytes)@.skip(n as int),
{
    let rest = bytes.split_off(n);
    *bytes = rest;
}

/// Takes a big-endian number of `width` bytes off the front of the buffer.
pub(crate) fn take_fixed(bytes: &mut Vec<u8>, width: usize) -> (r: Result<u64, ProtocolError>)
    requires
        1 <= width <= 8,
    ensures
        match r {
            Ok(v) => fixed_parse(old(bytes)@, width as nat).0 == Ok::<nat, ProtocolError>(
                v as nat,
            ) && v < pow256(width as nat),
            Err(e) => fixed_parse(old(bytes)@, width as nat).0 == Err::<nat, ProtocolError>(e),
        },
        fixed_parse(old(bytes)@, width as nat).1 <= old(bytes)@.len(),
        final(bytes)@ == old(bytes)@.skip(fixed_parse(old(bytes)@, width as nat).1 as int),
{
    if bytes.len() < width {
        assert(bytes@.skip(0) =~= bytes@);
        return Err(ProtocolError::InsufficientData);
    }
    let v = read_be(bytes, width);
    drop_front(bytes, width);
    Ok(v)
}

impl MCPacketCodec for u8 {
    open spec fn encodable(v: u8) -> bool {
        true
    }

    open spec fn wire(v: u8) -> Seq<u8> {
        be_bytes(v as nat, 1)
    }

    open spec fn parse(bytes: Seq<u8>) -> (Result<u8, ProtocolError>, nat) {
        match fixed_parse(bytes, 1) {
            (Ok(p), n) => (Ok(p as u8), n),
            (Err(e), n) => (Err(e), n),
        }
    }

    fn to_mc_bytes(&self) -> (out: Vec<u8>) {
        let mut out: Vec<u8> = Vec::new();
        out.push(*self);
        proof {
            reveal_with_fuel(be_bytes, 2);
            assert(out@ =~= be_bytes(*self as nat, 1));
        }
        out
    }

    fn from_mc_bytes(bytes: &mut Vec<u8>) -> (r: Result<Self, ProtocolError>) {
        proof {
            lemma_pow256_values();
        }
        match take_fixed(bytes, 1) {
            Ok(v) => Ok(v as u8),
            Err(e) => Err(e),
        }
    }

    proof fn lemma_round_trip(v: u8, rest: Seq<u8>) {
        lemma_pow256_values();
        lemma_fixed_round_trip(v as nat, 1, rest);
    }
}

impl MCPacketCodec for i8 {
    open spec fn encodable(v: i8) -> bool {
        true
    }

    open spec fn wire(v: i8) -> Seq<u8> {
        be_bytes(pattern_of(v as int, 0x100), 1)
    }

    open spec fn parse(bytes: Seq<u8>) -> (Result<i8, ProtocolError>, nat) {
        match fixed_parse(bytes, 1) {
            (Ok(p), n) => (Ok(signed_of(p, 0x100) as i8), n),
            (Err(e), n) => (Err(e), n),
        }
    }

    fn to_mc_bytes(&self) -> (out: Vec<u8>) {
        pattern_i8(*self).to_mc_bytes()
    }

    fn from_mc_bytes(bytes: &mut Vec<u8>) -> (r: Result<Self, ProtocolError>) {
        proof {
            lemma_pow256_values();
        }
        match take_fixed(bytes, 1) {
            Ok(v) => Ok(signed_i8(v as u8)),
            Err(e) => Err(e),
        }
    }

    proof fn lemma_round_trip(v: i8, rest: Seq<u8>) {
        lemma_pow256_values();
        lemma_fixed_round_trip(pattern_of(v as int, 0x100), 1, rest);
    }
}

impl MCPacketCodec for u16 {
    open spec fn encodable(v: u16) -> bool {
        true
    }

    open spec fn wire(v: u16) -> Seq<u8> {
        be_bytes(v as nat, 2)
    }

    open spec fn parse(bytes: Seq<u8>) -> (Result<u16, ProtocolError>, nat) {
        match fixed_parse(bytes, 2) {
            (Ok(p), n) => (Ok(p as u16), n),
            (Err(e), n) => (Err(e), n),
        }
    }

    fn to_mc_bytes(&self) -> (out: Vec<u8>) {
        be_u16(*self)
    }

    fn from_mc_bytes(bytes: &mut Vec<u8>) -> (r: Result<Self, ProtocolError>) {
        proof {
            lemma_pow256_values();
        }
        match take_fixed(bytes, 2) {
            Ok(v) => Ok(v as u16),
            Err(e) => Err(e),
        }
    }

    proof fn lemma_round_trip(v: u16, rest: Seq<u8>) {
        lemma_pow256_values();
        lemma_fixed_round_trip(v as nat, 2, rest);
    }
}

impl MCPacketCodec for i16 {
    open spec fn encodable(v: i16) -> bool {
        true
    }

    open spec fn wire(v: i16) -> Seq<u8> {
        be_bytes(pattern_of(v as int, 0x1_0000), 2)
    }

    open spec fn parse(bytes: Seq<u8>) -> (Result<i16, ProtocolError>, nat) {
        match fixed_parse(bytes, 2) {
            (Ok(p), n) => (Ok(signed_of(p, 0x1_0000) as i16), n),
            (Err(e), n) => (Err(e), n),
        }
    }

    fn to_mc_bytes(&self) -> (out: Vec<u8>) {
        be_u16(pattern_i16(*self))
    }

    fn from_mc_bytes(bytes: &mut Vec<u8>) -> (r: Result<Self, ProtocolError>) {
        proof {
            lemma_pow256_values();
        }
        match take_fixed(bytes, 2) {
            Ok(v) => Ok(signed_i16(v as u16)),
            Err(e) => Err(e),
        }
    }

    proof fn lemma_round_trip(v: i16, rest: Seq<u8>) {
        lemma_pow256_values();
        lemma_fixed_round_trip(pattern_of(v as int, 0x1_0000), 2, rest);
    }
}

impl MCPacketCodec for u32 {
    open spec fn encodable(v: u32) -> bool {
        true
    }

    open spec fn wire(v: u32) -> Seq<u8> {
        be_bytes(v as nat, 4)
    }

    open spec fn parse(bytes: Seq<u8>) -> (Result<u32, ProtocolError>, nat) {
        match fixed_parse(bytes, 4) {
            (Ok(p), n) => (Ok(p as u32), n),
            (Err(e), n) => (Err(e), n),
        }
    }

    fn to_mc_bytes(&self) -> (out: Vec<u8>) {
        be_u32(*self)
    }

    fn from_mc_bytes(bytes: &mut Vec<u8>) -> (r: Result<Self, ProtocolError>) {
        proof {
            lemma_pow256_values();
        }
        match take_fixed(bytes, 4) {
            Ok(v) => Ok(v as u32),
            Err(e) => Err(e),
        }
    }

    proof fn lemma_round_trip(v: u32, rest: Seq<u8>) {
        lemma_pow256_values();
        lemma_fixed_round_trip(v as nat, 4, rest);
    }
}

impl MCPacketCodec for i32 {
    open spec fn encodable(v: i32) -> bool {
        true
    }

    open spec fn wire(v: i32) -> Seq<u8> {
        be_bytes(pattern_of(v as int, 0x1_0000_0000), 4)
    }

    open spec fn parse(bytes: Seq<u8>) -> (Result<i32, ProtocolError>, nat) {
        match fixed_parse(bytes, 4) {
            (Ok(p), n) => (Ok(signed_of(p, 0x1_0000_0000) as i32), n),
            (Err(e), n) => (Err(e), n),
        }
    }

    fn to_mc_bytes(&self) -> (out: Vec<u8>) {
        be_u32(pattern_i32(*self))
    }

    fn from_mc_bytes(bytes: &mut Vec<u8>) -> (r: Result<Self, ProtocolError>) {
        proof {
            lemma_pow256_values();
        }
        match take_fixed(bytes, 4) {
            Ok(v) => Ok(signed_i32(v as u32)),
            Err(e) => Err(e),
        }
    }

    proof fn lemma_round_trip(v: i32, rest: Seq<u8>) {
        lemma_pow256_values();
        lemma_fixed_round_trip(pattern_of(v as int, 0x1_0000_0000), 4, rest);
    }
}

impl MCPacketCodec for u64 {
    open spec fn encodable(v: u64) -> bool {
        true
    }

    open spec fn wire(v: u64) -> Seq<u8> {
        be_bytes(v as nat, 8)
    }

    open spec fn parse(bytes: Seq<u8>) -> (Result<u64, ProtocolError>, nat) {
        match fixed_parse(bytes, 8) {
            (Ok(p), n) => (Ok(p as u64), n),
            (Err(e), n) => (Err(e), n),
        }
    }

    fn to_mc_bytes(&self) -> (out: Vec<u8>) {
        be_u64(*self)
    }

    fn from_mc_bytes(bytes: &mut Vec<u8>) -> (r: Result<Self, ProtocolError>) {
        proof {
            lemma_pow256_values();
        }
        match take_fixed(bytes, 8) {
            Ok(v) => Ok(v as u64),
            Err(e) => Err(e),
        }
    }

    proof fn lemma_round_trip(v: u64, rest: Seq<u8>) {
        lemma_pow256_values();
        lemma_fixed_round_trip(v as nat, 8, rest);
    }
}

impl MCPacketCodec for i64 {
    open spec fn encodable(v: i64) -> bool {
        true
    }

    open spec fn wire(v: i64) -> Seq<u8> {
        be_bytes(pattern_of(v as int, 0x1_0000_0000_0000_0000), 8)
    }

    open spec fn parse(bytes: Seq<u8>) -> (Result<i64, ProtocolError>, nat) {
        match fixed_parse(bytes, 8) {
            (Ok(p), n) => (Ok(signed_of(p, 0x1_0000_0000_0000_0000) as i64), n),
            (Err(e), n) => (Err(e), n),
        }
    }

    fn to_mc_bytes(&self) -> (out: Vec<u8>) {
        be_u64(pattern_i64(*self))
    }

    fn from_mc_bytes(bytes: &mut Vec<u8>) -> (r: Result<Self, ProtocolError>) {
        proof {
            lemma_pow256_values();
        }
        match take_fixed(bytes, 8) {
            Ok(v) => Ok(signed_i64(v as u64)),
            Err(e) => Err(e),
        }
    }

    proof fn lemma_round_trip(v: i64, rest: Seq<u8>) {
        lemma_pow256_values();
        lemma_fixed_round_trip(pattern_of(v as int, 0x1_0000_0000_0000_0000), 8, rest);
    }
}

/// What decoding a boolean from the front of `bytes` yields. A byte other
/// than 0 and 1 is consumed and refused.
pub open spec fn bool_parse(bytes: Seq<u8>) -> (Result<bool, ProtocolError>, nat) {
    if bytes.len() == 0 {
        (Err(ProtocolError::InsufficientData), 0)
    } else if bytes[0] == 1 {
        (Ok(true), 1)
    } else if bytes[0] == 0 {
        (Ok(false), 1)
    } else {
        (Err(ProtocolError::InvalidBoolean), 1)
    }
}

impl MCPacketCodec for bool {
    open spec fn encodable(v: bool) -> bool {
        true
    }

    open spec fn wire(v: bool) -> Seq<u8> {
        if v {
            seq![1u8]
        } else {
            seq![0u8]
        }
    }

    open spec fn parse(bytes: Seq<u8>) -> (Result<bool, ProtocolError>, nat) {
        bool_parse(bytes)
    }

    fn to_mc_bytes(&self) -> (out: Vec<u8>) {
        let mut out: Vec<u8> = Vec::new();
        if *self {
            out.push(1);
            assert(out@ =~= seq![1u8]);
        } else {
            out.push(0);
            assert(out@ =~= seq![0u8]);
        }
        out
    }

    fn from_mc_bytes(bytes: &mut Vec<u8>) -> (r: Result<Self, ProtocolError>) {
        if bytes.len() == 0 {
            assert(bytes@.skip(0) =~= bytes@);
            return Err(ProtocolError::InsufficientData);
        }
        let num: u8 = bytes[0];
        drop_front(bytes, 1);
        if num == 1 {
            Ok(true)
        } else if num == 0 {
            Ok(false)
        } else {
            Err(ProtocolError::InvalidBoolean)
        }
    }

    proof fn lemma_round_trip(v: bool, rest: Seq<u8>) {
    }
}

/// The strings that have a wire form: the byte count of their UTF-8 form
/// fits the signed 32-bit length prefix.
pub open spec fn string_encodable(chars: Seq<char>) -> bool {
    encode_utf8(chars).len() <= i32::MAX
}

/// The wire form of a string: the byte count of its UTF-8 form as a
/// variable-length integer, then those bytes.
pub open spec fn string_wire(chars: Seq<char>) -> Seq<u8> {
    varint32_wire(encode_utf8(chars).len() as i32) + encode_utf8(chars)
}

/// What decoding a string from the front of `bytes` yields, and how many
/// bytes it consumes.
///
/// A failure of the length prefix consumes nothing. A declared length that is
/// negative or exceeds what remains, and a body that is not UTF-8, consume
/// the length prefix and leave the rest.
pub open spec fn string_parse(bytes: Seq<u8>) -> (Result<Seq<char>, ProtocolError>, nat) {
    match varint32_parse(bytes) {
        (Err(e), _) => (Err(e), 0),
        (Ok(len), k) => {
            if len < 0 || bytes.len() - k < len {
                (Err(ProtocolError::InsufficientData), k)
            } else {
                let body = bytes.subrange(k as int, k + len);
                if valid_utf8(body) {
                    (Ok(decode_utf8(body)), (k + len) as nat)
                } else {
                    (Err(ProtocolError::InvalidUtf8), k)
                }
            }
        },
    }
}

/// A string survives encoding and decoding, whatever follows it.
pub proof fn lemma_string_round_trip(chars: Seq<char>, rest: Seq<u8>)
    requires
        string_encodable(chars),
    ensures
        string_parse(string_wire(chars) + rest) == (
            Ok::<Seq<char>, ProtocolError>(chars),
            string_wire(chars).len(),
        ),
{
    let body = encode_utf8(chars);
    let len = body.len() as i32;
    let prefix = varint32_wire(len);
    let whole = string_wire(chars) + rest;
    lemma_varint32_round_trip(len, body + rest);
    assert(whole =~= prefix + (body + rest));
    let k = prefix.len();
    assert(whole.subrange(k as int, k + len) =~= body);
    encode_utf8_valid_utf8(chars);
    encode_utf8_decode_utf8(chars);
}

/// A string that was decoded can be encoded again: its UTF-8 form is the body
/// it was decoded from, whose length the prefix could say.
pub proof fn lemma_parsed_string_encodable(bytes: Seq<u8>)
    ensures
        string_parse(bytes).0 matches Ok(chars) ==> string_encodable(chars),
{
    match varint32_parse(bytes) {
        (Ok(len), k) => {
            if !(len < 0 || bytes.len() - k < len) {
                let body = bytes.subrange(k as int, k + len);
                if valid_utf8(body) {
                    decode_utf8_encode_utf8(body);
                }
            }
        },
        (Err(_), _) => {},
    }
}

/// `String::from_utf8` of the standard library: it yields a string exactly
/// when the bytes are valid UTF-8, and the string then holds the characters
/// that the bytes encode. This is taken on trust, not proved.
#[verifier::external_body]
fn string_from_utf8(bytes: Vec<u8>) -> (r: Option<String>)
    ensures
        match r {
            Some(s) => valid_utf8(bytes@) && s@ == decode_utf8(bytes@),
            None => !valid_utf8(bytes@),
        },
{
    match String::from_utf8(bytes) {
        Ok(s) => Some(s),
        Err(_) => None,
    }
}

/// Whether a string has a wire form.
pub fn fits_string(s: &str) -> (fits: bool)
    ensures
        fits == string_encodable(s@),
{
    s.as_bytes().len() <= 0x7fff_ffff
}

/// The wire form of a string slice.
pub(crate) fn encode_str(s: &str) -> (out: Vec<u8>)
    requires
        string_encodable(s@),
    ensures
        out@ == string_wire(s@),
{
    let mut body = slice_to_vec(s.as_bytes());
    let mut out = encode_varint32(body.len() as i32);
    out.append(&mut body);
    out
}

/// Takes a string off the front of the buffer.
pub(crate) fn take_string(bytes: &mut Vec<u8>) -> (r: Result<String, ProtocolError>)
    ensures
        match r {
            Ok(s) => string_parse(old(bytes)@).0 == Ok::<Seq<char>, ProtocolError>(s@),
            Err(e) => string_parse(old(bytes)@).0 == Err::<Seq<char>, ProtocolError>(e),
        },
        string_parse(old(bytes)@).1 <= old(bytes)@.len(),
        final(bytes)@ == old(bytes)@.skip(string_parse(old(bytes)@).1 as int),
{
    let ghost before = bytes@;
    assert(before.subrange(0, before.len() as int) =~= before);
    let (len, k) = match decode_varint32(bytes, 0, bytes.len()) {
        Ok(found) => found,
        Err(e) => {
            assert(before.skip(0) =~= before);
            return Err(e);
        },
    };
    drop_front(bytes, k);
    if len < 0 || bytes.len() < len as usize {
        return Err(ProtocolError::InsufficientData);
    }
    let mut tail = bytes.split_off(len as usize);
    assert(bytes@ =~= before.subrange(k as int, k + len));
    assert(tail@ =~= before.skip(k + len));
    match string_from_utf8(bytes.clone()) {
        Some(s) => {
            *bytes = tail;
            Ok(s)
        },
        None => {
            bytes.append(&mut tail);
            assert(bytes@ =~= before.skip(k as int));
            Err(ProtocolError::InvalidUtf8)
        },
    }
}

impl MCPacketCodec for String {
    open spec fn encodable(v: Seq<char>) -> bool {
        string_encodable(v)
    }

    open spec fn wire(v: Seq<char>) -> Seq<u8> {
        string_wire(v)
    }

    open spec fn parse(bytes: Seq<u8>) -> (Result<Seq<char>, ProtocolError>, nat) {
        string_parse(bytes)
    }

    fn to_mc_bytes(&self) -> (out: Vec<u8>) {
        encode_str(self.as_str())
    }

    fn from_mc_bytes(bytes: &mut Vec<u8>) -> (r: Result<Self, ProtocolError>) {
        take_string(bytes)
    }

    proof fn lemma_round_trip(v: Seq<char>, rest: Seq<u8>) {
        lemma_string_round_trip(v, rest);
    }
}

/// A value with a canonical wire form of variable length: seven value bits
/// per byte, least significant group first.
pub trait MCVariablePacketCodec: Sized + View {
    /// The variable-length bytes of `v`.
    spec fn variable_wire(v: Self::V) -> Seq<u8>;

    /// The outcome of decoding from the front of `bytes` and the number of
    /// bytes consumed.
    spec fn variable_parse(bytes: Seq<u8>) -> (Result<Self::V, ProtocolError>, nat);

    /// The variable-length bytes of the value.
    fn to_mc_variable_bytes(&self) -> (out: Vec<u8>)
        ensures
            out@ == Self::variable_wire(self@),
    ;

    /// Takes a value off the front of the buffer. On failure the buffer is
    /// left as it was.
    fn from_mc_variable_bytes(bytes: &mut Vec<u8>) -> (r: Result<Self, ProtocolError>)
        ensures
            match r {
                Ok(v) => Self::variable_parse(old(bytes)@).0 == Ok::<Self::V, ProtocolError>(v@),
                Err(e) => Self::variable_parse(old(bytes)@) == (
                    Err::<Self::V, ProtocolError>(e),
                    0nat,
                ),
            },
            Self::variable_parse(old(bytes)@).1 <= old(bytes)@.len(),
            final(bytes)@ == old(bytes)@.skip(Self::variable_parse(old(bytes)@).1 as int),
    ;

    /// Decoding the variable-length bytes of a value, whatever follows them
    /// in the buffer, gives the value back and consumes exactly those bytes.
    proof fn lemma_variable_round_trip(v: Self::V, rest: Seq<u8>)
        ensures
            Self::variable_parse(Self::variable_wire(v) + rest) == (
                Ok::<Self::V, ProtocolError>(v),
                Self::variable_wire(v).len(),
            ),
    ;
}

impl MCVariablePacketCodec for i32 {
    open spec fn variable_wire(v: i32) -> Seq<u8> {
        varint32_wire(v)
    }

    open spec fn variable_parse(bytes: Seq<u8>) -> (Result<i32, ProtocolError>, nat) {
        varint32_parse(bytes)
    }

    fn to_mc_variable_bytes(&self) -> (out: Vec<u8>) {
        encode_varint32(*self)
    }

    fn from_mc_variable_bytes(bytes: &mut Vec<u8>) -> (r: Result<Self, ProtocolError>) {
        assert(bytes@.subrange(0, bytes@.len() as int) =~= bytes@);
        match decode_varint32(bytes, 0, bytes.len()) {
            Ok((v, n)) => {
                drop_front(bytes, n);
                Ok(v)
            },
            Err(e) => {
                assert(bytes@.skip(0) =~= bytes@);
                Err(e)
            },
        }
    }

    proof fn lemma_variable_round_trip(v: i32, rest: Seq<u8>) {
        lemma_varint32_round_trip(v, rest);
    }
}

impl MCVariablePacketCodec for i64 {
    open spec fn variable_wire(v: i64) -> Seq<u8> {
        varint64_wire(v)
    }

    open spec fn variable_parse(bytes: Seq<u8>) -> (Result<i64, ProtocolError>, nat) {
        varint64_parse(bytes)
    }

    fn to_mc_variable_bytes(&self) -> (out: Vec<u8>) {
        encode_varint64(*self)
    }

    fn from_mc_variable_bytes(bytes: &mut Vec<u8>) -> (r: Result<Self, ProtocolError>) {
        assert(bytes@.subrange(0, bytes@.len() as int) =~= bytes@);
        match decode_varint64(bytes, 0, bytes.len()) {
            Ok((v, n)) => {
                drop_front(bytes, n);
                Ok(v)
            },
            Err(e) => {
                assert(bytes@.skip(0) =~= bytes@);
                Err(e)
            },
        }
    }

    proof fn lemma_variable_round_trip(v: i64, rest: Seq<u8>) {
        lemma_varint64_round_trip(v, rest);
    }
}

} // verus!
