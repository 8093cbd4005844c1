//! Encoding and decoding of protocol values as free functions over byte
//! buffers.

use crate::bytes::{be_u64, pattern_i64};
use crate::error::ProtocolError;
use crate::net::packing::{
    all_words, digits_value, entry_at, fits, lemma_word_bound, lemma_word_push, packed_words,
    per_word, slot_shift, unpacked, word_at, word_count, word_entries, word_value,
};
use crate::primitive::{
    encode_str, string_encodable, string_parse, string_wire, take_string, MCPacketCodec,
    MCVariablePacketCodec,
};
use crate::varint::{encode_varint32, varint32_parse, varint32_wire};
use crate::wire::{be_bytes, pattern_of};
use crate::world::chunks::{ChunkColumn, ChunkSection};
use crate::world::Vector;
use vstd::arithmetic::div_mod::lemma_fundamental_div_mod_converse;
use vstd::arithmetic::power2::{
    lemma2_to64, lemma_pow2_adds, lemma_pow2_pos, lemma_pow2_strictly_increases, pow2,
};
use vstd::bits::{
    lemma_u64_low_bits_mask_is_mod, lemma_u64_pow2_no_overflow, lemma_u64_shl_is_mul,
    lemma_u64_shr_is_div, low_bits_mask,
};
use vstd::prelude::*;

verus! {

/// The single byte of a boolean: 1 for true, 0 for false.
pub fn encode_bool(val: bool) -> (out: Vec<u8>)
    ensures
        out@ == <bool as MCPacketCodec>::wire(val),
{
    val.to_mc_bytes()
}

/// The single byte of a signed byte: its two's-complement pattern.
pub fn encode_byte(num: i8) -> (out: Vec<u8>)
    ensures
        out@ == be_bytes(pattern_of(num as int, 0x100), 1),
{
    num.to_mc_bytes()
}

/// The single byte of an unsigned byte.
pub fn encode_ubyte(num: u8) -> (out: Vec<u8>)
    ensures
        out@ == be_bytes(num as nat, 1),
{
    num.to_mc_bytes()
}

/// The eight bytes of a signed 64-bit value, most significant first.
pub fn encode_long(num: i64) -> (out: Vec<u8>)
    ensures
        out@ == be_bytes(pattern_of(num as int, 0x1_0000_0000_0000_0000), 8),
{
    num.to_mc_bytes()
}

/// The four bytes of a signed 32-bit value, most significant first.
pub fn encode_int(num: i32) -> (out: Vec<u8>)
    ensures
        out@ == be_bytes(pattern_of(num as int, 0x1_0000_0000), 4),
{
    num.to_mc_bytes()
}

/// The bytes of a signed 32-bit value as a variable-length integer: seven
/// bits per byte, least significant group first. A negative value takes the
/// five bytes of its two's-complement pattern.
pub fn encode_varint(num: i32) -> (out: Vec<u8>)
    ensures
        out@ == varint32_wire(num),
        1 <= out@.len() <= 5,
{
    encode_varint32(num)
}

/// The 64-bit pattern of a packed position: the low 26 bits of `x`, then
/// the low 12 bits of `y`, then the low 26 bits of `z`.
pub open spec fn position_pattern(x: int, y: int, z: int) -> nat {
    ((x % 0x400_0000) * 0x40_0000_0000 + (y % 0x1000) * 0x400_0000 + (z % 0x400_0000)) as nat
}

/// The eight bytes of a packed position.
pub fn encode_position(vector: &Vector) -> (out: Vec<u8>)
    ensures
        out@ == be_bytes(position_pattern(vector.x as int, vector.y as int, vector.z as int), 8),
{
    let x: u64 = pattern_i64(vector.x);
    let y: u64 = pattern_i64(vector.y);
    let z: u64 = pattern_i64(vector.z);
    let value: u64 = ((x & 0x3FF_FFFF) << 38) | ((y & 0xFFF) << 26) | (z & 0x3FF_FFFF);
    proof {
        assert(value == (x % 0x400_0000) * 0x40_0000_0000 + (y % 0x1000) * 0x400_0000 + (z
            % 0x400_0000)) by (bit_vector)
            requires
                value == ((x & 0x3FF_FFFF) << 38) | ((y & 0xFFF) << 26) | (z & 0x3FF_FFFF),
        ;
        assert(x % 0x400_0000 == (vector.x as int) % 0x400_0000);
        assert(y % 0x1000 == (vector.y as int) % 0x1000);
        assert(z % 0x400_0000 == (vector.z as int) % 0x400_0000);
    }
    be_u64(value)
}

/// The wire form of a string: its byte length as a variable-length integer,
/// then its UTF-8 bytes.
pub fn encode_string(string: &str) -> (out: Vec<u8>)
    requires
        string_encodable(string@),
    ensures
        out@ == string_wire(string@),
{
    encode_str(string)
}

/// Takes a signed 64-bit value off the front of the buffer.
pub fn read_long(bytes: &mut Vec<u8>) -> (r: Result<i64, ProtocolError>)
    ensures
        match r {
            Ok(v) => {
                &&& old(bytes)@.len() >= 8
                &&& <i64 as MCPacketCodec>::parse(old(bytes)@).0 == Ok::<i64, ProtocolError>(v)
                &&& final(bytes)@ == old(bytes)@.skip(8)
            },
            Err(e) => {
                &&& old(bytes)@.len() < 8
                &&& e == ProtocolError::InsufficientData
                &&& final(bytes)@ == old(bytes)@
            },
        },
{
    i64::from_mc_bytes(bytes)
}

/// Takes an unsigned 16-bit value off the front of the buffer.
pub fn read_ushort(bytes: &mut Vec<u8>) -> (r: Result<u16, ProtocolError>)
    ensures
        match r {
            Ok(v) => {
                &&& old(bytes)@.len() >= 2
                &&& <u16 as MCPacketCodec>::parse(old(bytes)@).0 == Ok::<u16, ProtocolError>(v)
                &&& final(bytes)@ == old(bytes)@.skip(2)
            },
            Err(e) => {
                &&& old(bytes)@.len() < 2
                &&& e == ProtocolError::InsufficientData
                &&& final(bytes)@ == old(bytes)@
            },
        },
{
    u16::from_mc_bytes(bytes)
}

/// Takes a 32-bit variable-length integer off the front of the buffer.
///
/// It ends at the first byte with a clear high bit, which must be among the
/// first five. Failing that, the input is malformed if a sixth byte is
/// there, and incomplete otherwise. On failure the buffer is left as it was.
pub fn read_varint(bytes: &mut Vec<u8>) -> (r: Result<i32, ProtocolError>)
    ensures
        match r {
            Ok(v) => varint32_parse(old(bytes)@).0 == Ok::<i32, ProtocolError>(v),
            Err(e) => varint32_parse(old(bytes)@) == (Err::<i32, ProtocolError>(e), 0nat),
        },
        varint32_parse(old(bytes)@).1 <= old(bytes)@.len(),
        final(bytes)@ == old(bytes)@.skip(varint32_parse(old(bytes)@).1 as int),
{
    i32::from_mc_variable_bytes(bytes)
}

/// Takes a string off the front of the buffer.
///
/// On a failure of the length prefix nothing is consumed. Where the declared
/// length exceeds what remains, or the bytes are not UTF-8, the length prefix
/// is consumed and nothing after it.
pub fn read_string(bytes: &mut Vec<u8>) -> (r: Result<String, ProtocolError>)
    ensures
        match r {
            Ok(s) => string_parse(old(bytes)@).0 == Ok::<Seq<char>, ProtocolError>(s@),
            Err(e) => string_parse(old(bytes)@).0 == Err::<Seq<char>, ProtocolError>(e),
        },
        string_parse(old(bytes)@).1 <= old(bytes)@.len(),
        final(bytes)@ == old(bytes)@.skip(string_parse(old(bytes)@).1 as int),
{
    take_string(bytes)
}

/// The weight of a bit that is set, and nothing for one that is not.
pub open spec fn bit(set: bool, weight: nat) -> nat {
    if set {
        weight
    } else {
        0
    }
}

/// The mask of the eight sections below number `upto`, the highest of them
/// in the top bit.
pub open spec fn window_mask(column: ChunkColumn, upto: int) -> nat {
    bit(column.has_section(upto - 1), 128) + bit(column.has_section(upto - 2), 64) + bit(
        column.has_section(upto - 3),
        32,
    ) + bit(column.has_section(upto - 4), 16) + bit(column.has_section(upto - 5), 8) + bit(
        column.has_section(upto - 6),
        4,
    ) + bit(column.has_section(upto - 7), 2) + bit(column.has_section(upto - 8), 1)
}

/// The section mask of a column: bit `j` says whether section `8 + j` is
/// there. The mask has no room for the lower eight sections.
pub open spec fn section_mask(column: ChunkColumn) -> nat {
    window_mask(column, 16)
}

/// The head of the data of a chunk column: its coordinates, the flag of a
/// full chunk, and the section mask.
pub open spec fn chunk_column_head(column: ChunkColumn) -> Seq<u8> {
    be_bytes(pattern_of(column.x as int, 0x1_0000_0000), 4) + be_bytes(
        pattern_of(column.z as int, 0x1_0000_0000),
        4,
    ) + seq![1u8] + be_bytes(section_mask(column), 1)
}

/// The head of the data of a chunk column.
pub fn encode_chunk_column(column: &ChunkColumn) -> (data: Vec<u8>)
    ensures
        data@ == chunk_column_head(*column),
{
    let mut data: Vec<u8> = Vec::new();
    data.append(&mut encode_int(column.x));
    data.append(&mut encode_int(column.z));
    data.append(&mut encode_bool(true));  // Full chunk

    let mut mask: u8 = 0;
    let mut i: usize = 0;
    while i < 16
        invariant
            i <= 16,
            mask == window_mask(*column, i as int),
        decreases 16 - i,
    {
        let shifted: u8 = mask >> 1;
        assert(shifted == mask / 2 && (shifted | 0b1000_0000) == mask / 2 + 128) by (bit_vector)
            requires
                shifted == mask >> 1,
        ;
        mask = shifted;
        match &column.sections[i] {
            Some(_) => {
                mask = mask | 0b1000_0000;
            },
            None => (),
        }
        i += 1;
    }
    data.append(&mut encode_ubyte(mask));
    assert(data@ =~= chunk_column_head(*column));
    data
}

/// How many bits a block identifier takes where no palette is used.
pub const DIRECT_BITS_PER_BLOCK: u8 = 14;

/// The head of the data of a chunk section: the number of bits per block.
/// No palette follows: identifiers are used directly.
pub fn encode_chunk_section(section: &ChunkSection) -> (data: Vec<u8>)
    ensures
        data@ == be_bytes(DIRECT_BITS_PER_BLOCK as nat, 1),
{
    let mut data: Vec<u8> = Vec::new();
    data.append(&mut encode_ubyte(DIRECT_BITS_PER_BLOCK));  // Bits per block
    data
}

/// The low `k` bits of `a` are zero.
spec fn low_zero(a: u64, k: u64) -> bool {
    if k >= 64 {
        a == 0
    } else {
        a & (((1u64 << k) - 1) as u64) == 0
    }
}

/// Placing a field below everything already in the word is an addition.
proof fn lemma_place_field(a: u64, t: u64, off: u64, k: u64)
    requires
        off < 64,
        off <= k <= 64,
        low_zero(a, k),
        k < 64 ==> t < (1u64 << k),
        t & (((1u64 << off) - 1) as u64) == 0,
    ensures
        (a | t) == a + t,
        low_zero(a | t, off),
{
    if k >= 64 {
        assert((0u64 | t) == t) by (bit_vector);
    } else {
        assert((a | t) == a + t) by (bit_vector)
            requires
                k < 64,
                a & (((1u64 << k) - 1) as u64) == 0,
                t < (1u64 << k),
        ;
        assert((a | t) & (((1u64 << off) - 1) as u64) == 0) by (bit_vector)
            requires
                off <= k < 64,
                a & (((1u64 << k) - 1) as u64) == 0,
                t & (((1u64 << off) - 1) as u64) == 0,
        ;
    }
}

/// Whether `size` is a width that the packer takes and every identifier is
/// representable in it.
pub fn ids_fit(ids: &Vec<u32>, size: i32) -> (b: bool)
    ensures
        b == (1 <= size <= 64 && fits(ids@, size as nat)),
{
    if size < 1 || size > 64 {
        return false;
    }
    proof {
        lemma2_to64();
        if size > 32 {
            lemma_pow2_strictly_increases(32, size as nat);
        }
    }
    if size >= 32 {
        return true;
    }
    proof {
        lemma_u64_pow2_no_overflow(size as nat);
        lemma_u64_shl_is_mul(1, size as u64);
    }
    let limit: u64 = 1u64 << (size as u64);
    let mut i: usize = 0;
    while i < ids.len()
        invariant
            i <= ids.len(),
            limit == pow2(size as nat),
            forall|j: int| 0 <= j < i ==> #[trigger] ids@[j] < pow2(size as nat),
        decreases ids.len() - i,
    {
        if ids[i] as u64 >= limit {
            return false;
        }
        i += 1;
    }
    true
}

/// Packs block identifiers of `size` bits each into 64-bit words.
///
/// Entries fill a word from its top bit down. An entry that no longer fits
/// in the current word starts the next one; the bits left over stay zero.
/// Every word that is followed by another is emitted; the last word is
/// emitted unless it is zero.
pub fn encode_ids(ids: Vec<u32>, size: i32) -> (data: Vec<u64>)
    requires
        1 <= size <= 64,
        fits(ids@, size as nat),
    ensures
        data@ == packed_words(ids@, size as nat),
{
    let ghost bits = size as nat;
    let ghost pw = per_word(bits);
    let mut data: Vec<u64> = Vec::new();
    let mut offset: i32 = 64 - size;
    let mut long: u64 = 0;
    let mut i: usize = 0;
    let ghost mut base: nat = 0;
    proof {
        lemma2_to64();
        assert(ids@.subrange(0, 0) =~= Seq::<u32>::empty());
        assert(digits_value(Seq::<u32>::empty(), bits) == 0);
        assert(word_value(Seq::<u32>::empty(), bits) == 0) by (nonlinear_arith)
            requires
                digits_value(Seq::<u32>::empty(), bits) == 0,
                word_value(Seq::<u32>::empty(), bits) == digits_value(
                    Seq::<u32>::empty(),
                    bits,
                ) * pow2((64 - Seq::<u32>::empty().len() * bits) as nat),
        ;
        assert(0 * size == 0 && 0 * pw == 0 && (0 + 1) * size == size) by (nonlinear_arith);
        assert(pw * bits <= 64 && pw >= 1) by (nonlinear_arith)
            requires
                pw == 64int / (bits as int),
                1 <= bits <= 64,
        ;
    }
    while i < ids.len()
        invariant
            1 <= size <= 64,
            bits == size,
            pw == per_word(bits),
            pw >= 1,
            pw * bits <= 64,
            fits(ids@, bits),
            i <= ids.len(),
            base <= i,
            i - base <= pw,
            base == data.len() * pw,
            i > 0 ==> i - base >= 1,
            offset == 64 - (i - base + 1) * size,
            long == word_value(ids@.subrange(base as int, i as int), bits),
            low_zero(long, (offset + size) as u64),
            forall|j: int|
                0 <= j < data.len() ==> data@[j] == word_value(
                    word_entries(ids@, bits, j as nat),
                    bits,
                ) as u64,
        decreases ids.len() - i,
    {
        let id: u64 = ids[i] as u64;
        proof {
            let s = i - base;
            assert((offset < 0) <==> (s == pw)) by (nonlinear_arith)
                requires
                    offset == 64 - (s + 1) * size,
                    pw == 64int / (size as int),
                    1 <= size <= 64,
                    0 <= s <= pw,
            ;
        }
        if offset < 0 {
            proof {
                assert(word_entries(ids@, bits, data.len() as nat) =~= ids@.subrange(
                    base as int,
                    i as int,
                ));
                assert((data.len() + 1) * pw == data.len() * pw + pw) by (nonlinear_arith);
                assert(ids@.subrange(i as int, i as int) =~= Seq::<u32>::empty());
                assert(digits_value(Seq::<u32>::empty(), bits) == 0);
                assert(word_value(Seq::<u32>::empty(), bits) == 0) by (nonlinear_arith)
                    requires
                        digits_value(Seq::<u32>::empty(), bits) == 0,
                        word_value(Seq::<u32>::empty(), bits) == digits_value(
                            Seq::<u32>::empty(),
                            bits,
                        ) * pow2((64 - Seq::<u32>::empty().len() * bits) as nat),
                ;
                let full = ids@.subrange(base as int, i as int);
                assert(fits(full, bits)) by {
                    assert forall|j: int| 0 <= j < full.len() implies #[trigger] full[j] < pow2(
                        bits,
                    ) by {
                        assert(full[j] == ids@[base + j]);
                    }
                }
                lemma_word_bound(full, bits);
                base = i as nat;
            }
            data.push(long);
            long = 0;
            offset = 64 - size;
        }
        let ghost entries = ids@.subrange(base as int, i as int);
        let ghost s = (i - base) as nat;
        proof {
            assert(offset >= 0);
            assert((0 + 1) * size == size) by (nonlinear_arith);
            assert(offset == 64 - (s + 1) * size);
            assert((s + 1) * bits <= 64 && offset + size == 64 - s * size) by (nonlinear_arith)
                requires
                    offset == 64 - (s + 1) * size,
                    offset >= 0,
                    bits == size,
            ;
            let more = ids@.subrange(base as int, i + 1);
            assert(more =~= entries.push(ids@[i as int]));
            assert(fits(more, bits)) by {
                assert forall|j: int| 0 <= j < more.len() implies #[trigger] more[j] < pow2(
                    bits,
                ) by {
                    assert(more[j] == ids@[base + j]);
                }
            }
            lemma_word_push(entries, bits, ids@[i as int]);
            lemma_word_bound(more, bits);
            assert(slot_shift(bits, s) == offset);
            lemma_u64_shl_is_mul(id, offset as u64);
            let t = id << (offset as u64);
            let k = (offset + size) as u64;
            assert(t & ((((1u64 << (offset as u64)) - 1)) as u64) == 0) by (bit_vector)
                requires
                    t == id << (offset as u64),
                    offset < 64,
            ;
            if k < 64 {
                lemma_u64_pow2_no_overflow(k as nat);
                lemma_u64_shl_is_mul(1, k);
                lemma_pow2_adds(bits, offset as nat);
                lemma_pow2_pos(offset as nat);
                assert(id * pow2(offset as nat) < pow2(bits) * pow2(offset as nat))
                    by (nonlinear_arith)
                    requires
                        id < pow2(bits),
                        pow2(offset as nat) > 0,
                ;
            }
            lemma_place_field(long, t, offset as u64, k);
        }
        long = long | (id << (offset as u64));
        offset = offset - size;
        i += 1;
        proof {
            assert((i - base + 1) * size == (s + 1) * size + size) by (nonlinear_arith)
                requires
                    i - base == s + 1,
            ;
        }
    }
    proof {
        let w = data.len() as nat;
        let n = ids.len() as nat;
        if n == 0 {
            assert(word_count(n, bits) == 0) by (nonlinear_arith)
                requires
                    n == 0,
                    pw >= 1,
                    word_count(n, bits) == (n + pw - 1) / (pw as int),
            ;
            assert(w == 0) by (nonlinear_arith)
                requires
                    w * pw == 0,
                    pw >= 1,
            ;
            assert(data@ =~= all_words(ids@, bits));
        } else {
            let s = (n - base) as nat;
            assert((w as int + 1) * (pw as int) == w * pw + pw) by (nonlinear_arith);
            lemma_fundamental_div_mod_converse(n + pw - 1, pw as int, w as int + 1, s - 1);
            assert(word_count(n, bits) == w + 1);
            assert(word_entries(ids@, bits, w) =~= ids@.subrange(base as int, n as int));
            let entries = ids@.subrange(base as int, n as int);
            assert(fits(entries, bits)) by {
                assert forall|j: int| 0 <= j < entries.len() implies #[trigger] entries[j]
                    < pow2(bits) by {
                    assert(entries[j] == ids@[base + j]);
                }
            }
            assert(entries.len() * bits <= 64) by (nonlinear_arith)
                requires
                    entries.len() <= pw,
                    pw * bits <= 64,
            ;
            lemma_word_bound(entries, bits);
            assert(all_words(ids@, bits) =~= data@.push(long));
            assert(data@.push(long).drop_last() =~= data@);
        }
    }
    if long != 0 {
        data.push(long);
    }
    data
}

/// Reads `count` block identifiers of `size` bits each back out of packed
/// words. Words past the end of `words` count as zero, as the packer leaves
/// out a last word that is zero.
pub fn decode_ids(words: &Vec<u64>, size: i32, count: usize) -> (ids: Vec<u32>)
    requires
        1 <= size <= 32,
    ensures
        ids@ == unpacked(words@, size as nat, count as nat),
{
    let ghost bits = size as nat;
    let width: usize = size as usize;
    let per: usize = 64 / width;
    proof {
        lemma2_to64();
        lemma_u64_pow2_no_overflow(bits);
        lemma_u64_shl_is_mul(1, size as u64);
        lemma_pow2_pos(bits);
    }
    let mask: u64 = (1u64 << (size as u64)) - 1;
    proof {
        assert(pow2(bits) <= 0x1_0000_0000) by {
            if bits < 32 {
                lemma_pow2_strictly_increases(bits, 32);
            }
        }
        assert(per * width <= 64 && per >= 1) by (nonlinear_arith)
            requires
                per == 64int / (width as int),
                1 <= width <= 32,
        ;
        assert(mask == low_bits_mask(bits));
    }
    let mut ids: Vec<u32> = Vec::new();
    let mut i: usize = 0;
    while i < count
        invariant
            1 <= size <= 32,
            bits == size,
            width == size,
            per == per_word(bits),
            per >= 1,
            per * width <= 64,
            mask == low_bits_mask(bits),
            mask == pow2(bits) - 1,
            pow2(bits) <= 0x1_0000_0000,
            i <= count,
            ids@ == unpacked(words@, bits, i as nat),
        decreases count - i,
    {
        let w: usize = i / per;
        let slot: usize = i % per;
        proof {
            assert((slot + 1) * width <= 64 && (slot + 1) * width >= 1) by (nonlinear_arith)
                requires
                    slot < per,
                    per * width <= 64,
                    width >= 1,
            ;
        }
        let shift: u64 = (64 - (slot + 1) * width) as u64;
        let word: u64 = if w < words.len() {
            words[w]
        } else {
            0
        };
        let value: u64 = (word >> shift) & mask;
        proof {
            lemma_u64_shr_is_div(word, shift);
            lemma_u64_low_bits_mask_is_mod(word >> shift, bits);
            assert(shift == slot_shift(bits, slot as nat));
            assert(word == word_at(words@, w as nat));
            assert(value == entry_at(words@, bits, i as nat));
            assert(value < pow2(bits));
        }
        ids.push(value as u32);
        i += 1;
        assert(ids@ =~= unpacked(words@, bits, i as nat));
    }
    ids
}

} // verus!
