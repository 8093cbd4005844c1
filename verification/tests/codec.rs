use obelisk::error::ProtocolError;
use obelisk::net::codec::{
    decode_ids, encode_bool, encode_byte, encode_ids, encode_int, encode_long, encode_position,
    encode_string, encode_ubyte, encode_varint, ids_fit, read_long, read_string, read_ushort,
    read_varint,
};
use obelisk::primitive::{fits_string, MCPacketCodec, MCVariablePacketCodec};
use obelisk::world::Vector;

#[test]
fn fixed_width_boundaries_round_trip() {
    for value in [0u8, 1, 0x7f, 0x80, u8::MAX] {
        let mut bytes = value.to_mc_bytes();
        assert_eq!(bytes.len(), 1);
        assert_eq!(u8::from_mc_bytes(&mut bytes), Ok(value));
    }
    for value in [i8::MIN, -1, 0, 1, i8::MAX] {
        let mut bytes = value.to_mc_bytes();
        assert_eq!(i8::from_mc_bytes(&mut bytes), Ok(value));
    }
    for value in [0u16, 1, 0x00ff, 0x0100, u16::MAX] {
        let mut bytes = value.to_mc_bytes();
        assert_eq!(bytes.len(), 2);
        assert_eq!(u16::from_mc_bytes(&mut bytes), Ok(value));
    }
    for value in [i16::MIN, -1, 0, 1, i16::MAX] {
        let mut bytes = value.to_mc_bytes();
        assert_eq!(i16::from_mc_bytes(&mut bytes), Ok(value));
    }
    for value in [0u32, 1, 0x00ff_ffff, 0x0100_0000, u32::MAX] {
        let mut bytes = value.to_mc_bytes();
        assert_eq!(bytes.len(), 4);
        assert_eq!(u32::from_mc_bytes(&mut bytes), Ok(value));
    }
    for value in [i32::MIN, -1, 0, 1, i32::MAX] {
        let mut bytes = value.to_mc_bytes();
        assert_eq!(i32::from_mc_bytes(&mut bytes), Ok(value));
    }
    for value in [0u64, 1, 0x00ff_ffff_ffff_ffff, 0x0100_0000_0000_0000, u64::MAX] {
        let mut bytes = value.to_mc_bytes();
        assert_eq!(bytes.len(), 8);
        assert_eq!(u64::from_mc_bytes(&mut bytes), Ok(value));
    }
    for value in [i64::MIN, -1, 0, 1, i64::MAX] {
        let mut bytes = value.to_mc_bytes();
        assert_eq!(i64::from_mc_bytes(&mut bytes), Ok(value));
    }
}

#[test]
fn fixed_width_is_big_endian() {
    assert_eq!(0x0102u16.to_mc_bytes(), vec![0x01, 0x02]);
    assert_eq!(0x01020304u32.to_mc_bytes(), vec![0x01, 0x02, 0x03, 0x04]);
    assert_eq!(
        0x0102030405060708u64.to_mc_bytes(),
        vec![0x01, 0x02, 0x03, 0x04, 0x05, 0x06, 0x07, 0x08]
    );
    assert_eq!((-2i16).to_mc_bytes(), vec![0xff, 0xfe]);
    assert_eq!(i32::MIN.to_mc_bytes(), vec![0x80, 0, 0, 0]);
    assert_eq!((-1i64).to_mc_bytes(), vec![0xff; 8]);
}

#[test]
fn decoding_consumes_from_the_front_only() {
    let mut bytes = vec![0x12, 0x34, 0x56, 0x78, 0x9a];
    assert_eq!(u16::from_mc_bytes(&mut bytes), Ok(0x1234));
    assert_eq!(bytes, vec![0x56, 0x78, 0x9a]);
    assert_eq!(u8::from_mc_bytes(&mut bytes), Ok(0x56));
    assert_eq!(bytes, vec![0x78, 0x9a]);
}

#[test]
fn short_buffers_are_insufficient_and_untouched() {
    let mut bytes: Vec<u8> = vec![];
    assert_eq!(u8::from_mc_bytes(&mut bytes), Err(ProtocolError::InsufficientData));
    let mut bytes = vec![1];
    assert_eq!(u16::from_mc_bytes(&mut bytes), Err(ProtocolError::InsufficientData));
    assert_eq!(bytes, vec![1]);
    let mut bytes = vec![1, 2, 3];
    assert_eq!(i32::from_mc_bytes(&mut bytes), Err(ProtocolError::InsufficientData));
    assert_eq!(bytes, vec![1, 2, 3]);
    let mut bytes = vec![1, 2, 3, 4, 5, 6, 7];
    assert_eq!(i64::from_mc_bytes(&mut bytes), Err(ProtocolError::InsufficientData));
    assert_eq!(read_long(&mut bytes), Err(ProtocolError::InsufficientData));
    assert_eq!(bytes.len(), 7);
    let mut bytes = vec![9];
    assert_eq!(read_ushort(&mut bytes), Err(ProtocolError::InsufficientData));
    assert_eq!(bytes, vec![9]);
}

#[test]
fn booleans_accept_only_zero_and_one() {
    let mut bytes = vec![1, 0, 2, 7];
    assert_eq!(bool::from_mc_bytes(&mut bytes), Ok(true));
    assert_eq!(bool::from_mc_bytes(&mut bytes), Ok(false));
    assert_eq!(bool::from_mc_bytes(&mut bytes), Err(ProtocolError::InvalidBoolean));
    assert_eq!(bytes, vec![7]);
    let mut empty: Vec<u8> = vec![];
    assert_eq!(bool::from_mc_bytes(&mut empty), Err(ProtocolError::InsufficientData));
}

#[test]
fn free_encoders_agree_with_the_traits() {
    assert_eq!(encode_bool(true), vec![1]);
    assert_eq!(encode_bool(false), vec![0]);
    assert_eq!(encode_byte(-93), vec![163]);
    assert_eq!(encode_ubyte(238), vec![238]);
    assert_eq!(encode_int(-1758047738), vec![0x97, 0x36, 0x52, 0x06]);
    assert_eq!(
        encode_long(-3736352032367538272),
        vec![0xCC, 0x25, 0xCF, 0x9F, 0x62, 0xEC, 0x8F, 0xA0]
    );
}

#[test]
fn read_long_and_ushort_take_their_width() {
    let mut bytes = vec![0xCC, 0x25, 0xCF, 0x9F, 0x62, 0xEC, 0x8F, 0xA0, 0xD7, 0xCC, 0x01];
    assert_eq!(read_long(&mut bytes), Ok(-3736352032367538272));
    assert_eq!(read_ushort(&mut bytes), Ok(55244));
    assert_eq!(bytes, vec![0x01]);
}

#[test]
fn varint_known_encodings() {
    assert_eq!(encode_varint(0), vec![0x00]);
    assert_eq!(encode_varint(1), vec![0x01]);
    assert_eq!(encode_varint(127), vec![0x7f]);
    assert_eq!(encode_varint(128), vec![0x80, 0x01]);
    assert_eq!(encode_varint(255), vec![0xff, 0x01]);
    assert_eq!(encode_varint(25565), vec![0xdd, 0xc7, 0x01]);
    assert_eq!(encode_varint(2097151), vec![0xff, 0xff, 0x7f]);
    assert_eq!(encode_varint(2147483647), vec![0xff, 0xff, 0xff, 0xff, 0x07]);
    assert_eq!(encode_varint(-1), vec![0xff, 0xff, 0xff, 0xff, 0x0f]);
    assert_eq!(encode_varint(-2147483648), vec![0x80, 0x80, 0x80, 0x80, 0x08]);
}

#[test]
fn varint_round_trips_at_the_boundaries() {
    for value in [0, 1, 127, 128, 16383, 16384, i32::MAX, -1, i32::MIN, 335551513] {
        let mut bytes = encode_varint(value);
        bytes.push(0xAB);
        assert_eq!(read_varint(&mut bytes), Ok(value));
        assert_eq!(bytes, vec![0xAB]);
    }
}

#[test]
fn varint_five_bytes_with_terminator_is_the_maximum() {
    let mut bytes = vec![0xff, 0xff, 0xff, 0xff, 0x07];
    assert_eq!(read_varint(&mut bytes), Ok(2147483647));
    assert!(bytes.is_empty());
}

#[test]
fn varint_six_continuation_bytes_are_malformed() {
    let mut bytes = vec![0xff, 0xff, 0xff, 0xff, 0xff, 0xff];
    assert_eq!(read_varint(&mut bytes), Err(ProtocolError::MalformedVarInt));
    assert_eq!(bytes.len(), 6);
    let mut bytes = vec![0x80, 0x80, 0x80, 0x80, 0x80, 0x00];
    assert_eq!(i32::from_mc_variable_bytes(&mut bytes), Err(ProtocolError::MalformedVarInt));
    assert_eq!(bytes.len(), 6);
}

#[test]
fn varint_without_terminator_is_incomplete() {
    let mut bytes: Vec<u8> = vec![];
    assert_eq!(read_varint(&mut bytes), Err(ProtocolError::InsufficientData));
    let mut bytes = vec![0x80];
    assert_eq!(read_varint(&mut bytes), Err(ProtocolError::InsufficientData));
    assert_eq!(bytes, vec![0x80]);
    let mut bytes = vec![0xff, 0xff, 0xff, 0xff, 0xff];
    assert_eq!(read_varint(&mut bytes), Err(ProtocolError::InsufficientData));
    assert_eq!(bytes.len(), 5);
}

#[test]
fn varint_fifth_byte_loses_its_high_bits() {
    let mut bytes = vec![0xff, 0xff, 0xff, 0xff, 0x7f];
    assert_eq!(read_varint(&mut bytes), Ok(-1));
    let mut bytes = vec![0x80, 0x80, 0x80, 0x80, 0x10];
    assert_eq!(read_varint(&mut bytes), Ok(0));
}

#[test]
fn varlong_round_trips_at_the_boundaries() {
    assert_eq!(i64::MAX.to_mc_variable_bytes(), vec![0xff, 0xff, 0xff, 0xff, 0xff, 0xff, 0xff, 0xff, 0x7f]);
    assert_eq!((-1i64).to_mc_variable_bytes(), vec![0xff, 0xff, 0xff, 0xff, 0xff, 0xff, 0xff, 0xff, 0xff, 0x01]);
    for value in [0i64, 1, 127, 128, i32::MAX as i64, i64::MAX, -1, i64::MIN] {
        let mut bytes = value.to_mc_variable_bytes();
        bytes.push(0x55);
        assert_eq!(i64::from_mc_variable_bytes(&mut bytes), Ok(value));
        assert_eq!(bytes, vec![0x55]);
    }
    let mut bytes = vec![0xff; 11];
    assert_eq!(i64::from_mc_variable_bytes(&mut bytes), Err(ProtocolError::MalformedVarInt));
    let mut bytes = vec![0xff; 10];
    assert_eq!(i64::from_mc_variable_bytes(&mut bytes), Err(ProtocolError::InsufficientData));
}

#[test]
fn strings_round_trip() {
    for text in ["", "a", "Notch", "héllo wörld", "日本語", "\u{1F600} face"] {
        let mut bytes = encode_string(text);
        assert_eq!(bytes[..1], encode_varint(text.len() as i32)[..1]);
        bytes.push(0xEE);
        assert_eq!(read_string(&mut bytes), Ok(text.to_string()));
        assert_eq!(bytes, vec![0xEE]);
    }
    assert_eq!(encode_string(""), vec![0]);
    assert_eq!(encode_string("hi"), vec![2, b'h', b'i']);
    let long = "x".repeat(300);
    let encoded = encode_string(&long);
    assert_eq!(encoded[..2], [0xac, 0x02]);
    assert_eq!(encoded.len(), 302);
}

#[test]
fn string_shorter_than_declared_keeps_its_body() {
    let mut bytes = vec![5, b'a', b'b'];
    assert_eq!(read_string(&mut bytes), Err(ProtocolError::InsufficientData));
    assert_eq!(bytes, vec![b'a', b'b']);
}

#[test]
fn string_with_invalid_utf8_keeps_its_body() {
    let mut bytes = vec![2, 0xc3, 0x28, 0x01];
    assert_eq!(read_string(&mut bytes), Err(ProtocolError::InvalidUtf8));
    assert_eq!(bytes, vec![0xc3, 0x28, 0x01]);
    let mut bytes = vec![1, 0xff];
    assert_eq!(String::from_mc_bytes(&mut bytes), Err(ProtocolError::InvalidUtf8));
    assert_eq!(bytes, vec![0xff]);
}

#[test]
fn strings_must_be_well_formed_utf8() {
    for body in [
        vec![0xc0, 0x80],
        vec![0xe0, 0x80, 0x80],
        vec![0xed, 0xa0, 0x80],
        vec![0xf4, 0x90, 0x80, 0x80],
        vec![0xf8, 0x88, 0x80, 0x80],
        vec![0x80],
        vec![0xe2, 0x82],
    ] {
        let mut bytes = vec![body.len() as u8];
        bytes.extend(body.iter());
        assert_eq!(read_string(&mut bytes), Err(ProtocolError::InvalidUtf8));
        assert_eq!(bytes, body);
    }
    for (body, text) in [
        (vec![0xc2, 0x80], "\u{80}"),
        (vec![0xed, 0x9f, 0xbf], "\u{d7ff}"),
        (vec![0xef, 0xbf, 0xbf], "\u{ffff}"),
        (vec![0xf0, 0x90, 0x80, 0x80], "\u{10000}"),
        (vec![0xf4, 0x8f, 0xbf, 0xbf], "\u{10ffff}"),
    ] {
        let mut bytes = vec![body.len() as u8];
        bytes.extend(body.iter());
        assert_eq!(read_string(&mut bytes), Ok(text.to_string()));
        assert!(bytes.is_empty());
    }
}

#[test]
fn string_with_bad_prefix_consumes_nothing() {
    let mut bytes = vec![0x80, 0x80, 0x80, 0x80, 0x80, 0x80, b'a'];
    assert_eq!(read_string(&mut bytes), Err(ProtocolError::MalformedVarInt));
    assert_eq!(bytes.len(), 7);
    let mut bytes = vec![0xff, 0xff, 0xff, 0xff, 0x0f, b'a'];
    assert_eq!(read_string(&mut bytes), Err(ProtocolError::InsufficientData));
    assert_eq!(bytes, vec![b'a']);
}

#[test]
fn position_packs_three_fields() {
    let bytes = encode_position(&Vector { x: 1, y: 2, z: 3 });
    let expected: u64 = (1 << 38) | (2 << 26) | 3;
    assert_eq!(bytes, expected.to_be_bytes().to_vec());

    let bytes = encode_position(&Vector { x: -1, y: -1, z: -1 });
    assert_eq!(bytes, vec![0xff; 8]);

    let bytes = encode_position(&Vector { x: 0x3FF_FFFF + 1, y: 0x1000, z: 0x400_0000 });
    assert_eq!(bytes, vec![0; 8]);

    let bytes = encode_position(&Vector { x: -2, y: 64, z: 100 });
    let expected: u64 = (0x3FF_FFFE << 38) | (64 << 26) | 100;
    assert_eq!(bytes, expected.to_be_bytes().to_vec());
}

#[test]
fn packing_three_entries_of_four_bits() {
    let words = encode_ids(vec![1, 2, 3], 4);
    assert_eq!(words, vec![0x1230_0000_0000_0000]);
    assert_eq!(decode_ids(&words, 4, 3), vec![1, 2, 3]);
}

#[test]
fn packing_never_splits_an_entry() {
    let ids: Vec<u32> = (1..=13).collect();
    let words = encode_ids(ids.clone(), 5);
    assert_eq!(words.len(), 2);
    let mut first: u64 = 0;
    for (slot, id) in ids.iter().take(12).enumerate() {
        first |= (*id as u64) << (64 - 5 * (slot + 1));
    }
    assert_eq!(words[0], first);
    assert_eq!(words[0] & 0xf, 0);
    assert_eq!(words[1], 13u64 << 59);
    assert_eq!(decode_ids(&words, 5, 13), ids);
}

#[test]
fn packing_leaves_out_a_last_word_of_zero() {
    assert_eq!(encode_ids(vec![], 4), Vec::<u64>::new());
    assert_eq!(encode_ids(vec![0, 0, 0], 4), Vec::<u64>::new());
    let mut ids = vec![7u32; 16];
    ids.push(0);
    let words = encode_ids(ids.clone(), 4);
    assert_eq!(words, vec![0x7777_7777_7777_7777]);
    assert_eq!(decode_ids(&words, 4, 17), ids);
    let words = encode_ids(vec![0; 16].into_iter().chain([5]).collect(), 4);
    assert_eq!(words, vec![0, 0x5000_0000_0000_0000]);
}

#[test]
fn identifiers_must_fit_the_width() {
    assert!(ids_fit(&vec![], 1));
    assert!(ids_fit(&vec![0, 1], 1));
    assert!(!ids_fit(&vec![0, 2], 1));
    assert!(ids_fit(&vec![15, 0, 7], 4));
    assert!(!ids_fit(&vec![15, 16], 4));
    assert!(ids_fit(&vec![0x3fff], 14));
    assert!(!ids_fit(&vec![0x4000], 14));
    assert!(ids_fit(&vec![0x7fff_ffff], 31));
    assert!(!ids_fit(&vec![0x8000_0000], 31));
    assert!(ids_fit(&vec![u32::MAX], 32));
    assert!(ids_fit(&vec![u32::MAX], 64));
    assert!(!ids_fit(&vec![1], 0));
    assert!(!ids_fit(&vec![1], -4));
    assert!(!ids_fit(&vec![1], 65));
}

#[test]
fn short_strings_have_a_wire_form() {
    assert!(fits_string(""));
    assert!(fits_string("Notch"));
    assert!(fits_string(&"x".repeat(70000)));
}

#[test]
fn packing_at_other_widths() {
    assert_eq!(encode_ids(vec![1], 1), vec![0x8000_0000_0000_0000]);
    assert_eq!(encode_ids(vec![1, 0, 1], 1), vec![0xA000_0000_0000_0000]);
    assert_eq!(encode_ids(vec![0x3fff, 1], 14), vec![(0x3fffu64 << 50) | (1 << 36)]);
    assert_eq!(encode_ids(vec![u32::MAX, 1], 32), vec![0xffff_ffff_0000_0001]);
    assert_eq!(encode_ids(vec![u32::MAX, 1], 33), vec![0x7fff_ffff_8000_0000, 1 << 31]);
    assert_eq!(encode_ids(vec![9, 8], 64), vec![9, 8]);
    let ids: Vec<u32> = (0..4096).map(|i| (i * 7 + 3) % 16384).collect();
    let words = encode_ids(ids.clone(), 14);
    assert_eq!(words.len(), 1024);
    assert_eq!(decode_ids(&words, 14, 4096), ids);
}
