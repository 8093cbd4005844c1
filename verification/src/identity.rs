//! Player identifiers: derived from the username alone, so that the same
//! username always gives the same identifier, and written as text in the
//! hyphenated form.

use vstd::arithmetic::power2::pow2;
use vstd::prelude::*;
use vstd::utf8::{encode_utf8, is_ascii_chars, is_ascii_chars_encode_utf8};

verus! {

/// The namespace in which player identifiers are derived: the one for
/// domain names.
pub const NAMESPACE_DNS: u128 = 0x6ba7b810_9dad_11d1_80b4_00c04fd430c8;

/// The name-based identifier that the uuid crate derives from a namespace
/// and a name by SHA-1.
pub uninterp spec fn name_based_uuid(namespace: u128, name: Seq<u8>) -> u128;

/// `Uuid::new_v5` of the uuid crate, on identifiers as 128-bit numbers: the
/// result depends on the namespace and the name alone. This is taken on
/// trust, not proved.
#[verifier::external_body]
fn uuid_v5(namespace: u128, name: &[u8]) -> (id: u128)
    ensures
        id == name_based_uuid(namespace, name@),
{
    uuid::Uuid::new_v5(&uuid::Uuid::from_u128(namespace), name).as_u128()
}

/// The identifier of the player with the given username.
pub open spec fn spec_player_uuid(username: Seq<char>) -> u128 {
    name_based_uuid(NAMESPACE_DNS, encode_utf8(username))
}

/// The identifier of the player with the given username.
pub fn player_uuid(username: &str) -> (id: u128)
    ensures
        id == spec_player_uuid(username@),
{
    uuid_v5(NAMESPACE_DNS, username.as_bytes())
}

/// The lower-case hexadecimal digit of a value below sixteen.
pub open spec fn hex_char(n: int) -> char {
    seq!['0', '1', '2', '3', '4', '5', '6', '7', '8', '9', 'a', 'b', 'c', 'd', 'e', 'f'][n]
}

/// Hexadecimal digit number `k` of an identifier, counted from the most
/// significant, of thirty-two.
pub open spec fn hex_digit(id: u128, k: int) -> int {
    (id as nat / pow2((4 * (31 - k)) as nat)) as int % 16
}

/// Character number `i` of the hyphenated form.
pub open spec fn hyphenated_char(id: u128, i: int) -> char {
    if i == 8 || i == 13 || i == 18 || i == 23 {
        '-'
    } else if i < 8 {
        hex_char(hex_digit(id, i))
    } else if i < 13 {
        hex_char(hex_digit(id, i - 1))
    } else if i < 18 {
        hex_char(hex_digit(id, i - 2))
    } else if i < 23 {
        hex_char(hex_digit(id, i - 3))
    } else {
        hex_char(hex_digit(id, i - 4))
    }
}

/// The hyphenated form of an identifier: its thirty-two lower-case
/// hexadecimal digits in groups of 8, 4, 4, 4 and 12, with hyphens between.
pub open spec fn hyphenated_text(id: u128) -> Seq<char> {
    Seq::new(36, |i: int| hyphenated_char(id, i))
}

/// `Uuid::hyphenated` of the uuid crate, formatted: the lower-case
/// hyphenated form of the identifier. This is taken on trust, not proved.
#[verifier::external_body]
pub(crate) fn uuid_hyphenated(id: u128) -> (text: String)
    ensures
        text@ == hyphenated_text(id),
{
    uuid::Uuid::from_u128(id).hyphenated().to_string()
}

/// The hyphenated form takes thirty-six bytes.
pub proof fn lemma_hyphenated_is_ascii(id: u128)
    ensures
        is_ascii_chars(hyphenated_text(id)),
        encode_utf8(hyphenated_text(id)).len() == 36,
{
    let text = hyphenated_text(id);
    assert forall|i: int| 0 <= i < text.len() implies '\0' <= #[trigger] text[i] <= '\u{7f}' by {
        let c = hyphenated_char(id, i);
        assert(text[i] == c);
        let digits =
            seq!['0', '1', '2', '3', '4', '5', '6', '7', '8', '9', 'a', 'b', 'c', 'd', 'e', 'f'];
        assert forall|n: int| 0 <= n < 16 implies '\0' <= #[trigger] digits[n] <= '\u{7f}' by {}
        assert(forall|k: int| 0 <= #[trigger] hex_digit(id, k) < 16);
    }
    is_ascii_chars_encode_utf8(text);
}

} // verus!
