//! The pieces of JSON text that documents are put together from.

use vstd::prelude::*;

verus! {

/// The JSON text of a string: the string in double quotes, with the escapes
/// that serde_json writes.
pub uninterp spec fn json_string_text(s: Seq<char>) -> Seq<char>;

/// `Display` of serde_json's `Value`, for a string value: its JSON text,
/// which depends on the string alone. This is taken on trust, not proved.
#[verifier::external_body]
pub(crate) fn json_string(s: &str) -> (text: String)
    ensures
        text@ == json_string_text(s@),
{
    serde_json::Value::from(s).to_string()
}

/// The decimal digit of a value below ten.
pub open spec fn digit_char(n: nat) -> char {
    seq!['0', '1', '2', '3', '4', '5', '6', '7', '8', '9'][n as int]
}

/// The decimal digits of `n`, without leading zeros.
pub open spec fn decimal_text(n: nat) -> Seq<char>
    decreases n,
{
    if n < 10 {
        seq![digit_char(n)]
    } else {
        decimal_text(n / 10).push(digit_char(n % 10))
    }
}

/// `Display` of serde_json's `Value`, for an unsigned integer: its decimal
/// digits. This is taken on trust, not proved.
#[verifier::external_body]
pub(crate) fn json_number(n: u64) -> (text: String)
    ensures
        text@ == decimal_text(n as nat),
{
    serde_json::Value::from(n).to_string()
}

} // verus!
