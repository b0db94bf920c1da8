//! Lowercase hexadecimal text, which `rustc_serialize` renders.

use rustc_serialize::hex::ToHex;
use vstd::prelude::*;

verus! {

/// The sixteen digits, in order of their value.
pub open spec fn hex_digits() -> Seq<char> {
    seq!['0', '1', '2', '3', '4', '5', '6', '7', '8', '9', 'a', 'b', 'c', 'd', 'e', 'f']
}

/// The text of `bytes` in lowercase hexadecimal: two digits for each byte,
/// the high half first.
pub open spec fn hex_lower(bytes: Seq<u8>) -> Seq<char> {
    Seq::new(
        2 * bytes.len(),
        |i: int|
            if i % 2 == 0 {
                hex_digits()[bytes[i / 2] as int / 16]
            } else {
                hex_digits()[bytes[i / 2] as int % 16]
            },
    )
}

/// `rustc_serialize::hex::ToHex::to_hex` on a slice of bytes: for each byte
/// its two lowercase hexadecimal digits, the high half first.
#[verifier::external_body]
pub(crate) fn to_hex(bytes: &[u8]) -> (text: String)
    ensures
        text@ == hex_lower(bytes@),
{
    bytes.to_hex()
}

} // verus!
