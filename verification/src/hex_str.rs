//! Hexadecimal rendering and parsing of hash bytes.

use vstd::prelude::*;
use vstd::string::StringSliceAdditionalSpecFns;

verus! {

/// The lowercase hex character for a value below 16.
pub open spec fn spec_hex_digit(n: u8) -> char {
    if n == 0 {
        '0'
    } else if n == 1 {
        '1'
    } else if n == 2 {
        '2'
    } else if n == 3 {
        '3'
    } else if n == 4 {
        '4'
    } else if n == 5 {
        '5'
    } else if n == 6 {
        '6'
    } else if n == 7 {
        '7'
    } else if n == 8 {
        '8'
    } else if n == 9 {
        '9'
    } else if n == 10 {
        'a'
    } else if n == 11 {
        'b'
    } else if n == 12 {
        'c'
    } else if n == 13 {
        'd'
    } else if n == 14 {
        'e'
    } else {
        'f'
    }
}

/// Lowercase hex rendering: two characters for each byte, high nibble first.
pub open spec fn spec_hex_encode(data: Seq<u8>) -> Seq<char> {
    Seq::new(
        data.len() * 2,
        |i: int|
            if i % 2 == 0 {
                spec_hex_digit(data[i / 2] / 16)
            } else {
                spec_hex_digit(data[i / 2] % 16)
            },
    )
}

/// Whether a byte is the ASCII code of a hex digit (either case).
pub open spec fn spec_is_hex_byte(b: u8) -> bool {
    (48 <= b && b <= 57) || (97 <= b && b <= 102) || (65 <= b && b <= 70)
}

/// The value of one ASCII hex digit.
pub open spec fn spec_hex_byte_val(b: u8) -> u8 {
    if 48 <= b && b <= 57 {
        (b - 48) as u8
    } else if 97 <= b && b <= 102 {
        (b - 87) as u8
    } else {
        (b - 55) as u8
    }
}

/// Whether a byte string parses as hex: even length, hex digits throughout.
pub open spec fn spec_hex_ok(bytes: Seq<u8>) -> bool {
    bytes.len() % 2 == 0 && (forall|i: int| 0 <= i < bytes.len() ==> spec_is_hex_byte(#[trigger] bytes[i]))
}

/// The bytes denoted by a hex byte string, two digits each.
pub open spec fn spec_hex_decode(bytes: Seq<u8>) -> Seq<u8> {
    Seq::new(
        bytes.len() / 2,
        |i: int| (spec_hex_byte_val(bytes[2 * i]) * 16 + spec_hex_byte_val(bytes[2 * i + 1])) as u8,
    )
}

/// Relies on `hex::encode`: lowercase output, two digits per input byte,
/// high nibble first.
#[verifier::external_body]
pub(crate) fn hex_encode(data: &[u8]) -> (r: String)
    ensures
        r@ == spec_hex_encode(data@),
{
    hex::encode(data)
}

/// Relies on `hex::decode`: succeeds exactly on even-length strings of hex
/// digits (either case), and yields the denoted bytes. The crate decodes the
/// UTF-8 bytes of the string, so the contract is over `spec_bytes`.
#[verifier::external_body]
pub(crate) fn hex_decode(data: &str) -> (r: Option<Vec<u8>>)
    ensures
        r is Some <==> spec_hex_ok(data.spec_bytes()),
        r matches Some(v) ==> v@ == spec_hex_decode(data.spec_bytes()),
{
    hex::decode(data).ok()
}

} // verus!
