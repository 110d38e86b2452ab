//! Hexadecimal text, as the `hex` crate writes and reads it.
use vstd::prelude::*;
use vstd::utf8::is_ascii_chars;

verus! {

/// Whether a byte is an ASCII hexadecimal digit, in either case.
pub open spec fn is_hex_digit(c: u8) -> bool {
    (0x30 <= c && c <= 0x39) || (0x61 <= c && c <= 0x66) || (0x41 <= c && c <= 0x46)
}

/// The value of a hexadecimal digit.
pub open spec fn digit_value(c: u8) -> int {
    if 0x30 <= c && c <= 0x39 {
        c - 0x30
    } else if 0x61 <= c && c <= 0x66 {
        c - 0x61 + 10
    } else {
        c - 0x41 + 10
    }
}

/// The lowercase digit for a value below sixteen.
pub open spec fn digit_char(n: u8) -> char {
    if n < 10 {
        ((n + 0x30) as u8) as char
    } else {
        ((n - 10 + 0x61) as u8) as char
    }
}

/// Text that decodes as hex: an even number of hexadecimal digits.
pub open spec fn is_hex_text(s: Seq<u8>) -> bool {
    &&& s.len() % 2 == 0
    &&& forall|i: int| 0 <= i < s.len() ==> is_hex_digit(#[trigger] s[i])
}

/// The bytes that hex text stands for, two digits for each byte, high digit first.
pub open spec fn hex_decoded(s: Seq<u8>) -> Seq<u8> {
    Seq::new(s.len() / 2, |i: int| (digit_value(s[2 * i]) * 16 + digit_value(s[2 * i + 1])) as u8)
}

/// The lowercase hex text of some bytes, two digits for each byte, high digit first.
pub open spec fn hex_encoded(b: Seq<u8>) -> Seq<char> {
    Seq::new(
        2 * b.len(),
        |i: int|
            if i % 2 == 0 {
                digit_char(b[i / 2] / 16)
            } else {
                digit_char(b[i / 2] % 16)
            },
    )
}

/// Relies on `hex::encode`: two lowercase digits for each byte, high digit first.
#[verifier::external_body]
pub(crate) fn encode_hex(b: &[u8]) -> (r: String)
    ensures
        r@ == hex_encoded(b@),
{
    hex::encode(b)
}

/// Relies on `hex::decode`: it accepts exactly an even number of digits of
/// either case and returns the byte that each pair of them stands for.
#[verifier::external_body]
pub(crate) fn decode_hex(s: &[u8]) -> (r: Option<Vec<u8>>)
    ensures
        r is Some <==> is_hex_text(s@),
        r matches Some(v) ==> v@ == hex_decoded(s@),
{
    hex::decode(s).ok()
}

/// Hex text of any bytes is ASCII, decodes, and decodes back to those bytes.
pub proof fn lemma_hex_round_trip(b: Seq<u8>)
    ensures
        is_ascii_chars(hex_encoded(b)),
        is_hex_text(hex_encoded(b).map_values(|c: char| c as u8)),
        hex_decoded(hex_encoded(b).map_values(|c: char| c as u8)) == b,
{
    let t = hex_encoded(b).map_values(|c: char| c as u8);
    assert forall|i: int| 0 <= i < t.len() implies is_hex_digit(#[trigger] t[i]) && '\0' <= hex_encoded(b)[i] <= '\u{7f}' by {
        let v: u8 = if i % 2 == 0 { b[i / 2] / 16 } else { b[i / 2] % 16 };
        assert(0 <= v < 16);
    }
    assert forall|j: int| 0 <= j < b.len() implies #[trigger] hex_decoded(t)[j] == b[j] by {
        let hi: u8 = b[j] / 16;
        let lo: u8 = b[j] % 16;
        assert((2 * j) / 2 == j);
        assert((2 * j + 1) / 2 == j);
        assert((2 * j) % 2 == 0);
        assert((2 * j + 1) % 2 == 1);
        assert(digit_value(t[2 * j]) == hi as int);
        assert(digit_value(t[2 * j + 1]) == lo as int);
    }
    assert(hex_decoded(t) =~= b);
}

} // verus!
