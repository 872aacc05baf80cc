//! Byte strings as hexadecimal text: the form in which an attestation
//! document is handed in, and in which an envelope is handed out.

use crate::pipeline::{acceptable, check_attestation, ErrorCategory};
use vstd::prelude::*;
use vstd::string::StringExecFns;

verus! {

/// Why the `hex` crate refused a text; carried through unread.
#[verifier::external_type_specification]
#[verifier::external_body]
pub struct ExFromHexError(hex::FromHexError);

/// The lowercase digit of a number below 16.
pub open spec fn hex_digit(nibble: int) -> char {
    seq!['0', '1', '2', '3', '4', '5', '6', '7', '8', '9', 'a', 'b', 'c', 'd', 'e', 'f'][nibble]
}

/// Two lowercase digits per byte, the high half first.
pub open spec fn hex_text(bytes: Seq<u8>) -> Seq<char> {
    Seq::new(
        2 * bytes.len(),
        |i: int|
            hex_digit(
                if i % 2 == 0 {
                    bytes[i / 2] as int / 16
                } else {
                    bytes[i / 2] as int % 16
                },
            ),
    )
}

/// The number a digit stands for, in either case.
pub open spec fn digit_value(c: char) -> Option<int> {
    let n = c as u32 as int;
    if 48 <= n <= 57 {
        Some(n - 48)
    } else if 97 <= n <= 102 {
        Some(n - 87)
    } else if 65 <= n <= 70 {
        Some(n - 55)
    } else {
        None
    }
}

/// The text is an even number of hexadecimal digits.
pub open spec fn is_hex(text: Seq<char>) -> bool {
    &&& text.len() % 2 == 0
    &&& forall|i: int| 0 <= i < text.len() ==> (#[trigger] digit_value(text[i])) is Some
}

/// The bytes that a hexadecimal text stands for.
pub open spec fn hex_bytes(text: Seq<char>) -> Seq<u8> {
    Seq::new(
        text.len() / 2,
        |i: int| (16 * digit_value(text[2 * i])->0 + digit_value(text[2 * i + 1])->0) as u8,
    )
}

/// Calls `hex::encode`.
///
/// Trusted: the result is claimed to be two lowercase digits for each byte,
/// in order, the high half of a byte first.
#[verifier::external_body]
fn hex_encode(bytes: &[u8]) -> (text: String)
    ensures
        text@ == hex_text(bytes@),
{
    hex::encode(bytes)
}

/// Calls `hex::decode`.
///
/// Trusted: the call is claimed to succeed exactly on an even number of
/// hexadecimal digits of either case, and then to return the byte for each
/// pair of digits, in order. Which error it returns otherwise is left open.
#[verifier::external_body]
fn hex_decode(text: &str) -> (decoded: Result<Vec<u8>, hex::FromHexError>)
    ensures
        is_hex(text@) ==> decoded is Ok && decoded->Ok_0@ == hex_bytes(text@),
        !is_hex(text@) ==> decoded is Err,
{
    hex::decode(text)
}

/// Reads an attestation document from its hexadecimal text. The text is
/// rejected where it is not an even number of hexadecimal digits, and where
/// the document it stands for is empty or longer than the cap.
pub fn parse_attestation(text: &str, max_len: Option<usize>) -> (parsed: Result<
    Vec<u8>,
    ErrorCategory,
>)
    ensures
        is_hex(text@) && acceptable(hex_bytes(text@), max_len) ==> parsed is Ok && parsed->Ok_0@
            == hex_bytes(text@),
        !(is_hex(text@) && acceptable(hex_bytes(text@), max_len)) ==> parsed == Err::<
            Vec<u8>,
            ErrorCategory,
        >(ErrorCategory::InputRejected),
{
    match hex_decode(text) {
        Ok(bytes) => match check_attestation(bytes.as_slice(), max_len) {
            Ok(_) => Ok(bytes),
            Err(category) => Err(category),
        },
        Err(_) => Err(ErrorCategory::InputRejected),
    }
}

/// The text in which an envelope is handed out: `0x`, then its bytes in
/// lowercase hexadecimal.
pub fn render_envelope(envelope: &[u8]) -> (text: String)
    ensures
        text@ == seq!['0', 'x'] + hex_text(envelope@),
{
    let digits = hex_encode(envelope);
    let mut text = String::from_str("0x");
    proof {
        reveal_strlit("0x");
        assert("0x"@ =~= seq!['0', 'x']);
    }
    text.append(digits.as_str());
    text
}

/// Hexadecimal text reads back as the bytes it was written from.
pub proof fn lemma_hex_round_trip(bytes: Seq<u8>)
    ensures
        is_hex(hex_text(bytes)),
        hex_bytes(hex_text(bytes)) == bytes,
{
    let text = hex_text(bytes);
    assert forall|n: int| 0 <= n < 16 implies digit_value(hex_digit(n)) == Some(n) by {
        let digits =
            seq!['0', '1', '2', '3', '4', '5', '6', '7', '8', '9', 'a', 'b', 'c', 'd', 'e', 'f'];
        assert(digits[0] == '0' && digits[1] == '1' && digits[2] == '2' && digits[3] == '3');
        assert(digits[4] == '4' && digits[5] == '5' && digits[6] == '6' && digits[7] == '7');
        assert(digits[8] == '8' && digits[9] == '9' && digits[10] == 'a' && digits[11] == 'b');
        assert(digits[12] == 'c' && digits[13] == 'd' && digits[14] == 'e' && digits[15] == 'f');
    };
    assert forall|i: int| 0 <= i < text.len() implies (#[trigger] digit_value(text[i])) is Some by {
        let b = bytes[i / 2] as int;
        assert(0 <= b / 16 < 16 && 0 <= b % 16 < 16);
    };
    assert forall|i: int| 0 <= i < bytes.len() implies #[trigger] hex_bytes(text)[i] == bytes[i] by {
        let b = bytes[i] as int;
        assert(0 <= b / 16 < 16 && 0 <= b % 16 < 16);
        assert((2 * i) / 2 == i && (2 * i) % 2 == 0);
        assert((2 * i + 1) / 2 == i && (2 * i + 1) % 2 == 1);
        assert(digit_value(text[2 * i]) == Some(b / 16));
        assert(digit_value(text[2 * i + 1]) == Some(b % 16));
        assert(16 * (b / 16) + b % 16 == b);
    };
    assert(hex_bytes(text) =~= bytes);
}

} // verus!
