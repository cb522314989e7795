//! Conversion of a publish request's payload text into raw bytes.
//!
//! A payload arrives as text together with a format name. In the "hex"
//! format the text is a run of hex digit pairs, with spaces allowed anywhere;
//! every other format sends the text's own bytes.

use vstd::prelude::*;
use vstd::string::StrSliceExecFns;
use vstd::string::StringSliceAdditionalSpecFns;

use crate::errors::PayloadError;

verus! {

/// Whether the character is a hex digit in either case.
pub open spec fn is_hex_digit(c: char) -> bool {
    ('0' <= c && c <= '9') || ('a' <= c && c <= 'f') || ('A' <= c && c <= 'F')
}

/// The value of a hex digit.
pub open spec fn hex_val(c: char) -> u8 {
    if '0' <= c && c <= '9' {
        (c as u8 - '0' as u8) as u8
    } else if 'a' <= c && c <= 'f' {
        (c as u8 - 'a' as u8 + 10) as u8
    } else if 'A' <= c && c <= 'F' {
        (c as u8 - 'A' as u8 + 10) as u8
    } else {
        0
    }
}

/// Whether the text is a well-formed run of hex digit pairs: even length,
/// hex digits throughout.
pub open spec fn hex_ok(s: Seq<char>) -> bool {
    &&& s.len() % 2 == 0
    &&& forall|i: int| 0 <= i < s.len() ==> is_hex_digit(#[trigger] s[i])
}

/// The bytes a well-formed run of hex digit pairs denotes, two digits to a
/// byte, high digit first.
pub open spec fn hex_bytes(s: Seq<char>) -> Seq<u8> {
    Seq::new((s.len() / 2) as nat, |i: int| (hex_val(s[2 * i]) * 16 + hex_val(s[2 * i + 1])) as u8)
}

/// Relies on str::replace: the text with every space removed. The pattern is
/// a single character, so the result keeps exactly the other characters.
#[verifier::external_body]
fn remove_spaces(s: &str) -> (r: String)
    ensures
        r@ == s@.filter(|c: char| c != ' '),
{
    s.replace(" ", "")
}

/// Relies on hex::decode: accepts exactly the even-length runs of hex
/// digits, and maps each digit pair to one byte, high digit first. The
/// decode reads the text's bytes, which for a run of hex digits are its
/// characters.
#[verifier::external_body]
fn hex_decode(s: &str) -> (r: Result<Vec<u8>, ()>)
    ensures
        r is Ok <==> hex_ok(s@),
        r matches Ok(v) ==> v@ == hex_bytes(s@),
{
    match hex::decode(s) {
        Ok(bytes) => Ok(bytes),
        Err(_) => Err(()),
    }
}

/// Whether two texts hold the same characters.
pub fn str_eq(a: &str, b: &str) -> (r: bool)
    ensures
        r == (a@ == b@),
{
    let n = a.unicode_len();
    if n != b.unicode_len() {
        return false;
    }
    let mut i: usize = 0;
    while i < n
        invariant
            i <= n,
            n == a@.len(),
            n == b@.len(),
            forall|j: int| 0 <= j < i ==> a@[j] == b@[j],
        decreases n - i,
    {
        if a.get_char(i) != b.get_char(i) {
            return false;
        }
        i += 1;
    }
    proof {
        assert(a@ =~= b@);
    }
    true
}

/// The bytes to publish for a payload text in the given format.
///
/// In the "hex" format, spaces are stripped and the rest must be an
/// even-length run of hex digits, each pair one byte; a malformed run is
/// refused before anything is sent. Every other format sends the text's own
/// bytes unchanged.
pub fn decode_payload(payload: &str, format: &str) -> (r: Result<Vec<u8>, PayloadError>)
    ensures
        format@ == "hex"@ ==> {
            let stripped = payload@.filter(|c: char| c != ' ');
            &&& (r is Ok <==> hex_ok(stripped))
            &&& (r matches Ok(v) ==> v@ == hex_bytes(stripped))
        },
        format@ != "hex"@ ==> (r matches Ok(v) && v@ == payload.spec_bytes()),
{
    if str_eq(format, "hex") {
        let stripped = remove_spaces(payload);
        match hex_decode(stripped.as_str()) {
            Ok(bytes) => Ok(bytes),
            Err(_) => Err(PayloadError::InvalidHex),
        }
    } else {
        let bytes = payload.as_bytes();
        Ok(vstd::slice::slice_to_vec(bytes))
    }
}

} // verus!
