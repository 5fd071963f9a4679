//! Trusted boundary around the base64 crate's `STANDARD` engine, which the
//! cipherstring text encoding is built on. Encoding is named, not restated:
//! `b64_encode_of` stands for what the engine produces.

use vstd::prelude::*;

verus! {

/// The bytes the standard base64 alphabet (plus its `=` padding) can
/// produce. Notably neither `.` nor `|`, the cipherstring delimiters.
pub open spec fn is_b64_std_byte(c: u8) -> bool {
    (65 <= c <= 90) || (97 <= c <= 122) || (48 <= c <= 57) || c == 43 || c == 47 || c == 61
}

/// All bytes of a sequence are standard base64 bytes.
pub open spec fn all_b64_std_bytes(s: Seq<u8>) -> bool {
    forall|i: int| 0 <= i < s.len() ==> is_b64_std_byte(#[trigger] s[i])
}

/// What the base64 STANDARD engine encodes a byte string to: a function of
/// the bytes alone.
pub uninterp spec fn b64_encode_of(b: Seq<u8>) -> Seq<u8>;

/// Relies on base64's `STANDARD` engine `encode`: deterministic over the
/// input bytes, over the standard alphabet `A-Z a-z 0-9 + /` with `=`
/// padding, and empty exactly on empty input.
#[verifier::external_body]
pub fn b64_encode(b: &[u8]) -> (r: Vec<u8>)
    ensures
        r@ == b64_encode_of(b@),
        all_b64_std_bytes(r@),
        b@.len() == 0 <==> r@.len() == 0,
{
    base64::Engine::encode(&base64::engine::general_purpose::STANDARD, b).into_bytes()
}

/// Relies on base64's `STANDARD` engine `decode`: with canonical padding
/// required and trailing bits rejected, it accepts exactly the canonical
/// encodings and inverts `encode`.
#[verifier::external_body]
pub fn b64_decode(s: &[u8]) -> (r: Option<Vec<u8>>)
    ensures
        match r {
            Some(v) => s@ == b64_encode_of(v@) && (forall|w: Seq<u8>|
                s@ == b64_encode_of(w) ==> v@ == w),
            None => forall|w: Seq<u8>| s@ != b64_encode_of(w),
        },
{
    base64::Engine::decode(&base64::engine::general_purpose::STANDARD, s).ok()
}

} // verus!
