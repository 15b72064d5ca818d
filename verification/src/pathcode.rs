//! Reversible, path-safe encoding of cache key segments.
//!
//! Cache directories are named after source identities (URLs) and cache files
//! after version strings; neither is safe as a raw path segment.  Both are
//! therefore encoded with URL-safe, unpadded base64, whose alphabet holds only
//! letters, digits, `-` and `_`.  Encoding is specified exactly and decoding
//! is proved to invert it, so on-disk names round-trip to the original keys.

use vstd::prelude::*;

verus! {

/// The URL-safe base64 digit for a 6-bit value: `A`..`Z`, `a`..`z`, `0`..`9`,
/// `-`, `_`.
pub open spec fn b64_digit(v: u8) -> u8 {
    if v < 26 {
        (v + 65) as u8
    } else if v < 52 {
        (v + 71) as u8
    } else if v < 62 {
        (v - 4) as u8
    } else if v == 62 {
        45
    } else {
        95
    }
}

/// Unpadded base64 of a byte string: groups of three bytes become four
/// digits; a final group of one or two bytes becomes two or three digits
/// carrying the leftover bits, with no padding characters.
pub open spec fn b64_encode(s: Seq<u8>) -> Seq<u8>
    decreases s.len(),
{
    if s.len() == 0 {
        Seq::empty()
    } else if s.len() == 1 {
        seq![b64_digit(s[0] >> 2), b64_digit((s[0] & 3) << 4)]
    } else if s.len() == 2 {
        seq![
            b64_digit(s[0] >> 2),
            b64_digit(((s[0] & 3) << 4) | (s[1] >> 4)),
            b64_digit((s[1] & 15) << 2),
        ]
    } else {
        seq![
            b64_digit(s[0] >> 2),
            b64_digit(((s[0] & 3) << 4) | (s[1] >> 4)),
            b64_digit(((s[1] & 15) << 2) | (s[2] >> 6)),
            b64_digit(s[2] & 63),
        ] + b64_encode(s.skip(3))
    }
}

/// What decoding guarantees: a decoded value re-encodes to the input, and
/// every canonical encoding is decoded back to exactly its source bytes.
pub open spec fn decode_result_ok(text: Seq<u8>, r: Option<Seq<u8>>) -> bool {
    &&& (r matches Some(v) ==> b64_encode(v) == text)
    &&& (forall|x: Seq<u8>| b64_encode(x) == text ==> (r matches Some(v) && v == x))
}

/// Relies on base64's `Engine::encode` with the `URL_SAFE_NO_PAD` engine: it
/// emits the unpadded URL-safe base64 digits of the input bytes.
#[verifier::external_body]
fn b64_encode_call(data: &[u8]) -> (r: Vec<u8>)
    ensures
        r@ == b64_encode(data@),
{
    base64::Engine::encode(&base64::engine::general_purpose::URL_SAFE_NO_PAD, data).into_bytes()
}

/// Relies on base64's `Engine::decode` with the `URL_SAFE_NO_PAD` engine: it
/// inverts `encode`, and rejects padding, stray characters and non-zero
/// trailing bits, so it succeeds exactly on canonical encodings.
#[verifier::external_body]
fn b64_decode_call(text: &[u8]) -> (r: Option<Vec<u8>>)
    ensures
        decode_result_ok(text@, r.deep_view()),
{
    base64::Engine::decode(&base64::engine::general_purpose::URL_SAFE_NO_PAD, text).ok()
}

/// Encodes one cache key segment (a source identity or a version string)
/// into a path-safe name.
pub fn encode_path_segment(data: &[u8]) -> (r: Vec<u8>)
    ensures
        r@ == b64_encode(data@),
{
    b64_encode_call(data)
}

/// Decodes a path-safe name back into the original key segment.  Returns
/// `None` on names that no `encode_path_segment` output can take, which the
/// cache loader treats as a corrupt entry.
pub fn decode_path_segment(text: &[u8]) -> (r: Option<Vec<u8>>)
    ensures
        decode_result_ok(text@, r.deep_view()),
{
    b64_decode_call(text)
}

/// Decoding inverts encoding: any decode result for the encoding of `data`
/// is `Some(data)`, so a key written to disk always reads back unchanged.
pub proof fn lemma_path_segment_roundtrip(data: Seq<u8>, r: Option<Seq<u8>>)
    requires
        decode_result_ok(b64_encode(data), r),
    ensures
        r == Some(data),
{
    assert(b64_encode(data) == b64_encode(data));
}

} // verus!
