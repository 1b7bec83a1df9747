//! The encoded representation of image payloads.
//!
//! Image bytes are stored as standard-alphabet base64 text; the OCR
//! pipeline decodes that text back to bytes. Both directions go through
//! the `base64` crate; the library names their results and reasons over
//! those names.

use vstd::prelude::*;

use base64::Engine;

verus! {

/// The standard-alphabet, padded base64 encoding of a byte sequence: a
/// function of the bytes alone.
pub uninterp spec fn b64_encode_of(b: Seq<u8>) -> Seq<char>;

/// The byte sequence a valid standard-alphabet base64 string decodes to:
/// a function of the string alone.
pub uninterp spec fn b64_decode_of(s: Seq<char>) -> Seq<u8>;

/// Whether a string is valid standard-alphabet base64 — exactly the
/// strings the decoder accepts, a predicate of the string alone.
pub uninterp spec fn b64_valid(s: Seq<char>) -> bool;

#[verifier::external_type_specification]
#[verifier::external_body]
pub struct ExDecodeError(base64::DecodeError);

/// Relies on `Engine::encode` with base64's standard engine: it encodes
/// the bytes deterministically; an empty input encodes to an empty
/// string; and its canonical padded output is accepted by the decoder
/// and decodes back to the original bytes.
#[verifier::external_body]
pub(crate) fn encode_base64(b: &Vec<u8>) -> (r: String)
    ensures
        r@ == b64_encode_of(b@),
        b@.len() == 0 ==> r@.len() == 0,
        b64_valid(r@),
        b64_decode_of(r@) == b@,
{
    base64::engine::general_purpose::STANDARD.encode(b)
}

/// Relies on `Engine::decode` with base64's standard engine: it is a
/// deterministic predicate of its input, succeeding exactly on valid
/// standard-alphabet base64 and returning exactly the decoded bytes; an
/// empty string is valid and decodes to no bytes.
#[verifier::external_body]
pub(crate) fn decode_base64(s: &str) -> (r: Result<Vec<u8>, base64::DecodeError>)
    ensures
        r is Ok <==> b64_valid(s@),
        r matches Ok(v) ==> v@ == b64_decode_of(s@),
        s@.len() == 0 ==> r is Ok,
{
    base64::engine::general_purpose::STANDARD.decode(s)
}

} // verus!
