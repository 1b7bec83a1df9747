//! The library's share of the OCR enrichment pipeline.
//!
//! Recognition itself runs outside the library, on a dedicated worker,
//! so that a slow engine never blocks capture or reads. The library
//! decodes the stored payload into image bytes for the engine, and the
//! orchestrator consumes the completion
//! ([`crate::orchestrate::on_ocr_complete`]): a success overwrites the
//! entry's content, every failure leaves the entry untouched.

use vstd::prelude::*;

use crate::encoding::{b64_decode_of, b64_valid, decode_base64};
use crate::OcrError;

verus! {

/// Decodes a stored image payload back into image bytes for the
/// recognition engine. Decoding succeeds exactly on valid base64 and
/// returns exactly the decoded bytes; anything else is a `DecodeError`,
/// and the stored payload itself is never discarded.
pub fn decode_image_payload(payload: &str) -> (r: Result<Vec<u8>, OcrError>)
    ensures
        r is Ok <==> b64_valid(payload@),
        r matches Ok(v) ==> v@ == b64_decode_of(payload@),
        r is Err ==> r == Err::<Vec<u8>, OcrError>(OcrError::DecodeError),
        payload@.len() == 0 ==> r is Ok,
{
    match decode_base64(payload) {
        Ok(v) => Ok(v),
        Err(_) => Err(OcrError::DecodeError),
    }
}

} // verus!
