//! The content classifier: a captured payload becomes a storable draft.

use vstd::prelude::*;

use crate::encoding::{b64_decode_of, b64_encode_of, b64_valid, encode_base64};
use crate::entry::{EntryDraft, EntryType};
use crate::ClassificationError;

verus! {

/// A captured clipboard payload, as the monitor hands it over.
pub enum RawPayload {
    /// Plain text.
    Text(String),
    /// Markup together with its plain-text fallback.
    Html { markup: String, fallback: String },
    /// Raw image bytes.
    Image(Vec<u8>),
}

impl RawPayload {
    /// A capture is malformed when it carries no data: empty text, empty
    /// markup, or an empty image.
    pub open spec fn is_malformed(self) -> bool {
        match self {
            RawPayload::Text(s) => s@.len() == 0,
            RawPayload::Html { markup, fallback } => markup@.len() == 0,
            RawPayload::Image(b) => b@.len() == 0,
        }
    }

    /// The entry type a payload classifies to.
    pub open spec fn entry_type(self) -> EntryType {
        match self {
            RawPayload::Text(s) => EntryType::Text,
            RawPayload::Html { markup, fallback } => EntryType::Html,
            RawPayload::Image(b) => EntryType::Image,
        }
    }

    /// The identity payload of a capture: what decides whether two
    /// captures are the same logical entry (together with the type).
    pub open spec fn identity(self) -> Seq<char> {
        match self {
            RawPayload::Text(s) => s@,
            RawPayload::Html { markup, fallback } => fallback@,
            RawPayload::Image(b) => b64_encode_of(b@),
        }
    }
}

/// `d` is the draft that classifying `payload` under the given window
/// provenance produces.
pub open spec fn draft_of_payload(
    d: EntryDraft,
    payload: RawPayload,
    window_title: Seq<char>,
    window_exe: Seq<char>,
) -> bool {
    &&& d.wf()
    &&& d.window_title@ == window_title
    &&& d.window_exe@ == window_exe
    &&& d.type_ == payload.entry_type()
    &&& d.identity() == payload.identity()
    &&& match payload {
        RawPayload::Text(s) => d.content@ == s@ && d.html is None && d.image is None,
        RawPayload::Html { markup, fallback } => d.content@ == fallback@ && (d.html matches Some(h)
            && h@ == markup@) && d.image is None,
        RawPayload::Image(b) => d.content@.len() == 0 && d.html is None && (d.image matches Some(
            img,
        ) && img@ == b64_encode_of(b@) && b64_valid(img@) && b64_decode_of(img@) == b@),
    }
}

/// Classifies a captured payload: text stays text, markup keeps a
/// plain-text fallback as its content, an image is stored encoded with
/// empty content until OCR fills it. A malformed payload is rejected and
/// must never reach the store.
pub fn classify(payload: RawPayload, window_title: String, window_exe: String) -> (r: Result<
    EntryDraft,
    ClassificationError,
>)
    ensures
        r is Err <==> payload.is_malformed(),
        r is Err ==> r == Err::<EntryDraft, ClassificationError>(ClassificationError::EmptyPayload),
        r matches Ok(d) ==> draft_of_payload(d, payload, window_title@, window_exe@),
{
    match payload {
        RawPayload::Text(s) => {
            if s.as_str().is_empty() {
                Err(ClassificationError::EmptyPayload)
            } else {
                Ok(
                    EntryDraft {
                        content: s,
                        window_title,
                        window_exe,
                        type_: EntryType::Text,
                        html: None,
                        image: None,
                    },
                )
            }
        },
        RawPayload::Html { markup, fallback } => {
            if markup.as_str().is_empty() {
                Err(ClassificationError::EmptyPayload)
            } else {
                Ok(
                    EntryDraft {
                        content: fallback,
                        window_title,
                        window_exe,
                        type_: EntryType::Html,
                        html: Some(markup),
                        image: None,
                    },
                )
            }
        },
        RawPayload::Image(b) => {
            if b.is_empty() {
                Err(ClassificationError::EmptyPayload)
            } else {
                let encoded = encode_base64(&b);
                Ok(
                    EntryDraft {
                        content: String::new(),
                        window_title,
                        window_exe,
                        type_: EntryType::Image,
                        html: None,
                        image: Some(encoded),
                    },
                )
            }
        },
    }
}

} // verus!
