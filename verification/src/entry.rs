//! The persisted unit of clipboard history and its identity rules.

use vstd::prelude::*;

verus! {

/// The kind of a captured clipboard payload. Immutable after creation.
#[derive(Clone, Copy, Debug, PartialEq, Eq, Structural)]
pub enum EntryType {
    Text,
    Html,
    Image,
}

/// One persisted clipboard entry.
///
/// `content` holds the primary textual representation: the raw text, the
/// plain-text fallback of a rich capture, or the OCR-extracted text of an
/// image (empty until extraction completes). `image` holds the encoded
/// image payload and is non-empty exactly for image entries.
#[derive(Debug)]
pub struct ClipboardHistory {
    pub id: i64,
    pub content: String,
    pub first_copied_date: i64,
    pub last_copied_date: i64,
    pub window_title: String,
    pub window_exe: String,
    pub type_: EntryType,
    pub count: i64,
    pub image: String,
    pub html: String,
}

impl Clone for ClipboardHistory {
    fn clone(&self) -> (r: Self)
        ensures
            r == *self,
    {
        ClipboardHistory {
            id: self.id,
            content: self.content.clone(),
            first_copied_date: self.first_copied_date,
            last_copied_date: self.last_copied_date,
            window_title: self.window_title.clone(),
            window_exe: self.window_exe.clone(),
            type_: self.type_,
            count: self.count,
            image: self.image.clone(),
            html: self.html.clone(),
        }
    }
}

/// What a capture hands to the store: everything the store does not assign
/// itself. `html` and `image` are optional exactly as in a classified
/// capture; the store represents an absent one as an empty string.
#[derive(Debug)]
pub struct EntryDraft {
    pub content: String,
    pub window_title: String,
    pub window_exe: String,
    pub type_: EntryType,
    pub html: Option<String>,
    pub image: Option<String>,
}

impl EntryDraft {
    /// An image draft must carry its image payload: the payload is the
    /// entry's identity.
    pub open spec fn wf(self) -> bool {
        self.type_ == EntryType::Image ==> self.image is Some
    }

    /// The identity payload of the draft: the image for image captures,
    /// the content for every other type.
    pub open spec fn identity(self) -> Seq<char> {
        if self.type_ == EntryType::Image {
            self.image->Some_0@
        } else {
            self.content@
        }
    }
}

/// The identity payload of a stored row, under the row's own type.
pub open spec fn row_identity(row: ClipboardHistory) -> Seq<char> {
    if row.type_ == EntryType::Image {
        row.image@
    } else {
        row.content@
    }
}

/// Two captures are the same logical entry iff type and identity payload
/// coincide.
pub open spec fn matches_identity(row: ClipboardHistory, t: EntryType, ident: Seq<char>) -> bool {
    row.type_ == t && row_identity(row) == ident
}

/// No two rows of the sequence share an id.
pub open spec fn distinct_ids(rows: Seq<ClipboardHistory>) -> bool {
    forall|i: int, j: int|
        0 <= i < j < rows.len() ==> (#[trigger] rows[i]).id != (#[trigger] rows[j]).id
}

} // verus!
