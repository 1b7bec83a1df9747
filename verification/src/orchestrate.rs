//! The ingestion orchestrator: the glue run once per captured clipboard
//! event, and once per OCR completion.
//!
//! Classify, upsert, and decide whether to dispatch enrichment; later,
//! deliver the enrichment result. A capture whose entry was deleted
//! before its OCR completed is a benign no-op, never an error.

use vstd::prelude::*;

use crate::classify::{classify, draft_of_payload, RawPayload};
use crate::entry::{EntryDraft, EntryType};
use crate::store::{
    has_id, has_identity, update_content_transition, upsert_transition, HistoryStore,
};
use crate::{ClassificationError, OcrError, StorageError};

verus! {

/// Why a capture was not stored.
#[derive(Clone, Copy, Debug, PartialEq, Eq, Structural)]
pub enum CaptureError {
    /// The payload was malformed; the event is dropped before the store.
    Classification(ClassificationError),
    /// The store refused the mutation.
    Storage(StorageError),
}

/// What one stored capture asks the host to do next.
#[derive(Clone, Copy, Debug, PartialEq, Eq, Structural)]
pub struct CaptureOutcome {
    /// The id under which the capture is stored.
    pub id: i64,
    /// Whether OCR enrichment is to be dispatched for this capture:
    /// exactly for a newly created image entry.
    pub dispatch_ocr: bool,
}

/// One captured clipboard event: classify the payload, upsert the draft
/// at time `now`, and decide on enrichment. A malformed payload is
/// dropped with no store mutation. OCR is dispatched exactly when the
/// capture created a new image entry.
pub fn on_clipboard_captured(
    store: &mut HistoryStore,
    payload: RawPayload,
    window_title: String,
    window_exe: String,
    now: i64,
) -> (r: Result<CaptureOutcome, CaptureError>)
    requires
        old(store).wf(),
    ensures
        final(store).wf(),
        payload.is_malformed() ==> r == Err::<CaptureOutcome, CaptureError>(
            CaptureError::Classification(ClassificationError::EmptyPayload),
        ) && final(store).rows_view() == old(store).rows_view()
            && final(store).fts_view() == old(store).fts_view()
            && final(store).next_id_view() == old(store).next_id_view(),
        !payload.is_malformed() ==> exists|d: EntryDraft|
            {
                &&& #[trigger] draft_of_payload(d, payload, window_title@, window_exe@)
                &&& match r {
                    Ok(o) => upsert_transition(*old(store), *final(store), d, now, Ok(o.id)) && (
                    o.dispatch_ocr <==> (payload.entry_type() == EntryType::Image && !has_identity(
                        old(store).rows_view(),
                        payload.entry_type(),
                        payload.identity(),
                    ))),
                    Err(e) => e == CaptureError::Storage(StorageError::Full) && upsert_transition(
                        *old(store),
                        *final(store),
                        d,
                        now,
                        Err(StorageError::Full),
                    ),
                }
            },
{
    let draft = match classify(payload, window_title, window_exe) {
        Ok(d) => d,
        Err(e) => {
            return Err(CaptureError::Classification(e));
        },
    };
    let ghost dg = draft;
    let is_image = draft.type_ == EntryType::Image;
    let already_stored = store.contains_draft_identity(&draft);
    let res = store.upsert(draft, now);
    match res {
        Ok(id) => {
            let outcome = CaptureOutcome { id, dispatch_ocr: is_image && !already_stored };
            assert(draft_of_payload(dg, payload, window_title@, window_exe@));
            Ok(outcome)
        },
        Err(e) => {
            assert(e == StorageError::Full);
            assert(draft_of_payload(dg, payload, window_title@, window_exe@));
            Err(CaptureError::Storage(e))
        },
    }
}

/// Delivers an OCR completion for the entry with the given id. A
/// successful extraction overwrites the entry's content (and its index
/// record, in the same call); a failed extraction changes nothing; a
/// completion for a deleted entry is swallowed as a benign no-op.
pub fn on_ocr_complete(store: &mut HistoryStore, id: i64, outcome: Result<String, OcrError>)
    requires
        old(store).wf(),
    ensures
        final(store).wf(),
        outcome matches Ok(text) ==> update_content_transition(
            *old(store),
            *final(store),
            id,
            text,
            if has_id(old(store).rows_view(), id) {
                Ok(())
            } else {
                Err(StorageError::NotFound)
            },
        ),
        outcome is Err ==> final(store).rows_view() == old(store).rows_view()
            && final(store).fts_view() == old(store).fts_view()
            && final(store).next_id_view() == old(store).next_id_view(),
{
    match outcome {
        Ok(text) => {
            let _ = store.update_content(id, text);
        },
        Err(_) => {},
    }
}

/// Stores one already-classified capture under the current wall-clock
/// time: builds the draft and upserts it as one atomic unit.
pub fn save_capture(
    store: &mut HistoryStore,
    content: String,
    window_title: String,
    window_exe: String,
    type_: EntryType,
    html: Option<String>,
    image: Option<String>,
) -> (r: Result<i64, StorageError>)
    requires
        old(store).wf(),
        type_ == EntryType::Image ==> image is Some,
    ensures
        final(store).wf(),
        exists|now: i64| #[trigger] upsert_transition(
            *old(store),
            *final(store),
            EntryDraft { content, window_title, window_exe, type_, html, image },
            now,
            r,
        ),
{
    let now = crate::clock::now_timestamp_millis();
    let ghost d = EntryDraft { content, window_title, window_exe, type_, html, image };
    let draft = EntryDraft { content, window_title, window_exe, type_, html, image };
    let r = store.upsert(draft, now);
    proof {
        assert(upsert_transition(*old(store), *store, d, now, r));
    }
    r
}

} // verus!
