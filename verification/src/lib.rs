//! A verified clipboard-history core: a deduplicating store with a shadow
//! full-text index, a filtered/sorted/paginated query engine, and the
//! decision logic of an asynchronous OCR enrichment pipeline.

pub mod classify;
pub mod clock;
pub mod encoding;
pub mod entry;
pub mod laws;
pub mod ocr;
pub mod orchestrate;
pub mod query;
pub mod store;
pub mod text;

use vstd::prelude::*;

verus! {

/// Failure raised by the persistent store.
#[derive(Clone, Copy, Debug, PartialEq, Eq, Structural)]
pub enum StorageError {
    /// The addressed row does not exist (it may have been deleted).
    NotFound,
    /// No fresh identifier can be assigned any more.
    Full,
}

/// Failure raised by the query engine before any data is read.
#[derive(Clone, Copy, Debug, PartialEq, Eq, Structural)]
pub enum QueryError {
    /// The requested sort column is outside the allow-list.
    UnknownSortColumn,
    /// The requested sort direction is neither ascending nor descending.
    UnknownSortOrder,
    /// A negative offset or limit was requested.
    InvalidPagination,
}

/// Failure raised by the content classifier: the capture is malformed and
/// must not reach the store.
#[derive(Clone, Copy, Debug, PartialEq, Eq, Structural)]
pub enum ClassificationError {
    /// The captured payload carries no data at all.
    EmptyPayload,
}

/// Failure raised by the OCR extraction pipeline. All variants are
/// recoverable: the affected entry simply keeps its current content.
#[derive(Clone, Copy, Debug, PartialEq, Eq, Structural)]
pub enum OcrError {
    /// The image payload could not be decoded.
    DecodeError,
    /// Writing the scratch file for the recognizer failed.
    IoError,
    /// The recognition engine failed or returned no result.
    OcrEngineError,
}

} // verus!
