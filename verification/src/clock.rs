//! The capture clock.

use vstd::prelude::*;

verus! {

/// Relies on chrono's `Utc::now`: the current UTC time, in milliseconds
/// since the Unix epoch. Nothing is promised of the reading — every
/// caller is verified for an arbitrary value.
#[verifier::external_body]
pub(crate) fn now_timestamp_millis() -> i64 {
    chrono::Utc::now().timestamp_millis()
}

} // verus!
