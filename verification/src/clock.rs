//! The validator's wall clock.

use vstd::prelude::*;

verus! {

/// Relies on `chrono::Utc::now`: the current time in milliseconds since the
/// Unix epoch. Nothing is assumed of the value; callers state what holds of
/// every reading.
#[verifier::external_body]
pub fn now_millis() -> u128 {
    chrono::Utc::now().timestamp_millis() as u128
}

} // verus!
