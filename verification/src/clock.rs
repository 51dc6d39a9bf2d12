//! The wall clock, read through an outside crate.

use vstd::prelude::*;

verus! {

/// Relies on chrono's `Utc::now`, reduced to whole seconds since the
/// Unix epoch by `DateTime::timestamp`. The reading depends on the
/// machine's clock, so nothing is promised of it: every caller states
/// what holds of any reading. (`Utc::now` itself aborts on a system
/// clock set before the Unix epoch, so no reading is returned there.)
#[verifier::external_body]
pub(crate) fn now_seconds() -> u64 {
    chrono::Utc::now().timestamp() as u64
}

} // verus!
