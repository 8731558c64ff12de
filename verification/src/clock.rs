//! The wall-clock timestamp a task is stamped with on admission.

use vstd::prelude::*;

verus! {

/// Relies on chrono's `Local::now` and `DateTime::to_rfc3339`: the current
/// local time with its offset, rendered in RFC 3339 form. The result
/// depends on the clock, so nothing is promised about its value.
#[verifier::external_body]
pub fn now_local_rfc3339() -> String {
    chrono::Local::now().to_rfc3339()
}

} // verus!
