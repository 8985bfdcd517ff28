//! The wall clock, in milliseconds since the Unix epoch.
use vstd::prelude::*;

verus! {

/// Milliseconds since the Unix epoch by the system clock
/// (`SystemTime::now().duration_since(UNIX_EPOCH)`), 0 when the clock reads
/// before the epoch. Nothing is promised of the value: it is whatever the
/// clock says, and two readings need not be ordered.
#[verifier::external_body]
pub(crate) fn now_millis() -> (ms: u64) {
    std::time::SystemTime::now()
        .duration_since(std::time::UNIX_EPOCH)
        .map(|d| d.as_millis() as u64)
        .unwrap_or(0)
}

} // verus!
