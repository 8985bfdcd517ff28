//! Plain records the front end receives.
use vstd::prelude::*;

verus! {

/// The udev rule helper shown on Linux when device access is blocked.
pub struct UdevHelp {
    pub file: String,
    pub rule: String,
    pub steps: Vec<String>,
}

} // verus!
