//! The receiver-button shortcut remap, which has no implementation on this
//! platform: it always reports itself unavailable.
use vstd::prelude::*;

verus! {

/// What the settings screen shows about the remap.
pub struct ShortcutStatus {
    pub available: bool,
    pub running: bool,
    pub error: String,
}

impl Default for ShortcutStatus {
    fn default() -> (s: ShortcutStatus)
        ensures
            !s.available,
            !s.running,
            s.error@ == Seq::<char>::empty(),
    {
        ShortcutStatus { available: false, running: false, error: String::new() }
    }
}

/// The remap's status: unavailable, not running, no error.
pub fn receiver_shortcut_status() -> (s: ShortcutStatus)
    ensures
        !s.available,
        !s.running,
        s.error@ == Seq::<char>::empty(),
{
    ShortcutStatus::default()
}

/// The refusal both start and stop give.
pub open spec fn not_implemented() -> Seq<char> {
    "接收器按键映射尚未在 Windows 上实现"@
}

fn not_implemented_error() -> (r: Result<(), String>)
    ensures
        r matches Err(e) && e@ == not_implemented(),
{
    Err(crate::text::string_of(&crate::text::chars_of("接收器按键映射尚未在 Windows 上实现")))
}

/// Starting the remap: refused, it is not implemented.
pub fn receiver_shortcut_start() -> (r: Result<(), String>)
    ensures
        r matches Err(e) && e@ == not_implemented(),
{
    not_implemented_error()
}

/// Stopping the remap: refused, it is not implemented.
pub fn receiver_shortcut_stop() -> (r: Result<(), String>)
    ensures
        r matches Err(e) && e@ == not_implemented(),
{
    not_implemented_error()
}

} // verus!
