//! Routing of the lifecycle events that the CLI's command hooks forward
//! to the app's loopback listener: every named event updates the coarse
//! tray status, and `AskUserQuestion`'s `PostToolUse` also dismisses a
//! question overlay that was answered elsewhere. The listener itself is the
//! caller's part.
use vstd::prelude::*;
use crate::claude_status::{StatusSlot, apply_event, event_status};
use crate::text::{chars_of, chars_eq_str};

verus! {

/// Port of the loopback listener that receives forwarded hook events.
pub const PORT: u16 = 47215;

/// The two fields of a forwarded event the app reads.
pub struct HookPayload {
    pub hook_event_name: Option<String>,
    pub tool_name: Option<String>,
}

/// Whether an optional text is exactly `lit`.
fn is_text(o: &Option<String>, lit: &str) -> (r: bool)
    ensures
        r == (o matches Some(s) && s@ == lit@),
{
    match o {
        Some(s) => chars_eq_str(&chars_of(s.as_str()), lit),
        None => false,
    }
}

/// Routes one event: applies it to the tray status when it names an event,
/// and returns whether it is `AskUserQuestion` resolving (the caller then
/// dismisses a question overlay still showing it).
pub fn dispatch(slot: &mut StatusSlot, payload: &HookPayload) -> (dismiss_question: bool)
    ensures
        dismiss_question == ((payload.hook_event_name matches Some(e) && e@ == "PostToolUse"@)
            && (payload.tool_name matches Some(t) && t@ == "AskUserQuestion"@)),
        final(slot)@ == match payload.hook_event_name {
            Some(e) => match event_status(e@) {
                Some(s) => s,
                None => old(slot)@,
            },
            None => old(slot)@,
        },
{
    let dismiss = is_text(&payload.hook_event_name, "PostToolUse") && is_text(&payload.tool_name, "AskUserQuestion");
    match &payload.hook_event_name {
        Some(e) => apply_event(slot, e.as_str()),
        None => {},
    }
    dismiss
}

} // verus!
