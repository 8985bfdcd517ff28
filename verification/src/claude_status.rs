//! Coarse tracking of what the coding CLI is currently doing, derived from the
//! lifecycle hook events the hook bridge receives. It drives the tray icon's
//! status badge. Hooks are fire-and-forget with no correlation between
//! sessions, so this is deliberately last-event-wins rather than a
//! per-session state machine.
use vstd::prelude::*;
use crate::text::{chars_of, chars_eq_str};

verus! {

#[derive(Clone, Copy, PartialEq, Eq, Debug, Structural)]
pub enum ClaudeStatus {
    Idle,
    Thinking,
    Working,
    NeedsAttention,
    Error,
}

/// The one-byte code a status is stored as (its discriminant).
pub open spec fn status_code(s: ClaudeStatus) -> u8 {
    match s {
        ClaudeStatus::Idle => 0,
        ClaudeStatus::Thinking => 1,
        ClaudeStatus::Working => 2,
        ClaudeStatus::NeedsAttention => 3,
        ClaudeStatus::Error => 4,
    }
}

/// Decoding of a stored byte; every unknown byte reads as `Idle`.
pub open spec fn status_from_code(v: u8) -> ClaudeStatus {
    if v == 1 {
        ClaudeStatus::Thinking
    } else if v == 2 {
        ClaudeStatus::Working
    } else if v == 3 {
        ClaudeStatus::NeedsAttention
    } else if v == 4 {
        ClaudeStatus::Error
    } else {
        ClaudeStatus::Idle
    }
}

impl ClaudeStatus {
    pub fn from_u8(v: u8) -> (s: ClaudeStatus)
        ensures
            s == status_from_code(v),
    {
        match v {
            1 => ClaudeStatus::Thinking,
            2 => ClaudeStatus::Working,
            3 => ClaudeStatus::NeedsAttention,
            4 => ClaudeStatus::Error,
            _ => ClaudeStatus::Idle,
        }
    }

    pub fn to_u8(self) -> (v: u8)
        ensures
            v == status_code(self),
    {
        match self {
            ClaudeStatus::Idle => 0,
            ClaudeStatus::Thinking => 1,
            ClaudeStatus::Working => 2,
            ClaudeStatus::NeedsAttention => 3,
            ClaudeStatus::Error => 4,
        }
    }
}

/// The shared cell holding the current status as its one-byte code; it
/// starts out `Idle`.
pub struct StatusSlot {
    code: u8,
}

impl View for StatusSlot {
    type V = ClaudeStatus;

    open spec fn view(&self) -> ClaudeStatus {
        status_from_code(self.code())
    }
}

impl StatusSlot {
    pub closed spec fn code(&self) -> u8 {
        self.code
    }

    pub fn new() -> (slot: StatusSlot)
        ensures
            slot@ == ClaudeStatus::Idle,
    {
        StatusSlot { code: 0 }
    }
}

/// Stores `status` as the current status.
pub fn set(slot: &mut StatusSlot, status: ClaudeStatus)
    ensures
        final(slot)@ == status,
{
    slot.code = status.to_u8();
}

/// Reads the current status.
pub fn get(slot: &StatusSlot) -> (status: ClaudeStatus)
    ensures
        status == slot@,
{
    ClaudeStatus::from_u8(slot.code)
}

/// The coarse status a lifecycle hook event maps to; `None` for every event
/// that leaves the status alone (subagent events among them).
pub open spec fn event_status(e: Seq<char>) -> Option<ClaudeStatus> {
    if e == "SessionStart"@ || e == "SessionEnd"@ {
        Some(ClaudeStatus::Idle)
    } else if e == "UserPromptSubmit"@ {
        Some(ClaudeStatus::Thinking)
    } else if e == "PreToolUse"@ {
        Some(ClaudeStatus::Working)
    } else if e == "PostToolUse"@ {
        Some(ClaudeStatus::Thinking)
    } else if e == "PostToolUseFailure"@ || e == "StopFailure"@ {
        Some(ClaudeStatus::Error)
    } else if e == "Stop"@ || e == "PermissionRequest"@ || e == "Notification"@ {
        Some(ClaudeStatus::NeedsAttention)
    } else if e == "PreCompact"@ {
        Some(ClaudeStatus::Working)
    } else if e == "PostCompact"@ {
        Some(ClaudeStatus::Thinking)
    } else {
        None
    }
}

/// The status `event_name` maps to, if it maps to one.
pub fn status_for_event(event_name: &str) -> (r: Option<ClaudeStatus>)
    ensures
        r == event_status(event_name@),
{
    let e = chars_of(event_name);
    if chars_eq_str(&e, "SessionStart") || chars_eq_str(&e, "SessionEnd") {
        Some(ClaudeStatus::Idle)
    } else if chars_eq_str(&e, "UserPromptSubmit") {
        Some(ClaudeStatus::Thinking)
    } else if chars_eq_str(&e, "PreToolUse") {
        Some(ClaudeStatus::Working)
    } else if chars_eq_str(&e, "PostToolUse") {
        Some(ClaudeStatus::Thinking)
    } else if chars_eq_str(&e, "PostToolUseFailure") || chars_eq_str(&e, "StopFailure") {
        Some(ClaudeStatus::Error)
    } else if chars_eq_str(&e, "Stop") || chars_eq_str(&e, "PermissionRequest")
        || chars_eq_str(&e, "Notification") {
        Some(ClaudeStatus::NeedsAttention)
    } else if chars_eq_str(&e, "PreCompact") {
        Some(ClaudeStatus::Working)
    } else if chars_eq_str(&e, "PostCompact") {
        Some(ClaudeStatus::Thinking)
    } else {
        None
    }
}

/// Applies one lifecycle hook event: a mapped event overwrites the current
/// status, any other event leaves it as it was.
pub fn apply_event(slot: &mut StatusSlot, event_name: &str)
    ensures
        final(slot)@ == match event_status(event_name@) {
            Some(s) => s,
            None => old(slot)@,
        },
{
    match status_for_event(event_name) {
        Some(s) => set(slot, s),
        None => {},
    }
}

/// Tray badge color (RGBA) for each status; `Idle` draws no badge.
pub fn claude_status_color(status: ClaudeStatus) -> (color: Option<[u8; 4]>)
    ensures
        color == match status {
            ClaudeStatus::Idle => None,
            ClaudeStatus::Thinking => Some([0x2bu8, 0x7du8, 0xe0u8, 0xffu8]),
            ClaudeStatus::Working => Some([0xe0u8, 0x9au8, 0x2bu8, 0xffu8]),
            ClaudeStatus::NeedsAttention => Some([0x2bu8, 0xb3u8, 0x4au8, 0xffu8]),
            ClaudeStatus::Error => Some([0xe0u8, 0x2bu8, 0x2bu8, 0xffu8]),
        },
{
    match status {
        ClaudeStatus::Idle => None,
        ClaudeStatus::Thinking => Some([0x2b, 0x7d, 0xe0, 0xff]),
        ClaudeStatus::Working => Some([0xe0, 0x9a, 0x2b, 0xff]),
        ClaudeStatus::NeedsAttention => Some([0x2b, 0xb3, 0x4a, 0xff]),
        ClaudeStatus::Error => Some([0xe0, 0x2b, 0x2b, 0xff]),
    }
}

/// What `set` stores, `get` reads back: every status survives the trip
/// through its one-byte code.
pub proof fn law_set_then_get(s: ClaudeStatus)
    ensures
        status_from_code(status_code(s)) == s,
{
}

/// Only the last mapped event counts: applying an event twice leaves the
/// same status as applying it once, and an unmapped event changes nothing.
pub proof fn law_last_event_wins(prior: ClaudeStatus, e: Seq<char>)
    ensures
        ({
            let once = match event_status(e) { Some(s) => s, None => prior };
            let twice = match event_status(e) { Some(s) => s, None => once };
            twice == once
        }),
        event_status(e) is None ==> match event_status(e) { Some(s) => s, None => prior } == prior,
{
}

/// The status each lifecycle event sets, event by event: a session's start
/// or end shows idle, a prompt or a finished tool shows thinking, a tool
/// starting or a compaction shows working, a failure shows the error, a
/// stop, permission request or notification needs attention; subagent
/// events change nothing.
pub proof fn law_event_table()
    ensures
        event_status("SessionStart"@) == Some(ClaudeStatus::Idle),
        event_status("SessionEnd"@) == Some(ClaudeStatus::Idle),
        event_status("UserPromptSubmit"@) == Some(ClaudeStatus::Thinking),
        event_status("PreToolUse"@) == Some(ClaudeStatus::Working),
        event_status("PostToolUse"@) == Some(ClaudeStatus::Thinking),
        event_status("PostToolUseFailure"@) == Some(ClaudeStatus::Error),
        event_status("StopFailure"@) == Some(ClaudeStatus::Error),
        event_status("Stop"@) == Some(ClaudeStatus::NeedsAttention),
        event_status("PermissionRequest"@) == Some(ClaudeStatus::NeedsAttention),
        event_status("Notification"@) == Some(ClaudeStatus::NeedsAttention),
        event_status("PreCompact"@) == Some(ClaudeStatus::Working),
        event_status("PostCompact"@) == Some(ClaudeStatus::Thinking),
        event_status("SubagentStart"@) is None,
        event_status("SubagentStop"@) is None,
{
    reveal_strlit("SessionStart");
    reveal_strlit("SessionEnd");
    reveal_strlit("UserPromptSubmit");
    reveal_strlit("PreToolUse");
    reveal_strlit("PostToolUse");
    reveal_strlit("PostToolUseFailure");
    reveal_strlit("StopFailure");
    reveal_strlit("Stop");
    reveal_strlit("PermissionRequest");
    reveal_strlit("Notification");
    reveal_strlit("PreCompact");
    reveal_strlit("PostCompact");
    reveal_strlit("SubagentStart");
    reveal_strlit("SubagentStop");
    assert("SessionStart"@.len() == 12);
    assert("SessionEnd"@.len() == 10);
    assert("UserPromptSubmit"@.len() == 16);
    assert("PreToolUse"@.len() == 10);
    assert("PostToolUse"@.len() == 11);
    assert("PostToolUseFailure"@.len() == 18);
    assert("StopFailure"@.len() == 11);
    assert("Stop"@.len() == 4);
    assert("PermissionRequest"@.len() == 17);
    assert("Notification"@.len() == 12);
    assert("PreCompact"@.len() == 10);
    assert("PostCompact"@.len() == 11);
    assert("SubagentStart"@.len() == 13);
    assert("SubagentStop"@.len() == 12);
    assert("SessionEnd"@[0] != "PreToolUse"@[0]);
    assert("SessionEnd"@[0] != "PreCompact"@[0]);
    assert("PreToolUse"@[3] != "PreCompact"@[3]);
    assert("PostToolUse"@[0] != "StopFailure"@[0]);
    assert("PostToolUse"@[4] != "PostCompact"@[4]);
    assert("StopFailure"@[0] != "PostCompact"@[0]);
    assert("SessionStart"@[0] != "Notification"@[0]);
    assert("SessionStart"@[1] != "SubagentStop"@[1]);
    assert("Notification"@[0] != "SubagentStop"@[0]);
}

/// A new (or ended) session leaves the status idle, whatever it showed
/// before, an error included.
pub proof fn law_session_start_resets(prior: ClaudeStatus)
    ensures
        match event_status("SessionStart"@) { Some(s) => s, None => prior } == ClaudeStatus::Idle,
        match event_status("SessionEnd"@) { Some(s) => s, None => prior } == ClaudeStatus::Idle,
{
    law_event_table();
}

} // verus!
