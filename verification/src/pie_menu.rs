//! Decisions of the pie-menu overlay: the card a pending prompt of the coding CLI
//! shows, what a pick on it answers, what each of the six normal slots
//! does, and the voice-input flag that a pairing-button press or a timeout
//! clears. Windows, focus and keystrokes are the caller's part.
use vstd::prelude::*;
use crate::permission::Decision;
use crate::permission::views;
use crate::text::{decimal, decimal_chars, string_of, push_str, push_all};

verus! {

/// The slot that closes the menu; every other slot leaves it open.
pub const CLOSE_INDEX: u32 = 5;
/// How long the voice-input flag may stay set before it is cleared anyway.
pub const VOICE_HOLD_TIMEOUT_MS: u64 = 60_000;

/// What a pending prompt's answer goes to.
pub enum PendingAnswer {
    /// A permission request: slots Allow, Allow-always, Deny.
    Permission,
    /// An `AskUserQuestion` with these listed options; one more slot after
    /// them answers in the terminal instead.
    AskUserQuestion { options: Vec<String> },
}

/// The card shown for a pending prompt: one slot per icon and label.
pub struct PendingQuestion {
    /// `"permission"` or `"question"`.
    pub kind: &'static str,
    pub title: String,
    /// The requested command or edit (permission cards only).
    pub detail: String,
    pub icons: Vec<String>,
    pub labels: Vec<String>,
}

/// The overlay's state between events.
pub struct PieMenuState {
    pub pending: Option<PendingAnswer>,
    /// Whether voice input was toggled on by the voice slot and not yet off.
    pub voice_hold_active: bool,
    /// When the voice flag was set (milliseconds), 0 if never.
    pub voice_hold_started_at: u64,
}

/// The icon keys of a permission card.
pub open spec fn permission_icons() -> Seq<Seq<char>> {
    seq!["yes"@, "dont_ask"@, "no"@]
}

/// The labels of a permission card.
pub open spec fn permission_labels() -> Seq<Seq<char>> {
    seq!["Allow"@, "Allow, don't ask again"@, "Deny"@]
}

/// The icon of listed option `i` of a question: `n1`, `n2`, ...
pub open spec fn option_icon(i: int) -> Seq<char> {
    "n"@ + decimal((i + 1) as nat)
}

/// The icons of a question card with `n` options: one per option, then
/// the terminal icon.
pub open spec fn question_icons(n: nat) -> Seq<Seq<char>> {
    Seq::new(n, |i: int| option_icon(i)).push("terminal"@)
}

/// The labels of a question card: the options, then the escape hatch.
pub open spec fn question_labels(options: Seq<Seq<char>>) -> Seq<Seq<char>> {
    options.push("Answer in terminal instead"@)
}

fn lit(s: &str) -> (r: String)
    ensures
        r@ == s@,
{
    string_of(&crate::text::chars_of(s))
}

fn copy_strings(v: &Vec<String>) -> (r: Vec<String>)
    ensures
        views(r@) == views(v@),
{
    let mut out: Vec<String> = Vec::new();
    let n = v.len();
    let mut i: usize = 0;
    while i < n
        invariant
            n == v@.len(),
            i <= n,
            out@.len() == i,
            forall|j: int| 0 <= j < i ==> #[trigger] out@[j]@ == v@[j]@,
        decreases n - i,
    {
        out.push(lit(v[i].as_str()));
        i += 1;
    }
    assert(views(out@) =~= views(v@));
    out
}

impl PieMenuState {
    /// Nothing pending, voice input off.
    pub fn new() -> (s: PieMenuState)
        ensures
            s.pending is None,
            !s.voice_hold_active,
            s.voice_hold_started_at == 0,
    {
        PieMenuState { pending: None, voice_hold_active: false, voice_hold_started_at: 0 }
    }

    /// A permission request arrives: its answer is pending, and the card
    /// shows the tool and what it asks, with three fixed slots.
    pub fn show_pending_permission(&mut self, tool_name: String, detail: String) -> (q: PendingQuestion)
        ensures
            final(self).pending matches Some(PendingAnswer::Permission),
            final(self).voice_hold_active == old(self).voice_hold_active,
            final(self).voice_hold_started_at == old(self).voice_hold_started_at,
            q.kind@ == "permission"@,
            q.title@ == tool_name@,
            q.detail@ == detail@,
            views(q.icons@) == permission_icons(),
            views(q.labels@) == permission_labels(),
    {
        self.pending = Some(PendingAnswer::Permission);
        let mut icons: Vec<String> = Vec::new();
        icons.push(lit("yes"));
        icons.push(lit("dont_ask"));
        icons.push(lit("no"));
        let mut labels: Vec<String> = Vec::new();
        labels.push(lit("Allow"));
        labels.push(lit("Allow, don't ask again"));
        labels.push(lit("Deny"));
        assert(views(icons@) =~= permission_icons());
        assert(views(labels@) =~= permission_labels());
        PendingQuestion { kind: "permission", title: tool_name, detail, icons, labels }
    }

    /// An `AskUserQuestion` arrives: its options are pending, and the card
    /// shows the question with one slot per option plus the terminal slot.
    pub fn show_pending_ask_user_question(&mut self, question: String, options: Vec<String>) -> (q: PendingQuestion)
        requires
            options@.len() < u64::MAX,
        ensures
            final(self).pending matches Some(PendingAnswer::AskUserQuestion { options: o }) && views(o@) == views(options@),
            final(self).voice_hold_active == old(self).voice_hold_active,
            final(self).voice_hold_started_at == old(self).voice_hold_started_at,
            q.kind@ == "question"@,
            q.title@ == question@,
            q.detail@ == Seq::<char>::empty(),
            views(q.icons@) == question_icons(options@.len()),
            views(q.labels@) == question_labels(views(options@)),
            q.icons@.len() == q.labels@.len(),
    {
        let n = options.len();
        let mut icons: Vec<String> = Vec::new();
        let mut i: usize = 0;
        while i < n
            invariant
                n == options@.len(),
                n < u64::MAX,
                i <= n,
                icons@.len() == i,
                forall|j: int| 0 <= j < i ==> #[trigger] icons@[j]@ == option_icon(j),
            decreases n - i,
        {
            let mut v: Vec<char> = Vec::new();
            push_str(&mut v, "n");
            let d = decimal_chars((i as u64) + 1);
            push_all(&mut v, &d);
            icons.push(string_of(&v));
            i += 1;
        }
        icons.push(lit("terminal"));
        assert(views(icons@) =~= question_icons(n as nat));
        let mut labels = copy_strings(&options);
        labels.push(lit("Answer in terminal instead"));
        assert(views(labels@) =~= question_labels(views(options@)));
        self.pending = Some(PendingAnswer::AskUserQuestion { options });
        PendingQuestion { kind: "question", title: question, detail: String::new(), icons, labels }
    }
}

/// What answering a pending prompt with slot `index` does; the overlay
/// closes in every case.
#[derive(PartialEq, Eq, Structural, Clone, Copy)]
pub enum Answer {
    /// Nothing was pending: just close.
    Close,
    /// Resolve the front permission request.
    Permission(Decision),
    /// Resolve the front question: a listed option, or `None` for the
    /// terminal slot.
    Question(Option<u32>),
}

/// The decision a permission slot stands for: 0 Allow, 1 Allow-always,
/// anything else Deny.
pub open spec fn slot_decision(index: u32) -> Decision {
    if index == 0 {
        Decision::Allow
    } else if index == 1 {
        Decision::AllowAlways
    } else {
        Decision::Deny
    }
}

/// The answer a pick gives for what was pending.
pub open spec fn answer_for(pending: Option<PendingAnswer>, index: u32) -> Answer {
    match pending {
        None => Answer::Close,
        Some(PendingAnswer::Permission) => Answer::Permission(slot_decision(index)),
        Some(PendingAnswer::AskUserQuestion { options }) => Answer::Question(
            if (index as int) < options@.len() { Some(index) } else { None },
        ),
    }
}

/// What a confirmed slot of the normal menu does.
#[derive(PartialEq, Eq, Structural, Clone, Copy)]
pub enum SlotAction {
    /// Slot 5: close the menu.
    Close,
    /// Slot 0: toggle voice input on (focus stays with the target).
    StartVoice,
    /// Slot 1.
    DownArrow,
    /// Slot 2.
    UpArrow,
    /// Slot 3.
    Enter,
    /// Slot 4: type `/btw `.
    TypeBtw,
    /// Any other slot: no keystroke.
    Nothing,
}

/// The action of slot `index`.
pub open spec fn slot_action(index: u32) -> SlotAction {
    if index == CLOSE_INDEX {
        SlotAction::Close
    } else if index == 0 {
        SlotAction::StartVoice
    } else if index == 1 {
        SlotAction::DownArrow
    } else if index == 2 {
        SlotAction::UpArrow
    } else if index == 3 {
        SlotAction::Enter
    } else if index == 4 {
        SlotAction::TypeBtw
    } else {
        SlotAction::Nothing
    }
}

impl PieMenuState {
    /// A pick on a pending prompt: takes what was pending (so a second,
    /// stray pick only closes) and says what it answers.
    pub fn answer_question(&mut self, index: u32) -> (a: Answer)
        ensures
            a == answer_for(old(self).pending, index),
            final(self).pending is None,
            final(self).voice_hold_active == old(self).voice_hold_active,
            final(self).voice_hold_started_at == old(self).voice_hold_started_at,
    {
        let pending = self.pending.take();
        match pending {
            None => Answer::Close,
            Some(PendingAnswer::Permission) => {
                let d = if index == 0 {
                    Decision::Allow
                } else if index == 1 {
                    Decision::AllowAlways
                } else {
                    Decision::Deny
                };
                Answer::Permission(d)
            },
            Some(PendingAnswer::AskUserQuestion { options }) => {
                let pick = if (index as usize) < options.len() { Some(index) } else { None };
                Answer::Question(pick)
            },
        }
    }

    /// The question was answered some other way than the overlay: if a
    /// question is still pending it is dropped and the stale overlay should
    /// close (`true`); otherwise nothing changes.
    pub fn question_answered_externally(&mut self) -> (close: bool)
        ensures
            close == (old(self).pending matches Some(PendingAnswer::AskUserQuestion { .. })),
            close ==> final(self).pending is None,
            !close ==> final(self).pending == old(self).pending,
            final(self).voice_hold_active == old(self).voice_hold_active,
            final(self).voice_hold_started_at == old(self).voice_hold_started_at,
    {
        let is_question = match &self.pending {
            Some(PendingAnswer::AskUserQuestion { .. }) => true,
            _ => false,
        };
        if is_question {
            self.pending = None;
        }
        is_question
    }

    /// The pending request timed out with nothing queued behind it:
    /// whatever is pending is dropped and the overlay should close (`true`);
    /// nothing pending means nothing to do.
    pub fn force_close_permission(&mut self) -> (close: bool)
        ensures
            close == (old(self).pending is Some),
            final(self).pending is None,
            final(self).voice_hold_active == old(self).voice_hold_active,
            final(self).voice_hold_started_at == old(self).voice_hold_started_at,
    {
        let was = self.pending.is_some();
        self.pending = None;
        was
    }

    /// Whether a tap may move the highlight: only while the menu is open
    /// and voice input is off (speech would otherwise read as taps).
    pub fn may_navigate(&self, menu_open: bool) -> (r: bool)
        ensures
            r == (menu_open && !self.voice_hold_active),
    {
        menu_open && !self.voice_hold_active
    }

    /// A pairing-button press: if voice input is on, this press turns it
    /// off (`true`, the caller toggles it and later reclaims focus) instead
    /// of confirming.
    pub fn end_voice_hold_if_active(&mut self) -> (ended: bool)
        ensures
            ended == old(self).voice_hold_active,
            !final(self).voice_hold_active,
            final(self).voice_hold_started_at == old(self).voice_hold_started_at,
            final(self).pending == old(self).pending,
    {
        let was = self.voice_hold_active;
        self.voice_hold_active = false;
        was
    }

    /// A confirmed slot of the normal menu at `now` (milliseconds); the
    /// voice slot turns the voice flag on and stamps it.
    pub fn select(&mut self, index: u32, now: u64) -> (a: SlotAction)
        ensures
            a == slot_action(index),
            a == SlotAction::StartVoice ==> final(self).voice_hold_active && final(self).voice_hold_started_at == now,
            a != SlotAction::StartVoice ==> final(self).voice_hold_active == old(self).voice_hold_active
                && final(self).voice_hold_started_at == old(self).voice_hold_started_at,
            final(self).pending == old(self).pending,
    {
        if index == CLOSE_INDEX {
            return SlotAction::Close;
        }
        if index == 0 {
            self.voice_hold_active = true;
            self.voice_hold_started_at = now;
            return SlotAction::StartVoice;
        }
        if index == 1 {
            SlotAction::DownArrow
        } else if index == 2 {
            SlotAction::UpArrow
        } else if index == 3 {
            SlotAction::Enter
        } else if index == 4 {
            SlotAction::TypeBtw
        } else {
            SlotAction::Nothing
        }
    }

    /// The watchdog's check at `now`: a voice flag set longer than the
    /// timeout ago is cleared (`true`), since nothing observes whether the
    /// target app really stopped recording.
    pub fn voice_hold_watchdog(&mut self, now: u64) -> (cleared: bool)
        ensures
            cleared == (old(self).voice_hold_active && old(self).voice_hold_started_at != 0
                && crate::pairing_button::elapsed(now, old(self).voice_hold_started_at) >= VOICE_HOLD_TIMEOUT_MS),
            final(self).voice_hold_active == (old(self).voice_hold_active && !cleared),
            final(self).voice_hold_started_at == old(self).voice_hold_started_at,
            final(self).pending == old(self).pending,
    {
        if !self.voice_hold_active {
            return false;
        }
        let started = self.voice_hold_started_at;
        if started == 0 || now.saturating_sub(started) < VOICE_HOLD_TIMEOUT_MS {
            return false;
        }
        self.voice_hold_active = false;
        true
    }
}

/// A pick that finds nothing pending only closes the overlay, so a stray
/// second pick after an answer resolves nothing.
pub proof fn law_stray_pick_only_closes(index: u32)
    ensures
        answer_for(None, index) == Answer::Close,
{
}

/// Starting the overlay where there is no global hotkey to register: no-op.
pub fn spawn() {
}

/// Unregistering the hotkey where none was registered: no-op.
pub fn uninstall() {
}

} // verus!
