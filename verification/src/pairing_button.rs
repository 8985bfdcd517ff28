//! The receiver's pairing button: when it was last pressed, whether it is
//! held, and what a raw HID report from it means. Reading the reports is
//! the caller's part.
use vstd::prelude::*;
use crate::clock::now_millis;

verus! {

/// How long a press shows as active.
pub const ACTIVE_WINDOW_MS: u64 = 700;
/// The receiver's USB vendor id.
pub const VID: u32 = 0x2ca3;
/// The receiver's USB product id.
pub const PID: u32 = 0x4011;

/// `now - then`, or 0 when `then` is later.
pub open spec fn elapsed(now: u64, then: u64) -> nat {
    if now >= then { (now - then) as nat } else { 0 }
}

/// Whether a press recorded at `last` (0 for never) lies within `window`
/// of `now`.
pub open spec fn pressed_within(last: u64, window: u64, now: u64) -> bool {
    last != 0 && elapsed(now, last) < window
}

/// The most recent press or release edge, shared with tap detection so the
/// button's own click is not taken for a tap, and whether the button is
/// held down right now.
pub struct ButtonClock {
    pub last_edge_millis: u64,
    pub held: bool,
}

impl ButtonClock {
    /// No press seen yet.
    pub fn new() -> (c: ButtonClock)
        ensures
            c.last_edge_millis == 0,
            !c.held,
    {
        ButtonClock { last_edge_millis: 0, held: false }
    }
}

/// Whether the button was pressed or released within `window_ms` of
/// `now` (milliseconds since the epoch).
pub fn recently_pressed_at(clock: &ButtonClock, window_ms: u64, now: u64) -> (r: bool)
    ensures
        r == pressed_within(clock.last_edge_millis, window_ms, now),
{
    let last = clock.last_edge_millis;
    last != 0 && now.saturating_sub(last) < window_ms
}

/// Whether the button was pressed or released within `window_ms` of the
/// current time: the window test against the clock's reading (which the
/// clock alone decides).
pub fn recently_pressed(clock: &ButtonClock, window_ms: u64) -> (r: bool)
    ensures
        exists|now: u64| r == #[trigger] pressed_within(clock.last_edge_millis, window_ms, now),
        r ==> clock.last_edge_millis != 0,
{
    let now = now_millis();
    let r = recently_pressed_at(clock, window_ms, now);
    assert(r == pressed_within(clock.last_edge_millis, window_ms, now));
    r
}

/// Whether the button is held down.
pub fn is_held(clock: &ButtonClock) -> (r: bool)
    ensures
        r == clock.held,
{
    clock.held
}

/// The test indicator's view of the button: when it was last pressed.
pub struct PairingButtonWatcher {
    pub last_press_millis: u64,
}

impl PairingButtonWatcher {
    /// A watcher that has seen no press.
    pub fn new() -> (w: PairingButtonWatcher)
        ensures
            w.last_press_millis == 0,
    {
        PairingButtonWatcher { last_press_millis: 0 }
    }

    /// Whether a press lies within the active window of `now`.
    pub fn is_active_at(&self, now: u64) -> (r: bool)
        ensures
            r == pressed_within(self.last_press_millis, ACTIVE_WINDOW_MS, now),
    {
        let last = self.last_press_millis;
        if last == 0 {
            return false;
        }
        now.saturating_sub(last) < ACTIVE_WINDOW_MS
    }

    /// Whether a press lies within the active window of the current time:
    /// the window test against the clock's reading (which the clock alone
    /// decides).
    pub fn is_active(&self) -> (r: bool)
        ensures
            exists|now: u64| r == #[trigger] pressed_within(self.last_press_millis, ACTIVE_WINDOW_MS, now),
            r ==> self.last_press_millis != 0,
    {
        let now = now_millis();
        let r = self.is_active_at(now);
        assert(r == pressed_within(self.last_press_millis, ACTIVE_WINDOW_MS, now));
        r
    }

    /// A press at `now`: recorded for the indicator and as the latest edge.
    pub fn on_press(&mut self, clock: &mut ButtonClock, now: u64)
        ensures
            final(self).last_press_millis == now,
            final(clock).last_edge_millis == now,
            final(clock).held,
    {
        self.last_press_millis = now;
        clock.last_edge_millis = now;
        clock.held = true;
    }

    /// A release at `now`: the release click counts as an edge too; the
    /// indicator keeps the press time.
    pub fn on_release(&self, clock: &mut ButtonClock, now: u64)
        ensures
            final(clock).last_edge_millis == now,
            !final(clock).held,
    {
        clock.last_edge_millis = now;
        clock.held = false;
    }
}

/// What one raw Consumer Control report says.
#[derive(PartialEq, Eq, Structural, Clone, Copy)]
pub enum ButtonReport {
    Pressed,
    Released,
}

/// Reads a report: shorter than two bytes means nothing; otherwise a
/// non-zero usage byte is a press and zero a release.
pub fn read_report(report: &[u8]) -> (r: Option<ButtonReport>)
    ensures
        report@.len() < 2 ==> r is None,
        report@.len() >= 2 ==> r == Some(if report@[1] != 0 { ButtonReport::Pressed } else { ButtonReport::Released }),
{
    if report.len() < 2 {
        return None;
    }
    if report[1] != 0 {
        Some(ButtonReport::Pressed)
    } else {
        Some(ButtonReport::Released)
    }
}

/// Whether a HID device is the receiver.
pub fn is_receiver(vendor_id: u32, product_id: u32) -> (r: bool)
    ensures
        r == (vendor_id == VID && product_id == PID),
{
    vendor_id == VID && product_id == PID
}

/// Starting the watcher where there is no raw input to read: a watcher
/// that never sees a press.
pub fn spawn() -> (w: PairingButtonWatcher)
    ensures
        w.last_press_millis == 0,
{
    PairingButtonWatcher::new()
}

/// Stopping the watcher where nothing was intercepted: nothing to restore.
pub fn uninstall() {
}

} // verus!
