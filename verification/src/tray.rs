//! The tray's decisions: which two-value setting a toggle picks next, the
//! menu's entries and labels for the connected mic's state, the icon
//! variant and badges for what is connected, when the icon is repainted,
//! and which process is a child of ours (read from `/proc/<pid>/stat`).
//! Devices, menus, icons and processes themselves are the caller's part.
use vstd::prelude::*;
use crate::claude_status::ClaudeStatus;
use crate::text::{chars_of, chars_eq_str, is_white_space};

verus! {

/// A two-value setting's next value: `b` when it currently reads `a`,
/// otherwise `a`.
pub fn toggle_between<'a>(current: Option<&str>, a: &'a str, b: &'a str) -> (next: &'a str)
    ensures
        next@ == (if current matches Some(c) && c@ == a@ { b@ } else { a@ }),
{
    match current {
        Some(c) => {
            if chars_eq_str(&chars_of(c), a) { b } else { a }
        },
        None => a,
    }
}

/// What the tray menu reflects.
pub struct MenuState {
    /// Exactly one mic is tracked: show its toggles.
    pub show: bool,
    pub noise_cancel: Option<String>,
    pub noise_cancel_power: Option<String>,
    pub leds: Option<String>,
    pub protocol_version: Option<u8>,
    pub autostart: bool,
}

/// The settings of the one tracked mic the menu reflects: noise-cancel
/// mode, noise-cancel power, LEDs, protocol version.
pub struct MicSettings {
    pub noise_cancel: Option<String>,
    pub noise_cancel_power: Option<String>,
    pub leds: Option<String>,
    pub protocol_version: Option<u8>,
}

/// The menu state: the toggles show only when exactly one mic is tracked,
/// with its settings when its status could be read.
pub fn menu_state(device_count: usize, status: Option<MicSettings>, autostart: bool) -> (s: MenuState)
    ensures
        s.show == (device_count == 1),
        s.autostart == autostart,
        device_count == 1 && status is Some ==> ({
            let st = status->0;
            &&& s.noise_cancel == st.noise_cancel
            &&& s.noise_cancel_power == st.noise_cancel_power
            &&& s.leds == st.leds
            &&& s.protocol_version == st.protocol_version
        }),
        !(device_count == 1 && status is Some) ==> s.noise_cancel is None && s.noise_cancel_power is None
            && s.leds is None && s.protocol_version is None,
{
    if device_count != 1 {
        return MenuState { show: false, noise_cancel: None, noise_cancel_power: None, leds: None, protocol_version: None, autostart };
    }
    match status {
        Some(st) => MenuState {
            show: true,
            noise_cancel: st.noise_cancel,
            noise_cancel_power: st.noise_cancel_power,
            leds: st.leds,
            protocol_version: st.protocol_version,
            autostart,
        },
        None => MenuState { show: true, noise_cancel: None, noise_cancel_power: None, leds: None, protocol_version: None, autostart },
    }
}

/// One entry of the tray menu.
pub enum MenuEntry {
    Item { id: &'static str, label: &'static str },
    Check { id: &'static str, label: &'static str, checked: bool },
    Separator,
}

/// The spec view of a menu entry: id, label, checkbox state.
pub enum EntryView {
    Item(Seq<char>, Seq<char>),
    Check(Seq<char>, Seq<char>, bool),
    Separator,
}

pub open spec fn entry_view(e: MenuEntry) -> EntryView {
    match e {
        MenuEntry::Item { id, label } => EntryView::Item(id@, label@),
        MenuEntry::Check { id, label, checked } => EntryView::Check(id@, label@, checked),
        MenuEntry::Separator => EntryView::Separator,
    }
}

/// Whether an optional setting value is exactly `lit`.
pub open spec fn reads(v: Option<String>, lit: Seq<char>) -> bool {
    v matches Some(s) && s@ == lit
}

/// The LED toggle's label: the current state and what tapping does.
pub open spec fn led_label(led: Option<String>) -> Seq<char> {
    if reads(led, "on"@) {
        "麦克风指示灯：开启  ->  关闭"@
    } else if reads(led, "off"@) {
        "麦克风指示灯：关闭  ->  开启"@
    } else {
        "切换麦克风指示灯"@
    }
}

/// The noise-cancel mode toggle's label.
pub open spec fn nc_label(nc: Option<String>) -> Seq<char> {
    if reads(nc, "strong"@) {
        "降噪模式：强力  ->  基础"@
    } else if reads(nc, "basic"@) {
        "降噪模式：基础  ->  强力"@
    } else {
        "切换降噪模式（基础 / 强力）"@
    }
}

/// The noise-cancel power toggle's label.
pub open spec fn nc_power_label(p: Option<String>) -> Seq<char> {
    if reads(p, "on"@) {
        "降噪：开启  ->  关闭"@
    } else if reads(p, "off"@) {
        "降噪：关闭  ->  开启"@
    } else {
        "切换降噪"@
    }
}

/// The tray menu for `s`: open, then (with one mic) the LED and
/// noise-cancel toggles, the noise-cancel power toggle only on protocol
/// version 2, then start-at-login and quit, with separators between groups.
pub open spec fn menu_view(s: MenuState) -> Seq<EntryView> {
    let open = EntryView::Item("open"@, "打开大疆麦克风控制"@);
    let startup = EntryView::Check("toggle-autostart"@, "开机自启（后台）"@, s.autostart);
    let quit = EntryView::Item("quit"@, "退出"@);
    if s.show {
        let head = seq![
            open,
            EntryView::Separator,
            EntryView::Item("toggle-leds"@, led_label(s.leds)),
            EntryView::Item("toggle-nc"@, nc_label(s.noise_cancel)),
        ];
        let power = if s.protocol_version == Some(2u8) {
            seq![EntryView::Item("toggle-nc-power"@, nc_power_label(s.noise_cancel_power))]
        } else {
            Seq::empty()
        };
        head + power + seq![EntryView::Separator, startup, EntryView::Separator, quit]
    } else {
        seq![open, EntryView::Separator, startup, EntryView::Separator, quit]
    }
}

fn is_value(v: &Option<String>, lit: &str) -> (r: bool)
    ensures
        r == reads(*v, lit@),
{
    match v {
        Some(s) => chars_eq_str(&chars_of(s.as_str()), lit),
        None => false,
    }
}

fn push_entry(v: &mut Vec<MenuEntry>, e: MenuEntry)
    ensures
        final(v)@.len() == old(v)@.len() + 1,
        forall|i: int| 0 <= i < old(v)@.len() ==> #[trigger] final(v)@[i] == old(v)@[i],
        final(v)@[old(v)@.len() as int] == e,
{
    v.push(e);
}

/// The view of a list of entries.
pub open spec fn entries_view(m: Seq<MenuEntry>) -> Seq<EntryView> {
    Seq::new(m.len(), |i: int| entry_view(m[i]))
}

/// Builds the tray menu's entries (see `menu_view`).
pub fn menu_entries(s: &MenuState) -> (m: Vec<MenuEntry>)
    ensures
        entries_view(m@) == menu_view(*s),
{
    let mut m: Vec<MenuEntry> = Vec::new();
    let open = MenuEntry::Item { id: "open", label: "打开大疆麦克风控制" };
    let startup = MenuEntry::Check { id: "toggle-autostart", label: "开机自启（后台）", checked: s.autostart };
    let quit = MenuEntry::Item { id: "quit", label: "退出" };
    if s.show {
        let led = if is_value(&s.leds, "on") {
            "麦克风指示灯：开启  ->  关闭"
        } else if is_value(&s.leds, "off") {
            "麦克风指示灯：关闭  ->  开启"
        } else {
            "切换麦克风指示灯"
        };
        let nc = if is_value(&s.noise_cancel, "strong") {
            "降噪模式：强力  ->  基础"
        } else if is_value(&s.noise_cancel, "basic") {
            "降噪模式：基础  ->  强力"
        } else {
            "切换降噪模式（基础 / 强力）"
        };
        let leds = MenuEntry::Item { id: "toggle-leds", label: led };
        let ncs = MenuEntry::Item { id: "toggle-nc", label: nc };
        if s.protocol_version == Some(2u8) {
            let p = if is_value(&s.noise_cancel_power, "on") {
                "降噪：开启  ->  关闭"
            } else if is_value(&s.noise_cancel_power, "off") {
                "降噪：关闭  ->  开启"
            } else {
                "切换降噪"
            };
            let power = MenuEntry::Item { id: "toggle-nc-power", label: p };
            m = vec![open, MenuEntry::Separator, leds, ncs, power, MenuEntry::Separator, startup, MenuEntry::Separator, quit];
        } else {
            m = vec![open, MenuEntry::Separator, leds, ncs, MenuEntry::Separator, startup, MenuEntry::Separator, quit];
        }
    } else {
        m = vec![open, MenuEntry::Separator, startup, MenuEntry::Separator, quit];
    }
    assert(entries_view(m@) =~= menu_view(*s));
    m
}

/// A toggle's label: the setting's name, what it reads now, an arrow, and
/// what tapping switches it to.
pub open spec fn toggle_text(name: Seq<char>, now: Seq<char>, next: Seq<char>) -> Seq<char> {
    name + "："@ + now + "  ->  "@ + next
}

/// Each toggle's label tells the setting's current reading and the one
/// tapping switches to: a LED reading `off` shows off, then on; `on`
/// shows on, then off; likewise for the noise-cancel mode (`strong` and
/// `basic`) and, on protocol version 2, the noise-cancel power.
pub proof fn law_toggle_labels(s: MenuState)
    requires
        s.show,
    ensures
        reads(s.leds, "on"@) ==> menu_view(s)[2] == EntryView::Item("toggle-leds"@, toggle_text("麦克风指示灯"@, "开启"@, "关闭"@)),
        reads(s.leds, "off"@) ==> menu_view(s)[2] == EntryView::Item("toggle-leds"@, toggle_text("麦克风指示灯"@, "关闭"@, "开启"@)),
        reads(s.noise_cancel, "strong"@) ==> menu_view(s)[3] == EntryView::Item("toggle-nc"@, toggle_text("降噪模式"@, "强力"@, "基础"@)),
        reads(s.noise_cancel, "basic"@) ==> menu_view(s)[3] == EntryView::Item("toggle-nc"@, toggle_text("降噪模式"@, "基础"@, "强力"@)),
        s.protocol_version == Some(2u8) && reads(s.noise_cancel_power, "on"@)
            ==> menu_view(s)[4] == EntryView::Item("toggle-nc-power"@, toggle_text("降噪"@, "开启"@, "关闭"@)),
        s.protocol_version == Some(2u8) && reads(s.noise_cancel_power, "off"@)
            ==> menu_view(s)[4] == EntryView::Item("toggle-nc-power"@, toggle_text("降噪"@, "关闭"@, "开启"@)),
        !reads(s.leds, "on"@) && !reads(s.leds, "off"@) ==> menu_view(s)[2] == EntryView::Item("toggle-leds"@, "切换麦克风指示灯"@),
        !reads(s.noise_cancel, "strong"@) && !reads(s.noise_cancel, "basic"@)
            ==> menu_view(s)[3] == EntryView::Item("toggle-nc"@, "切换降噪模式（基础 / 强力）"@),
        s.protocol_version == Some(2u8) && !reads(s.noise_cancel_power, "on"@) && !reads(s.noise_cancel_power, "off"@)
            ==> menu_view(s)[4] == EntryView::Item("toggle-nc-power"@, "切换降噪"@),
        toggle_text("麦克风指示灯"@, "开启"@, "关闭"@) != toggle_text("麦克风指示灯"@, "关闭"@, "开启"@),
        toggle_text("降噪模式"@, "强力"@, "基础"@) != toggle_text("降噪模式"@, "基础"@, "强力"@),
        toggle_text("降噪"@, "开启"@, "关闭"@) != toggle_text("降噪"@, "关闭"@, "开启"@),
{
    reveal_strlit("on");
    reveal_strlit("off");
    reveal_strlit("strong");
    reveal_strlit("basic");
    reveal_strlit("：");
    reveal_strlit("  ->  ");
    reveal_strlit("麦克风指示灯");
    reveal_strlit("降噪模式");
    reveal_strlit("降噪");
    reveal_strlit("开启");
    reveal_strlit("关闭");
    reveal_strlit("强力");
    reveal_strlit("基础");
    reveal_strlit("麦克风指示灯：开启  ->  关闭");
    reveal_strlit("麦克风指示灯：关闭  ->  开启");
    reveal_strlit("降噪模式：强力  ->  基础");
    reveal_strlit("降噪模式：基础  ->  强力");
    reveal_strlit("降噪：开启  ->  关闭");
    reveal_strlit("降噪：关闭  ->  开启");
    assert("麦克风指示灯：开启  ->  关闭"@ =~= toggle_text("麦克风指示灯"@, "开启"@, "关闭"@));
    assert("麦克风指示灯：关闭  ->  开启"@ =~= toggle_text("麦克风指示灯"@, "关闭"@, "开启"@));
    assert("降噪模式：强力  ->  基础"@ =~= toggle_text("降噪模式"@, "强力"@, "基础"@));
    assert("降噪模式：基础  ->  强力"@ =~= toggle_text("降噪模式"@, "基础"@, "强力"@));
    assert("降噪：开启  ->  关闭"@ =~= toggle_text("降噪"@, "开启"@, "关闭"@));
    assert("降噪：关闭  ->  开启"@ =~= toggle_text("降噪"@, "关闭"@, "开启"@));
    assert(toggle_text("麦克风指示灯"@, "开启"@, "关闭"@)[7] != toggle_text("麦克风指示灯"@, "关闭"@, "开启"@)[7]);
    assert(toggle_text("降噪模式"@, "强力"@, "基础"@)[5] != toggle_text("降噪模式"@, "基础"@, "强力"@)[5]);
    assert(toggle_text("降噪"@, "开启"@, "关闭"@)[3] != toggle_text("降噪"@, "关闭"@, "开启"@)[3]);
    assert("on"@.len() != "off"@.len());
    assert("strong"@.len() != "basic"@.len());
}

/// The worst battery warning across transmitters.
#[derive(Clone, Copy, PartialEq, Eq, Structural)]
pub enum BatteryAlert {
    Normal,
    /// Gauge 6: the transmitter's own LED turns red.
    Red,
    /// Gauge 7: the last reading before auto-shutoff.
    Critical,
}

/// The worst warning among the gauges: any 7 is critical, otherwise any 6
/// is red.
pub open spec fn worst_battery(gauges: Seq<Option<u8>>) -> BatteryAlert {
    if exists|i: int| 0 <= i < gauges.len() && #[trigger] gauges[i] == Some(7u8) {
        BatteryAlert::Critical
    } else if exists|i: int| 0 <= i < gauges.len() && #[trigger] gauges[i] == Some(6u8) {
        BatteryAlert::Red
    } else {
        BatteryAlert::Normal
    }
}

/// The worst warning over every connected transmitter's gauge (`None`
/// where a transmitter reports none).
pub fn battery_alert(gauges: &Vec<Option<u8>>) -> (w: BatteryAlert)
    ensures
        w == worst_battery(gauges@),
{
    let mut worst = BatteryAlert::Normal;
    let n = gauges.len();
    let mut i: usize = 0;
    while i < n
        invariant
            n == gauges@.len(),
            i <= n,
            worst == worst_battery(gauges@.take(i as int)),
        decreases n - i,
    {
        let g = gauges[i];
        proof {
            let t = gauges@.take(i as int);
            let t1 = gauges@.take(i + 1);
            assert(t1 =~= t.push(g));
            assert(forall|j: int| 0 <= j < t.len() ==> #[trigger] t1[j] == t[j]);
            assert(t1[i as int] == g);
        }
        match g {
            Some(7u8) => {
                worst = BatteryAlert::Critical;
            },
            Some(6u8) => {
                if worst == BatteryAlert::Normal {
                    worst = BatteryAlert::Red;
                }
            },
            _ => {},
        }
        i += 1;
    }
    assert(gauges@.take(n as int) =~= gauges@);
    worst
}

/// Nothing to hear: no tracked mic, or none of them connected.
pub fn alert_active(connected: &Vec<bool>) -> (r: bool)
    ensures
        r == forall|i: int| 0 <= i < connected@.len() ==> !#[trigger] connected@[i],
{
    let n = connected.len();
    let mut i: usize = 0;
    while i < n
        invariant
            n == connected@.len(),
            i <= n,
            forall|j: int| 0 <= j < i ==> !#[trigger] connected@[j],
        decreases n - i,
    {
        if connected[i] {
            return false;
        }
        i += 1;
    }
    true
}

/// A DJI Mic Mini 2 is on some transmitter slot (`product_names` holds each
/// connected transmitter's reported product name).
pub fn mic_mini_2_present(product_names: &Vec<Option<String>>) -> (r: bool)
    ensures
        r == exists|i: int| 0 <= i < product_names@.len() && reads(#[trigger] product_names@[i], "DJI Mic Mini 2"@),
{
    let n = product_names.len();
    let mut i: usize = 0;
    while i < n
        invariant
            n == product_names@.len(),
            i <= n,
            forall|j: int| 0 <= j < i ==> !reads(#[trigger] product_names@[j], "DJI Mic Mini 2"@),
        decreases n - i,
    {
        if is_value(&product_names[i], "DJI Mic Mini 2") {
            return true;
        }
        i += 1;
    }
    false
}

/// The tray icon variants.
#[derive(Clone, Copy, PartialEq, Eq, Structural)]
pub enum IconVariant {
    Base,
    BaseAlert,
    Mic2,
    Mic2Alert,
}

/// Which variants exist.
pub struct IconSet {
    pub base: bool,
    pub base_alert: bool,
    pub mic2: bool,
    pub mic2_alert: bool,
}

/// The variant for the moment: by Mic Mini 2 and "no signal", falling back
/// to the base icon when that variant is missing.
pub open spec fn pick_view(set: IconSet, mic2: bool, alert: bool) -> Option<IconVariant> {
    let (wanted, has) = if mic2 && alert {
        (IconVariant::Mic2Alert, set.mic2_alert)
    } else if mic2 {
        (IconVariant::Mic2, set.mic2)
    } else if alert {
        (IconVariant::BaseAlert, set.base_alert)
    } else {
        (IconVariant::Base, set.base)
    };
    if has { Some(wanted) } else if set.base { Some(IconVariant::Base) } else { None }
}

/// Picks the icon variant (see `pick_view`).
pub fn pick(set: &IconSet, mic2: bool, alert: bool) -> (v: Option<IconVariant>)
    ensures
        v == pick_view(*set, mic2, alert),
{
    let (wanted, has) = if mic2 && alert {
        (IconVariant::Mic2Alert, set.mic2_alert)
    } else if mic2 {
        (IconVariant::Mic2, set.mic2)
    } else if alert {
        (IconVariant::BaseAlert, set.base_alert)
    } else {
        (IconVariant::Base, set.base)
    };
    if has {
        Some(wanted)
    } else if set.base {
        Some(IconVariant::Base)
    } else {
        None
    }
}

/// Whether the low-battery badge is drawn: always at red, every other tick
/// at critical.
pub fn battery_badge_shown(battery: BatteryAlert, blink_on: bool) -> (r: bool)
    ensures
        r == match battery {
            BatteryAlert::Normal => false,
            BatteryAlert::Red => true,
            BatteryAlert::Critical => blink_on,
        },
{
    match battery {
        BatteryAlert::Normal => false,
        BatteryAlert::Red => true,
        BatteryAlert::Critical => blink_on,
    }
}

/// What the icon reflects at one tick.
#[derive(Clone, Copy, PartialEq, Eq, Structural)]
pub struct TrayLook {
    pub alert: bool,
    pub mic2: bool,
    pub battery: BatteryAlert,
    pub claude: ClaudeStatus,
}

/// One tick of the tray loop: at critical battery the badge blinks, so the
/// icon is repainted every tick with the blink flipped; otherwise it is
/// repainted (badge steady) only when something it shows changed. Returns
/// whether to repaint, with which blink phase, and the blink phase to keep.
pub fn tray_tick(last: TrayLook, now: TrayLook, blink_on: bool) -> (r: (Option<bool>, bool))
    ensures
        now.battery == BatteryAlert::Critical ==> r == (Some(!blink_on), !blink_on),
        now.battery != BatteryAlert::Critical && now != last ==> r == (Some(true), blink_on),
        now.battery != BatteryAlert::Critical && now == last ==> r == (None::<bool>, blink_on),
{
    if now.battery == BatteryAlert::Critical {
        let b = !blink_on;
        (Some(b), b)
    } else if now.battery != last.battery || now.alert != last.alert || now.mic2 != last.mic2 || now.claude != last.claude {
        (Some(true), blink_on)
    } else {
        (None, blink_on)
    }
}

/// Whether `t` is an unsigned decimal number as `u32`'s parser accepts it:
/// an optional `+`, then one or more digits.
pub open spec fn is_digit(c: char) -> bool {
    '0' <= c && c <= '9'
}

/// The value of a run of decimal digits.
pub open spec fn digits_value(t: Seq<char>) -> nat
    decreases t.len(),
{
    if t.len() == 0 {
        0
    } else {
        (digits_value(t.drop_last()) * 10 + (t.last() as int - '0' as int)) as nat
    }
}

/// The digits of a token once an optional leading `+` is dropped.
pub open spec fn unsigned_digits(t: Seq<char>) -> Seq<char> {
    if t.len() > 0 && t[0] == '+' { t.skip(1) } else { t }
}

/// What `str::parse::<u32>` gives for a token.
pub open spec fn parse_u32(t: Seq<char>) -> Option<u32> {
    let d = unsigned_digits(t);
    if d.len() > 0 && (forall|i: int| 0 <= i < d.len() ==> #[trigger] is_digit(d[i])) && digits_value(d) <= u32::MAX {
        Some(digits_value(d) as u32)
    } else {
        None
    }
}

/// Parses a token as `u32` (see `parse_u32`).
pub fn parse_u32_token(t: &Vec<char>) -> (r: Option<u32>)
    ensures
        r == parse_u32(t@),
{
    let n = t.len();
    let start: usize = if n > 0 && t[0] == '+' { 1 } else { 0 };
    let ghost d = unsigned_digits(t@);
    assert(d =~= t@.skip(start as int));
    if start >= n {
        return None;
    }
    let mut v: u64 = 0;
    let mut i: usize = start;
    while i < n
        invariant
            n == t@.len(),
            start <= i <= n,
            d == t@.skip(start as int),
            d == unsigned_digits(t@),
            forall|j: int| start <= j < i ==> #[trigger] is_digit(t@[j]),
            v == digits_value(t@.subrange(start as int, i as int)),
            v <= u32::MAX,
        decreases n - i,
    {
        let c = t[i];
        if !('0' <= c && c <= '9') {
            proof {
                assert(d[i - start] == c);
                assert(!is_digit(d[i - start]));
            }
            return None;
        }
        let dv = (c as u64) - ('0' as u64);
        proof {
            assert(t@.subrange(start as int, i + 1).drop_last() =~= t@.subrange(start as int, i as int));
        }
        if v > (u32::MAX as u64 - dv) / 10 {
            proof {
                assert(v * 10 + dv > u32::MAX) by (nonlinear_arith)
                    requires v > (u32::MAX as u64 - dv) / 10, dv <= 9;
                assert(d.take((i - start + 1) as int) =~= t@.subrange(start as int, i + 1));
                assert(digits_value(t@.subrange(start as int, i + 1)) == v * 10 + dv);
                if forall|j: int| 0 <= j < d.len() ==> #[trigger] is_digit(d[j]) {
                    lemma_digits_value_grows(d, (i - start + 1) as int);
                    assert(digits_value(d) > u32::MAX);
                }
            }
            return None;
        }
        v = v * 10 + dv;
        i += 1;
    }
    proof {
        assert(t@.subrange(start as int, n as int) =~= d);
    }
    Some(v as u32)
}

/// A run of digits is worth at least any of its prefixes.
pub proof fn lemma_digits_value_grows(d: Seq<char>, k: int)
    requires
        0 <= k <= d.len(),
        forall|i: int| 0 <= i < d.len() ==> #[trigger] is_digit(d[i]),
    ensures
        digits_value(d.take(k)) <= digits_value(d),
    decreases d.len(),
{
    if k < d.len() {
        let p = d.drop_last();
        assert(p.take(k) =~= d.take(k));
        assert forall|i: int| 0 <= i < p.len() implies #[trigger] is_digit(p[i]) by {
            assert(p[i] == d[i]);
        }
        lemma_digits_value_grows(p, k);
        assert(is_digit(d[d.len() - 1]));
    } else {
        assert(d.take(k) =~= d);
    }
}

/// The index of the last `c` in `s`.
pub open spec fn last_index_of(s: Seq<char>, c: char) -> Option<int>
    decreases s.len(),
{
    if s.len() == 0 {
        None
    } else if s.last() == c {
        Some(s.len() - 1)
    } else {
        last_index_of(s.drop_last(), c)
    }
}

/// The whitespace-separated tokens of `s`, in order (`str::split_whitespace`).
pub open spec fn tokens(s: Seq<char>) -> Seq<Seq<char>>
    decreases s.len(),
{
    if s.len() == 0 {
        Seq::empty()
    } else {
        let t = tokens(s.drop_last());
        let c = s.last();
        if is_white_space(c) {
            t
        } else if s.len() >= 2 && !is_white_space(s[s.len() - 2]) && t.len() > 0 {
            t.update(t.len() - 1, t.last().push(c))
        } else {
            t.push(seq![c])
        }
    }
}

/// The views of a list of character vectors.
pub open spec fn vviews(v: Seq<Vec<char>>) -> Seq<Seq<char>> {
    Seq::new(v.len(), |i: int| v[i]@)
}

/// The parent pid a `/proc/<pid>/stat` line names: the line is
/// `pid (comm) state ppid ...`, and since `comm` may hold spaces or `)`,
/// the fields are read after the last `)`; the parent pid is the second of
/// them. `None` when there is no `)`, too few fields, or the field is not a
/// `u32`.
pub open spec fn stat_parent(stat: Seq<char>) -> Option<u32> {
    match last_index_of(stat, ')') {
        None => None,
        Some(p) => {
            let toks = tokens(stat.skip(p + 1));
            if toks.len() >= 2 { parse_u32(toks[1]) } else { None }
        },
    }
}

/// Reads the parent pid from a `/proc/<pid>/stat` line (see `stat_parent`).
pub fn stat_parent_pid(stat: &str) -> (r: Option<u32>)
    ensures
        r == stat_parent(stat@),
{
    let s = chars_of(stat);
    let n = s.len();
    // The last ')'.
    let mut k: usize = n;
    let mut found: Option<usize> = None;
    assert(s@.take(n as int) =~= s@);
    while k > 0
        invariant
            n == s@.len(),
            s@ == stat@,
            k <= n,
            found is None ==> last_index_of(s@, ')') == last_index_of(s@.take(k as int), ')'),
            found matches Some(p) ==> last_index_of(s@, ')') == Some(p as int) && p < n,
            found is Some ==> k == 0,
        decreases k,
    {
        proof {
            assert(s@.take(k as int).drop_last() =~= s@.take(k - 1));
        }
        if s[k - 1] == ')' {
            found = Some(k - 1);
            k = 0;
        } else {
            k -= 1;
        }
    }
    let p = match found {
        None => {
            proof {
                assert(s@.take(0) =~= Seq::<char>::empty());
            }
            return None;
        },
        Some(p) => p,
    };
    // Tokens after it.
    let mut toks: Vec<Vec<char>> = Vec::new();
    let mut i: usize = p + 1;
    let ghost rest = s@.skip(p + 1);
    while i < n
        invariant
            n == s@.len(),
            p < n,
            p + 1 <= i <= n,
            rest == s@.skip(p + 1),
            vviews(toks@) == tokens(rest.take(i - (p + 1))),
        decreases n - i,
    {
        let c = s[i];
        let ghost pre = rest.take(i - (p + 1));
        let ghost cur = rest.take(i + 1 - (p + 1));
        proof {
            assert(cur.drop_last() =~= pre);
            assert(cur.last() == c);
        }
        if crate::text::is_blank_char(c) {
        } else if i > p + 1 && !crate::text::is_blank_char(s[i - 1]) && toks.len() > 0 {
            proof {
                assert(cur[cur.len() - 2] == s@[i - 1]);
            }
            let ghost before = toks@;
            let mut last = toks.pop().unwrap();
            last.push(c);
            toks.push(last);
            proof {
                assert(vviews(toks@) =~= vviews(before).update(before.len() - 1, vviews(before).last().push(c)));
            }
        } else {
            proof {
                if i > p + 1 {
                    assert(cur[cur.len() - 2] == s@[i - 1]);
                }
            }
            let ghost before = toks@;
            let mut t: Vec<char> = Vec::new();
            t.push(c);
            toks.push(t);
            proof {
                assert(t@ =~= seq![c]);
                assert(vviews(toks@) =~= vviews(before).push(seq![c]));
            }
        }
        i += 1;
    }
    proof {
        assert(rest.take(n - (p + 1)) =~= rest);
    }
    if toks.len() >= 2 {
        parse_u32_token(&toks[1])
    } else {
        None
    }
}

} // verus!
