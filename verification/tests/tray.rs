use djimic::claude_status::ClaudeStatus;
use djimic::tray::{
    alert_active, battery_alert, battery_badge_shown, menu_entries, menu_state, mic_mini_2_present, parse_u32_token, pick,
    stat_parent_pid, toggle_between, tray_tick, BatteryAlert, IconSet, IconVariant, MenuEntry, MenuState, MicSettings,
    TrayLook,
};

#[test]
fn toggles_flip_between_two_values() {
    assert_eq!(toggle_between(Some("on"), "on", "off"), "off");
    assert_eq!(toggle_between(Some("off"), "on", "off"), "on");
    assert_eq!(toggle_between(None, "strong", "basic"), "strong");
}

fn labels(m: &Vec<MenuEntry>) -> Vec<String> {
    m.iter()
        .map(|e| match e {
            MenuEntry::Item { id, label } => format!("{id}:{label}"),
            MenuEntry::Check { id, label, checked } => format!("{id}:{label}:{checked}"),
            MenuEntry::Separator => "-".to_string(),
        })
        .collect()
}

#[test]
fn the_menu_follows_the_connected_mic() {
    let st = menu_state(
        1,
        Some(MicSettings {
            noise_cancel: Some("strong".to_string()),
            noise_cancel_power: Some("off".to_string()),
            leds: Some("on".to_string()),
            protocol_version: Some(2),
        }),
        true,
    );
    assert_eq!(
        labels(&menu_entries(&st)),
        vec![
            "open:打开大疆麦克风控制",
            "-",
            "toggle-leds:麦克风指示灯：开启  ->  关闭",
            "toggle-nc:降噪模式：强力  ->  基础",
            "toggle-nc-power:降噪：关闭  ->  开启",
            "-",
            "toggle-autostart:开机自启（后台）:true",
            "-",
            "quit:退出",
        ]
    );
    let st = MenuState { show: true, noise_cancel: None, noise_cancel_power: None, leds: None, protocol_version: Some(1), autostart: false };
    assert_eq!(
        labels(&menu_entries(&st)),
        vec![
            "open:打开大疆麦克风控制",
            "-",
            "toggle-leds:切换麦克风指示灯",
            "toggle-nc:切换降噪模式（基础 / 强力）",
            "-",
            "toggle-autostart:开机自启（后台）:false",
            "-",
            "quit:退出",
        ]
    );
    let st = menu_state(2, None, false);
    assert!(!st.show);
    assert_eq!(labels(&menu_entries(&st)), vec!["open:打开大疆麦克风控制", "-", "toggle-autostart:开机自启（后台）:false", "-", "quit:退出"]);
}

#[test]
fn the_worst_battery_wins() {
    assert!(battery_alert(&vec![]) == BatteryAlert::Normal);
    assert!(battery_alert(&vec![Some(3), None, Some(6)]) == BatteryAlert::Red);
    assert!(battery_alert(&vec![Some(7), Some(6)]) == BatteryAlert::Critical);
    assert!(battery_alert(&vec![Some(6), Some(7), Some(1)]) == BatteryAlert::Critical);
}

#[test]
fn connection_facts() {
    assert!(alert_active(&vec![]));
    assert!(alert_active(&vec![false, false]));
    assert!(!alert_active(&vec![false, true]));
    assert!(mic_mini_2_present(&vec![None, Some("DJI Mic Mini 2".to_string())]));
    assert!(!mic_mini_2_present(&vec![Some("DJI Mic 2".to_string())]));
}

#[test]
fn icons_and_badges() {
    let all = IconSet { base: true, base_alert: true, mic2: true, mic2_alert: true };
    assert!(pick(&all, true, true) == Some(IconVariant::Mic2Alert));
    assert!(pick(&all, false, true) == Some(IconVariant::BaseAlert));
    let bare = IconSet { base: true, base_alert: false, mic2: false, mic2_alert: false };
    assert!(pick(&bare, true, false) == Some(IconVariant::Base));
    let none = IconSet { base: false, base_alert: false, mic2: false, mic2_alert: false };
    assert!(pick(&none, false, false).is_none());
    assert!(!battery_badge_shown(BatteryAlert::Normal, true));
    assert!(battery_badge_shown(BatteryAlert::Red, false));
    assert!(!battery_badge_shown(BatteryAlert::Critical, false));
}

#[test]
fn repaints_follow_changes_and_blink_at_critical() {
    let a = TrayLook { alert: false, mic2: false, battery: BatteryAlert::Normal, claude: ClaudeStatus::Idle };
    assert_eq!(tray_tick(a, a, true), (None, true));
    let b = TrayLook { claude: ClaudeStatus::Working, ..a };
    assert_eq!(tray_tick(a, b, false), (Some(true), false));
    let c = TrayLook { battery: BatteryAlert::Critical, ..a };
    assert_eq!(tray_tick(c, c, true), (Some(false), false));
    assert_eq!(tray_tick(c, c, false), (Some(true), true));
}

#[test]
fn the_parent_pid_is_read_after_the_last_parenthesis() {
    assert_eq!(stat_parent_pid("1234 (bash) S 1000 1234 1234 0"), Some(1000));
    assert_eq!(stat_parent_pid("77 (weird ) name) R 42 77"), Some(42));
    assert_eq!(stat_parent_pid("5 (x)  S\t+9 1"), Some(9));
    assert_eq!(stat_parent_pid("5 (x) S"), None);
    assert_eq!(stat_parent_pid("no parenthesis 1 2"), None);
    assert_eq!(stat_parent_pid("5 (x) S -1"), None);
    assert_eq!(stat_parent_pid("5 (x) S 4294967295"), Some(u32::MAX));
    assert_eq!(stat_parent_pid("5 (x) S 4294967296"), None);
}

#[test]
fn tokens_parse_as_u32() {
    let t = |s: &str| parse_u32_token(&s.chars().collect());
    assert_eq!(t("0"), Some(0));
    assert_eq!(t("+12"), Some(12));
    assert_eq!(t("+"), None);
    assert_eq!(t(""), None);
    assert_eq!(t("1a"), None);
    assert_eq!(t("99999999999x"), None);
}
