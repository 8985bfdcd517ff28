use djimic::claude_hooks::{
    apply_hooks, describe, event_command, has_ours_hook, hooks_object, is_ours_hook, permission_url,
    plan_hooks_update, plan_hooks_file, read_settings, describe_file, settings_file_text, registered_event, status_without_home, HooksUpdate, EVENT_TOTAL, REGISTRATIONS,
};
use djimic::json::JsonValue;
use djimic::claude_hooks_file::{settings_update, SettingsUpdate};
use djimic::http::http_reply;
use djimic::text::is_blank;

fn s(x: &str) -> JsonValue {
    JsonValue::Str(x.to_string())
}

fn obj(es: Vec<(&str, JsonValue)>) -> JsonValue {
    JsonValue::Object(es.into_iter().map(|(k, v)| (k.to_string(), v)).collect())
}

fn entries(v: JsonValue) -> Vec<(String, JsonValue)> {
    match v {
        JsonValue::Object(es) => es,
        _ => panic!("not an object"),
    }
}

fn text(es: &Vec<(String, JsonValue)>) -> String {
    let mut copy = Vec::new();
    for (k, v) in es {
        copy.push((k.clone(), reparse(v)));
    }
    let r = http_reply(&JsonValue::Object(copy));
    r.split_once("\r\n\r\n").unwrap().1.to_string()
}

fn reparse(v: &JsonValue) -> JsonValue {
    match v {
        JsonValue::Null => JsonValue::Null,
        JsonValue::Bool(b) => JsonValue::Bool(*b),
        JsonValue::Number(n) => JsonValue::Number(n.clone()),
        JsonValue::Str(x) => JsonValue::Str(x.clone()),
        JsonValue::Array(a) => JsonValue::Array(a.iter().map(reparse).collect()),
        JsonValue::Object(es) => JsonValue::Object(es.iter().map(|(k, v)| (k.clone(), reparse(v))).collect()),
    }
}

fn foreign_stop_settings() -> Vec<(String, JsonValue)> {
    entries(obj(vec![
        ("model", s("opus")),
        (
            "hooks",
            obj(vec![(
                "Stop",
                JsonValue::Array(vec![obj(vec![(
                    "hooks",
                    JsonValue::Array(vec![obj(vec![("type", s("command")), ("command", s("notify-send done"))])]),
                )])]),
            )]),
        ),
    ]))
}

#[test]
fn permission_url_names_the_permission_port() {
    assert_eq!(permission_url(), "http://127.0.0.1:47216/permission");
}

#[test]
fn event_command_forwards_to_the_bridge_port() {
    let c = event_command();
    assert!(c.starts_with("$reader = New-Object System.IO.StreamReader([Console]::OpenStandardInput(), [System.Text.Encoding]::UTF8);"));
    assert!(c.contains("TcpClient('127.0.0.1', 47215);"));
    assert!(c.ends_with("$s.Close(); $c.Close() } catch {}"));
}

#[test]
fn our_hooks_are_recognised_by_port() {
    let ours_http = obj(vec![("type", s("http")), ("url", s("http://127.0.0.1:47216/permission"))]);
    let ours_cmd = obj(vec![("type", s("command")), ("command", s("curl localhost:47215"))]);
    let other_cmd = obj(vec![("type", s("command")), ("command", s("notify-send done"))]);
    let wrong_kind = obj(vec![("type", s("http")), ("url", s("http://x:47215/"))]);
    assert!(is_ours_hook(&ours_http));
    assert!(is_ours_hook(&ours_cmd));
    assert!(!is_ours_hook(&other_cmd));
    assert!(!is_ours_hook(&wrong_kind));
    assert!(!is_ours_hook(&s("47215")));
}

#[test]
fn install_on_empty_settings_registers_every_event() {
    let root: Vec<(String, JsonValue)> = Vec::new();
    let after = apply_hooks(&root, true);
    let hooks = hooks_object(&after);
    assert_eq!(hooks.len(), REGISTRATIONS);
    for i in 0..REGISTRATIONS {
        assert!(has_ours_hook(&hooks, registered_event(i)));
    }
    let t = text(&after);
    assert!(t.contains(r#""PermissionRequest":[{"hooks":[{"type":"http","url":"http://127.0.0.1:47216/permission"}]}]"#));
    assert!(t.contains(r#""PreToolUse":[{"hooks":[{"command":"#));
    assert!(t.contains(r#""type":"command"}],"matcher":"*"}]"#));
    assert!(t.contains(r#""Stop":[{"hooks":[{"command":"#));
}

#[test]
fn installing_twice_is_installing_once() {
    let root = foreign_stop_settings();
    let once = apply_hooks(&root, true);
    let twice = apply_hooks(&once, true);
    assert_eq!(text(&once), text(&twice));
}

#[test]
fn install_keeps_foreign_hooks_and_settings() {
    let root = foreign_stop_settings();
    let after = apply_hooks(&root, true);
    let t = text(&after);
    assert!(t.contains(r#""Stop":[{"hooks":[{"command":"notify-send done","type":"command"}]},{"hooks":[{"command":"$reader"#));
    assert!(t.ends_with(r#""model":"opus"}"#));
}

#[test]
fn uninstall_after_install_leaves_what_uninstall_alone_leaves() {
    let root = foreign_stop_settings();
    let installed = apply_hooks(&root, true);
    let removed = apply_hooks(&installed, false);
    let alone = apply_hooks(&root, false);
    assert_eq!(text(&removed), text(&alone));
    assert_eq!(text(&removed), r#"{"hooks":{"Stop":[{"hooks":[{"command":"notify-send done","type":"command"}]}]},"model":"opus"}"#);
    let hooks = hooks_object(&removed);
    for i in 0..REGISTRATIONS {
        assert!(!has_ours_hook(&hooks, registered_event(i)));
    }
}

#[test]
fn uninstall_drops_an_empty_hooks_member() {
    let root = entries(obj(vec![("model", s("opus"))]));
    let installed = apply_hooks(&root, true);
    let removed = apply_hooks(&installed, false);
    assert_eq!(text(&removed), r#"{"model":"opus"}"#);
}

#[test]
fn a_hand_written_registration_is_adopted_not_duplicated() {
    let root = entries(obj(vec![(
        "hooks",
        obj(vec![(
            "Stop",
            JsonValue::Array(vec![obj(vec![(
                "hooks",
                JsonValue::Array(vec![obj(vec![("type", s("command")), ("command", s("my forwarder to 47215"))])]),
            )])]),
        )]),
    )]));
    let after = apply_hooks(&root, true);
    let t = text(&after);
    assert!(!t.contains("my forwarder"));
    assert_eq!(t.matches(r#""Stop":[{"hooks""#).count(), 1);
    assert!(t.contains(r#""Stop":[{"hooks":[{"command":"$reader"#));
}

#[test]
fn describe_counts_registrations() {
    let root: Vec<(String, JsonValue)> = Vec::new();
    let after = JsonValue::Object(apply_hooks(&root, true));
    let d = describe("C:/x/settings.json".to_string(), true, Some(&after));
    assert_eq!(d.path, "C:/x/settings.json");
    assert!(d.settings_exist);
    assert!(d.readable);
    assert!(d.permission_hook);
    assert_eq!(d.event_hooks, 9);
    assert_eq!(d.event_total, EVENT_TOTAL);
    assert!(d.installed);

    let empty = obj(vec![]);
    let d = describe("p".to_string(), true, Some(&empty));
    assert!(!d.permission_hook);
    assert_eq!(d.event_hooks, 0);
    assert!(!d.installed);

    let not_object = JsonValue::Array(vec![]);
    let d = describe("p".to_string(), true, Some(&not_object));
    assert!(!d.readable);
    let d = describe("p".to_string(), false, None);
    assert!(d.readable);
    assert!(!d.settings_exist);
}

#[test]
fn status_without_home_reports_nothing() {
    let d = status_without_home();
    assert_eq!(d.path, "");
    assert!(!d.readable && !d.installed && !d.settings_exist && !d.permission_hook);
    assert_eq!(d.event_hooks, 0);
    assert_eq!(d.event_total, 9);
}

#[test]
fn plan_refuses_a_file_that_is_not_an_object() {
    assert!(matches!(plan_hooks_update(true, Some(JsonValue::Array(vec![])), true), HooksUpdate::NotAnObject));
    assert!(matches!(plan_hooks_update(true, None, false), HooksUpdate::NotAnObject));
}

#[test]
fn plan_has_nothing_to_remove_without_a_file() {
    assert!(matches!(plan_hooks_update(false, None, false), HooksUpdate::NothingToRemove));
}

#[test]
fn plan_installs_into_a_missing_file() {
    match plan_hooks_update(false, None, true) {
        HooksUpdate::Write(root) => {
            assert_eq!(hooks_object(&root).len(), 10);
        }
        _ => panic!("expected a write"),
    }
}

#[test]
fn blank_text_counts_as_empty() {
    assert!(is_blank(""));
    assert!(is_blank(" \n\t\r\u{3000}"));
    assert!(!is_blank(" {} "));
}

#[test]
fn a_hooks_member_that_is_not_an_object_is_kept() {
    let make = || entries(obj(vec![("hooks", JsonValue::Number("5".to_string())), ("model", s("m"))]));
    for enabled in [true, false] {
        match plan_hooks_update(true, Some(JsonValue::Object(make())), enabled) {
            HooksUpdate::Write(r) => assert_eq!(text(&r), text(&make())),
            _ => panic!("expected a write"),
        }
    }
}

#[test]
fn settings_files_are_read_and_written() {
    assert!(read_settings(None).is_none());
    assert!(matches!(read_settings(Some(b"  \n".as_slice())), Some(JsonValue::Object(es)) if es.is_empty()));
    assert!(read_settings(Some([0xffu8].as_slice())).is_none());
    assert!(matches!(plan_hooks_file(Some([0xffu8].as_slice()), true), HooksUpdate::NotAnObject));
    assert!(matches!(plan_hooks_file(Some(b"[1]".as_slice()), true), HooksUpdate::NotAnObject));
    assert!(matches!(plan_hooks_file(None, false), HooksUpdate::NothingToRemove));
    let d = describe_file("p".to_string(), Some([0xffu8].as_slice()));
    assert!(d.settings_exist && !d.readable && !d.installed);
    match plan_hooks_file(Some(br#"{"model":"m"}"#.as_slice()), true) {
        HooksUpdate::Write(root) => {
            let t = settings_file_text(root);
            assert!(t.ends_with("}\n"));
            assert!(t.contains("\"model\": \"m\""));
            let back = read_settings(Some(t.as_bytes())).unwrap();
            let d = describe_file("p".to_string(), Some(t.as_bytes()));
            assert!(d.installed);
            assert!(matches!(back, JsonValue::Object(_)));
        }
        _ => panic!("expected a write"),
    }
}

#[test]
fn install_then_uninstall_gives_clean_settings_back() {
    let root = entries(obj(vec![
        ("model", s("m")),
        ("hooks", obj(vec![("Stop", JsonValue::Array(vec![obj(vec![("hooks", JsonValue::Array(vec![obj(vec![("type", s("command")), ("command", s("other"))])]))])]))])),
    ]));
    let back = apply_hooks(&apply_hooks(&root, true), false);
    assert_eq!(text(&back), text(&root));
    let once = apply_hooks(&root, false);
    assert_eq!(text(&apply_hooks(&once, false)), text(&once));
}

fn written(u: SettingsUpdate) -> String {
    match u {
        SettingsUpdate::Write(t) => t,
        _ => panic!("expected a write"),
    }
}

fn doc(text: &str) -> serde_json::Value {
    serde_json::from_str(text).unwrap()
}

#[test]
fn settings_update_refuses_or_skips() {
    assert!(matches!(settings_update(Some([0xffu8].as_slice()), true), SettingsUpdate::NotAnObject));
    assert!(matches!(settings_update(Some(b"[1]".as_slice()), false), SettingsUpdate::NotAnObject));
    assert!(matches!(settings_update(None, false), SettingsUpdate::NothingToRemove));
    let t = written(settings_update(None, true));
    assert!(t.starts_with('{') && t.ends_with("}\n"));
    assert!(describe_file("p".to_string(), Some(t.as_bytes())).installed);
}

#[test]
fn setting_hooks_twice_writes_the_same_file() {
    let original = br#"{"model":"m","cleanupPeriodDays":30,"hooks":{"PermissionRequest":[{"hooks":[{"type":"http","url":"http://127.0.0.1:47216/permission"}]}]}}"#;
    let first = written(settings_update(Some(original.as_slice()), true));
    let second = written(settings_update(Some(first.as_bytes()), true));
    assert_eq!(second, first);
    let d = describe_file("p".to_string(), Some(first.as_bytes()));
    assert!(d.installed && d.permission_hook && d.event_hooks == EVENT_TOTAL);
    assert_eq!(first.matches("47216/permission").count(), 1);
    let off = written(settings_update(Some(first.as_bytes()), false));
    let off_again = written(settings_update(Some(off.as_bytes()), false));
    assert_eq!(off_again, off);
}

#[test]
fn install_then_uninstall_gives_the_file_back() {
    let original = r#"{"model":"m","n":-12,"hooks":{"Stop":[{"hooks":[{"type":"command","command":"other"}]}]},"z":[true,null]}"#;
    let on = written(settings_update(Some(original.as_bytes()), true));
    let off = written(settings_update(Some(on.as_bytes()), false));
    assert_eq!(doc(&off), doc(original));
    let none_on = written(settings_update(None, true));
    let none_off = written(settings_update(Some(none_on.as_bytes()), false));
    assert_eq!(doc(&none_off), doc("{}"));
}
