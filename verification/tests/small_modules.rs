use djimic::claude_status::{apply_event, claude_status_color, get, ClaudeStatus, StatusSlot};
use djimic::driver::{install, install_outcome};
use djimic::hook_bridge::{dispatch, HookPayload};
use djimic::shortcut::{receiver_shortcut_start, receiver_shortcut_status, receiver_shortcut_stop, ShortcutStatus};

#[test]
fn installer_exit_codes_map_to_messages() {
    assert!(install_outcome(Some(0)).is_ok());
    assert_eq!(install_outcome(Some(1223)).err().unwrap(), "已取消权限提升，驱动未安装。");
    assert_eq!(install_outcome(Some(10)).err().unwrap(), "无法从 GitHub 获取 Zadig 下载地址，请检查网络连接。");
    assert_eq!(install_outcome(Some(11)).err().unwrap(), "下载 Zadig 失败，请检查网络连接后重试。");
    assert_eq!(install_outcome(Some(12)).err().unwrap(), "下载的安装程序签名验证失败，出于安全考虑已取消安装。");
    assert_eq!(install_outcome(Some(3)).err().unwrap(), "驱动安装向导异常退出（代码 3）。");
    assert_eq!(install_outcome(Some(-1073741510)).err().unwrap(), "驱动安装向导异常退出（代码 -1073741510）。");
    assert_eq!(install_outcome(Some(i32::MIN)).err().unwrap(), "驱动安装向导异常退出（代码 -2147483648）。");
    assert_eq!(install_outcome(None).err().unwrap(), "安装进程被终止。");
    assert_eq!(install().err().unwrap(), "此功能仅支持 Windows。");
}

#[test]
fn the_shortcut_remap_is_unavailable() {
    let s = receiver_shortcut_status();
    assert!(!s.available && !s.running && s.error.is_empty());
    let d = ShortcutStatus::default();
    assert!(!d.available && !d.running && d.error.is_empty());
    assert_eq!(receiver_shortcut_start().err().unwrap(), "接收器按键映射尚未在 Windows 上实现");
    assert_eq!(receiver_shortcut_stop().err().unwrap(), "接收器按键映射尚未在 Windows 上实现");
}

fn payload(event: Option<&str>, tool: Option<&str>) -> HookPayload {
    HookPayload { hook_event_name: event.map(str::to_string), tool_name: tool.map(str::to_string) }
}

#[test]
fn forwarded_events_update_the_status_and_dismiss_answered_questions() {
    let mut slot = StatusSlot::new();
    assert!(!dispatch(&mut slot, &payload(Some("PreToolUse"), Some("Bash"))));
    assert!(get(&slot) == ClaudeStatus::Working);
    assert!(dispatch(&mut slot, &payload(Some("PostToolUse"), Some("AskUserQuestion"))));
    assert!(get(&slot) == ClaudeStatus::Thinking);
    assert!(!dispatch(&mut slot, &payload(None, Some("AskUserQuestion"))));
    assert!(get(&slot) == ClaudeStatus::Thinking);
    assert!(!dispatch(&mut slot, &payload(Some("SubagentStop"), None)));
    assert!(get(&slot) == ClaudeStatus::Thinking);
}

#[test]
fn status_events_and_colors() {
    let mut slot = StatusSlot::new();
    assert!(get(&slot) == ClaudeStatus::Idle);
    for (e, s) in [
        ("UserPromptSubmit", ClaudeStatus::Thinking),
        ("PreToolUse", ClaudeStatus::Working),
        ("PostToolUseFailure", ClaudeStatus::Error),
        ("Notification", ClaudeStatus::NeedsAttention),
        ("PreCompact", ClaudeStatus::Working),
        ("PostCompact", ClaudeStatus::Thinking),
        ("Stop", ClaudeStatus::NeedsAttention),
        ("SessionEnd", ClaudeStatus::Idle),
    ] {
        apply_event(&mut slot, e);
        assert!(get(&slot) == s);
    }
    apply_event(&mut slot, "SomethingElse");
    assert!(get(&slot) == ClaudeStatus::Idle);
    djimic::claude_status::set(&mut slot, ClaudeStatus::Error);
    assert!(get(&slot) == ClaudeStatus::Error);
    assert_eq!(claude_status_color(ClaudeStatus::Idle), None);
    assert_eq!(claude_status_color(ClaudeStatus::Thinking), Some([0x2b, 0x7d, 0xe0, 0xff]));
    assert_eq!(claude_status_color(ClaudeStatus::Error), Some([0xe0, 0x2b, 0x2b, 0xff]));
    assert!(ClaudeStatus::from_u8(ClaudeStatus::NeedsAttention.to_u8()) == ClaudeStatus::NeedsAttention);
    assert!(ClaudeStatus::from_u8(200) == ClaudeStatus::Idle);
}
