pub mod text;
pub mod claude_status;
pub mod json;
pub mod json_io;
pub mod json_same;
pub mod permission;
pub mod allow_rules;
pub mod http;
pub mod hook_bridge;
pub mod claude_hooks;
pub mod claude_hooks_laws;
pub mod claude_hooks_file;
pub mod mic_tap;
pub mod clock;
pub mod pairing_button;
pub mod tap_feedback;
pub mod key_inject;
pub mod pie_menu;
pub mod volume_guard;
pub mod tap_model;
pub mod driver;
pub mod shortcut;
pub mod commands;
pub mod tray;
pub mod collect;
