use djimic::key_inject::{press_down_arrow, press_enter, press_up_arrow, press_voice_toggle, type_text, Key, KeyEvent};

fn down(k: Key) -> KeyEvent {
    KeyEvent { key: k, up: false }
}
fn up(k: Key) -> KeyEvent {
    KeyEvent { key: k, up: true }
}

#[test]
fn single_keys_go_down_then_up() {
    assert!(press_down_arrow() == vec![down(Key::Down), up(Key::Down)]);
    assert!(press_up_arrow() == vec![down(Key::Up), up(Key::Up)]);
    assert!(press_enter() == vec![down(Key::Return), up(Key::Return)]);
}

#[test]
fn the_voice_toggle_is_one_complete_chord() {
    assert!(
        press_voice_toggle()
            == vec![
                down(Key::Control),
                down(Key::LeftWin),
                down(Key::Shift),
                up(Key::Shift),
                up(Key::LeftWin),
                up(Key::Control),
            ]
    );
}

#[test]
fn text_is_typed_as_utf16_units() {
    let v = type_text("/b");
    assert!(v == vec![down(Key::Unicode(0x2f)), up(Key::Unicode(0x2f)), down(Key::Unicode(0x62)), up(Key::Unicode(0x62))]);
    let v = type_text("😀");
    assert!(v == vec![down(Key::Unicode(55357)), up(Key::Unicode(55357)), down(Key::Unicode(56832)), up(Key::Unicode(56832))]);
    let units: Vec<u16> = "/btw ".encode_utf16().collect();
    assert_eq!(type_text("/btw ").len(), units.len() * 2);
    assert!(type_text("").is_empty());
}
