use djimic::pairing_button::{
    is_held, is_receiver, read_report, recently_pressed, recently_pressed_at, spawn, uninstall, ButtonClock,
    ButtonReport, PairingButtonWatcher,
};

#[test]
fn reports_are_read_by_their_usage_byte() {
    assert!(read_report(&[6]).is_none());
    assert!(read_report(&[]).is_none());
    assert!(read_report(&[6, 1, 0]) == Some(ButtonReport::Pressed));
    assert!(read_report(&[6, 0]) == Some(ButtonReport::Released));
}

#[test]
fn press_and_release_edges() {
    let mut w = PairingButtonWatcher::new();
    let mut clock = ButtonClock::new();
    assert!(!w.is_active_at(5_000));
    assert!(!recently_pressed_at(&clock, 300, 5_000));
    w.on_press(&mut clock, 10_000);
    assert!(is_held(&clock));
    assert!(w.is_active_at(10_699));
    assert!(!w.is_active_at(10_700));
    assert!(recently_pressed_at(&clock, 300, 10_299));
    assert!(!recently_pressed_at(&clock, 300, 10_300));
    w.on_release(&mut clock, 12_000);
    assert!(!is_held(&clock));
    assert!(recently_pressed_at(&clock, 300, 12_100));
    assert_eq!(w.last_press_millis, 10_000);
    assert!(w.is_active_at(9_000));
}

#[test]
fn an_old_press_is_not_active_by_the_clock() {
    let w = PairingButtonWatcher { last_press_millis: 1 };
    assert!(!w.is_active());
    let clock = ButtonClock { last_edge_millis: 1, held: false };
    assert!(!recently_pressed(&clock, 300));
}

#[test]
fn the_receiver_is_recognised_by_its_ids() {
    assert!(is_receiver(0x2ca3, 0x4011));
    assert!(!is_receiver(0x2ca3, 0x4012));
    assert!(!is_receiver(0x1234, 0x4011));
}

#[test]
fn spawn_gives_an_idle_watcher() {
    let w = spawn();
    assert_eq!(w.last_press_millis, 0);
    uninstall();
}
