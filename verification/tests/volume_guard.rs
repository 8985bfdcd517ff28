use djimic::volume_guard::{restore_after_press, spawn, uninstall, VolumeGuard};

#[test]
fn a_press_restores_the_snapshot_taken_before_it() {
    let mut g = VolumeGuard::new();
    spawn(&mut g);
    g.on_snapshot(Some(0.4f32.to_bits()), Some(false));
    let (level, muted) = restore_after_press(&mut g);
    assert_eq!(f32::from_bits(level), 0.4);
    assert!(!muted);
    g.on_snapshot(Some(0.46f32.to_bits()), Some(true));
    assert_eq!(f32::from_bits(g.level_bits), 0.4);
    assert!(!g.muted);
    g.on_restored();
    g.on_snapshot(Some(0.5f32.to_bits()), None);
    assert_eq!(f32::from_bits(g.level_bits), 0.5);
    assert!(!g.muted);
}

#[test]
fn quitting_stops_the_overlay_suppression() {
    let mut g = VolumeGuard::new();
    assert!(g.keep_suppressing());
    uninstall(&mut g);
    assert!(!g.keep_suppressing());
    spawn(&mut g);
    assert!(g.keep_suppressing());
}
