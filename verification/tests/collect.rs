use djimic::collect::{old_file_action, OldFileAction, capture_labels, collect_phases, header_mismatch, run_mode, Mode, Phase, CSV_COLUMNS, CSV_HEADER};

fn args(a: &[&str]) -> Vec<String> {
    a.iter().map(|s| s.to_string()).collect()
}

#[test]
fn the_command_line_picks_the_mode() {
    assert!(run_mode(&args(&["detect-test"])) == Mode::Detect);
    assert!(run_mode(&args(&["detect-test", "collect"])) == Mode::Collect);
    assert!(run_mode(&args(&["detect-test", "collect-extra"])) == Mode::CollectExtra);
    assert!(run_mode(&args(&["detect-test", "collect-friction"])) == Mode::CollectFriction);
    assert!(run_mode(&args(&["detect-test", "train"])) == Mode::Train { bake_default: false });
    assert!(run_mode(&args(&["detect-test", "train", "--bake-default"])) == Mode::Train { bake_default: true });
    assert!(run_mode(&args(&["detect-test", "other", "--bake-default"])) == Mode::Detect);
}

#[test]
fn each_collection_runs_its_phases() {
    let p = collect_phases(Mode::Collect);
    assert_eq!(p.len(), 6);
    assert!(p[0] == Phase::Passive { seconds: 8 });
    assert!(p[3] == Phase::Passive { seconds: 60 });
    assert!(p[4] == Phase::Captures { class: 1, count: 30, window_ms: 600, background: false });
    assert!(p[5] == Phase::Captures { class: 2, count: 30, window_ms: 600, background: false });
    let p = collect_phases(Mode::CollectExtra);
    assert!(p == vec![Phase::Captures { class: 0, count: 30, window_ms: 700, background: true }; 2]);
    let p = collect_phases(Mode::CollectFriction);
    assert!(p == vec![Phase::Captures { class: 0, count: 30, window_ms: 800, background: true }]);
    assert!(collect_phases(Mode::Detect).is_empty());
}

#[test]
fn an_old_header_is_a_mismatch() {
    assert!(!header_mismatch(None));
    assert!(!header_mismatch(Some(CSV_HEADER)));
    assert!(header_mismatch(Some("label,peak,rms")));
    assert_eq!(CSV_HEADER.split(',').count(), CSV_COLUMNS);
}

#[test]
fn only_the_loudest_and_loud_neighbours_are_taps() {
    assert!(capture_labels(&vec![], 1).is_empty());
    assert_eq!(capture_labels(&vec![10, 1300, 5000, 800, 20], 2), vec![0, 2, 2, 0, 0]);
    assert_eq!(capture_labels(&vec![5000, 5000, 10], 1), vec![1, 1, 0]);
    assert_eq!(capture_labels(&vec![3000, 100, 3000, 1199], 1), vec![0, 0, 1, 0]);
}

#[test]
fn an_old_samples_file_is_backed_up_only_by_the_full_collection() {
    assert!(old_file_action(Mode::Collect, None) == OldFileAction::Append);
    assert!(old_file_action(Mode::CollectExtra, Some(CSV_HEADER)) == OldFileAction::Append);
    assert!(old_file_action(Mode::Collect, Some("label,peak")) == OldFileAction::BackUpAndStartOver);
    assert!(old_file_action(Mode::CollectExtra, Some("label,peak")) == OldFileAction::Abort);
    assert!(old_file_action(Mode::CollectFriction, Some("label,peak")) == OldFileAction::Abort);
}
