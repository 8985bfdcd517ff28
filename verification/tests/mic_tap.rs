use djimic::mic_tap::{
    group_action, is_dji_mic_name, names_dji_mic, peak_abs, reported_count, zero_crossings, Candidate, DetectionState,
    GroupAction, MicTapWatcher, TapGroup, DEBOUNCE_NS, TAP_CONFIRM_DELAY_NS, TAP_WINDOW_NS,
};

const MS: u64 = 1_000_000;

fn cand() -> Candidate {
    Candidate { class: 1, peak_ratio_bits: 10.0f32.to_bits() }
}

/// Feeds one chunk; every waiting candidate reads as decayed unless `hold` is set.
fn chunk(st: &mut DetectionState, now: u64, suppressed: bool, candidate: Option<Candidate>, hold: bool) -> Vec<TapGroup> {
    let n = st.pending().len();
    let decayed = vec![!hold; n];
    st.on_chunk(now, &decayed, suppressed, candidate)
}

fn run_taps(times_ms: &[u64], end_ms: u64) -> Vec<TapGroup> {
    let mut st = DetectionState::new();
    let mut out = Vec::new();
    let mut t = 0;
    while t <= end_ms {
        let c = if times_ms.contains(&t) { Some(cand()) } else { None };
        out.extend(chunk(&mut st, t * MS, false, c, false));
        t += 10;
    }
    out
}

#[test]
fn single_tap_is_one_group_of_one() {
    let groups = run_taps(&[100], 1200);
    assert_eq!(groups.len(), 1);
    assert_eq!(groups[0].count, 1);
    assert_eq!(groups[0].taps.len(), 1);
    assert_eq!(groups[0].taps[0].at, (100 + 150) * MS);
    assert_eq!(groups[0].taps[0].class, 1);
}

#[test]
fn two_quick_taps_are_one_double() {
    let groups = run_taps(&[100, 300], 1500);
    assert_eq!(groups.len(), 1);
    assert_eq!(groups[0].count, 2);
}

#[test]
fn three_taps_report_as_double() {
    let groups = run_taps(&[100, 300, 500], 2000);
    assert_eq!(groups.len(), 1);
    assert_eq!(groups[0].count, 3);
    assert_eq!(reported_count(groups[0].count), 2);
}

#[test]
fn taps_far_apart_are_separate_groups() {
    let groups = run_taps(&[100, 1000], 2500);
    assert_eq!(groups.len(), 2);
    assert_eq!(groups[0].count, 1);
    assert_eq!(groups[1].count, 1);
}

#[test]
fn a_candidate_within_the_debounce_is_ignored() {
    let mut st = DetectionState::new();
    chunk(&mut st, 0, false, Some(cand()), false);
    chunk(&mut st, DEBOUNCE_NS - 1, false, Some(cand()), false);
    assert_eq!(st.pending().len(), 1);
    chunk(&mut st, DEBOUNCE_NS, false, Some(cand()), false);
    assert_eq!(st.pending().len(), 2);
}

#[test]
fn suppression_cancels_waiting_candidates() {
    let mut st = DetectionState::new();
    chunk(&mut st, 0, false, Some(cand()), false);
    assert_eq!(st.pending().len(), 1);
    chunk(&mut st, 50 * MS, true, Some(cand()), false);
    assert_eq!(st.pending().len(), 0);
    let mut all = Vec::new();
    let mut t = 60;
    while t < 2000 {
        all.extend(chunk(&mut st, t * MS, false, None, false));
        t += 10;
    }
    assert!(all.is_empty());
}

#[test]
fn a_candidate_that_never_decays_is_rejected() {
    let mut st = DetectionState::new();
    let mut all = Vec::new();
    all.extend(chunk(&mut st, 0, false, Some(cand()), true));
    let mut t = 10;
    while t < 2000 {
        all.extend(chunk(&mut st, t * MS, false, None, true));
        t += 10;
    }
    assert!(all.is_empty());
    assert_eq!(st.pending().len(), 0);
}

#[test]
fn decay_is_recorded_per_candidate() {
    let mut st = DetectionState::new();
    chunk(&mut st, 0, false, Some(cand()), true);
    let p = st.pending();
    assert!(!p[0].seen_decay);
    assert_eq!(p[0].peak_ratio_bits, 10.0f32.to_bits());
    st.on_chunk(10 * MS, &vec![true], false, None);
    assert!(st.pending()[0].seen_decay);
    let groups = st.on_chunk(TAP_CONFIRM_DELAY_NS, &vec![false], false, None);
    assert!(groups.is_empty());
    let groups = st.on_chunk(TAP_CONFIRM_DELAY_NS + TAP_WINDOW_NS + 1, &vec![], false, None);
    assert_eq!(groups.len(), 1);
    assert_eq!(groups[0].count, 1);
}

#[test]
fn reported_counts() {
    assert_eq!(reported_count(0), 0);
    assert_eq!(reported_count(1), 1);
    assert_eq!(reported_count(2), 2);
    assert_eq!(reported_count(7), 2);
}

#[test]
fn group_actions() {
    assert!(group_action(1, true) == GroupAction::Navigate);
    assert!(group_action(2, true) == GroupAction::Nothing);
    assert!(group_action(3, false) == GroupAction::Open);
    assert!(group_action(1, false) == GroupAction::Nothing);
}

#[test]
fn watcher_records_groups_and_reports_status() {
    let mut w = MicTapWatcher::new();
    assert!(w.last_group_taps.is_empty());
    assert!(w.finalize_group(5, vec![1, 2, 3, 4, 5], 10_000, false) == GroupAction::Open);
    assert_eq!(w.last_group_count, 2);
    assert_eq!(w.last_group_taps, vec![1, 2, 3, 4, 5]);
    assert!(w.finalize_group(1, vec![9], 11_000, true) == GroupAction::Navigate);
    assert_eq!(w.last_group_taps, vec![9]);
    assert!(w.finalize_group(5, vec![1, 2, 3, 4, 5], 10_000, false) == GroupAction::Open);
    let st = w.status_at(10_500);
    assert!(st.active);
    assert_eq!(st.count, 2);
    let st = w.status_at(10_700);
    assert!(!st.active);
    assert_eq!(st.count, 0);
    assert!(!st.device_found);
}

#[test]
fn status_by_the_clock_goes_inactive() {
    let mut w = MicTapWatcher::new();
    w.finalize_group(1, vec![1], 1, true);
    let st = w.status();
    assert!(!st.active);
    assert_eq!(st.count, 0);
}

#[test]
fn device_names_are_matched_case_insensitively() {
    assert!(is_dji_mic_name("Microphone (DJI MIC RX)"));
    assert!(is_dji_mic_name("Wireless MIC 2"));
    assert!(is_dji_mic_name("dji"));
    assert!(!is_dji_mic_name("Realtek Audio"));
    assert!(names_dji_mic("mic rx"));
    assert!(!names_dji_mic("MIC RX"));
}

#[test]
fn peaks_and_crossings() {
    assert_eq!(peak_abs(&[]), 0);
    assert_eq!(peak_abs(&[3, -7, 5]), 7);
    assert_eq!(peak_abs(&[i16::MIN, 10]), 32768);
    assert_eq!(zero_crossings(&[]), 0);
    assert_eq!(zero_crossings(&[5]), 0);
    assert_eq!(zero_crossings(&[1, -1, -2, 0, 3, -4]), 3);
}
