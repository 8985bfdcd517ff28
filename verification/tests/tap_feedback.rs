use djimic::tap_feedback::{retrain_precheck, RetrainRefusal, 
    false_negative_row, false_positive_rows, FeedbackError, FeedbackRing, RingEntry, TrainerGate, RING_MAX_AGE_NS,
    RING_MAX_LEN,
};

const MS: u64 = 1_000_000;

fn e(at_ms: u64, peak: u32) -> RingEntry<u32> {
    RingEntry { at: at_ms * MS, peak, data: peak }
}

#[test]
fn the_ring_is_capped_in_length() {
    let mut r: FeedbackRing<u32> = FeedbackRing::new();
    for i in 0..(RING_MAX_LEN as u64 + 5) {
        r.push(e(i, 1));
    }
    let all = r.sample(100_000);
    assert_eq!(all.len(), RING_MAX_LEN);
    assert_eq!(all[0].at, 5 * MS);
}

#[test]
fn the_ring_forgets_old_chunks() {
    let mut r: FeedbackRing<u32> = FeedbackRing::new();
    r.push(e(1_000, 1));
    r.push(e(30_000, 2));
    r.push(RingEntry { at: 1_000 * MS + RING_MAX_AGE_NS, peak: 3, data: 3 });
    let all = r.sample(10);
    assert_eq!(all.len(), 3);
    r.push(RingEntry { at: 1_000 * MS + RING_MAX_AGE_NS + 1, peak: 4, data: 4 });
    let all = r.sample(10);
    assert_eq!(all.len(), 3);
    assert_eq!(all[0].peak, 2);
}

#[test]
fn the_loudest_near_wins_and_ties_go_to_the_later() {
    let mut r: FeedbackRing<u32> = FeedbackRing::new();
    r.push(e(100, 500));
    r.push(e(200, 900));
    r.push(e(300, 900));
    r.push(e(900, 5000));
    let c = r.loudest_near(250 * MS, 100 * MS).unwrap();
    assert_eq!(c.at, 300 * MS);
    assert!(r.loudest_near(2000 * MS, 10 * MS).is_none());
    let t = r.loudest_trailing(950 * MS, 700 * MS).unwrap();
    assert_eq!(t.peak, 5000);
    let t = r.loudest_trailing(850 * MS, 700 * MS).unwrap();
    assert_eq!(t.at, 300 * MS);
}

#[test]
fn samples_are_evenly_spaced() {
    let mut r: FeedbackRing<u32> = FeedbackRing::new();
    for i in 0..10u64 {
        r.push(e(i, i as u32));
    }
    let s = r.sample(3);
    let peaks: Vec<u32> = s.iter().map(|x| x.peak).collect();
    assert_eq!(peaks, vec![0, 3, 6]);
    assert_eq!(r.sample(20).len(), 10);
}

#[test]
fn a_false_positive_report_needs_recent_taps_and_their_sounds() {
    let mut r: FeedbackRing<u32> = FeedbackRing::new();
    assert!(matches!(false_positive_rows(&r, &vec![]), Err(FeedbackError::NoRecentTaps)));
    r.push(e(1_000, 800));
    assert!(matches!(false_positive_rows(&r, &vec![5_000 * MS]), Err(FeedbackError::NoMatchingSound)));
    let rows = false_positive_rows(&r, &vec![1_150 * MS, 5_000 * MS]).ok().unwrap();
    assert_eq!(rows.len(), 1);
    assert_eq!(rows[0].peak, 800);
}

#[test]
fn a_false_negative_report_needs_a_loud_recent_sound() {
    let mut r: FeedbackRing<u32> = FeedbackRing::new();
    assert!(matches!(false_negative_row(&r, 10_000 * MS), Err(FeedbackError::NothingHeard)));
    r.push(e(9_000, 249));
    assert!(matches!(false_negative_row(&r, 10_000 * MS), Err(FeedbackError::TooQuiet)));
    r.push(e(9_500, 250));
    assert_eq!(false_negative_row(&r, 10_000 * MS).ok().unwrap().peak, 250);
    assert!(matches!(false_negative_row(&r, 20_000 * MS), Err(FeedbackError::NothingHeard)));
}

#[test]
fn error_messages() {
    assert_eq!(FeedbackError::NoRecentTaps.message(), "最近没有可撤销的敲击");
    assert_eq!(FeedbackError::NoMatchingSound.message(), "没能在最近的录音里找到对应的声音片段");
    assert_eq!(FeedbackError::NothingHeard.message(), "最近没有捕捉到任何声音");
    assert_eq!(FeedbackError::TooQuiet.message(), "最近几秒内没有检测到明显的敲击声，请在敲击后尽快点击反馈");
}

#[test]
fn retraining_never_overlaps_and_waits_between_runs() {
    let mut g = TrainerGate::new();
    assert_eq!(g.state_name(), "idle");
    assert!(g.try_begin(1_000));
    assert_eq!(g.state_name(), "training");
    assert!(!g.try_begin(1_001));
    g.finish(2_000, true);
    assert!(!g.try_begin(21_999));
    assert!(!g.training);
    assert!(g.try_begin(22_000));
    g.finish(23_000, false);
    assert!(g.try_begin(23_001));
}

#[test]
fn a_retrain_needs_feedback_and_enough_recent_chunks() {
    assert!(retrain_precheck(0, 400) == Err(RetrainRefusal::NoFeedback));
    assert!(retrain_precheck(3, 19) == Err(RetrainRefusal::TooFewRecent));
    assert!(retrain_precheck(3, 20).is_ok());
    assert_eq!(RetrainRefusal::NoFeedback.message(), "没有可用的反馈数据");
    assert_eq!(RetrainRefusal::TooFewRecent.message(), "最近的录音样本太少，暂不满足增量训练条件");
}
