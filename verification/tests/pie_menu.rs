use djimic::permission::Decision;
use djimic::pie_menu::{Answer, PendingAnswer, PieMenuState, SlotAction, CLOSE_INDEX, VOICE_HOLD_TIMEOUT_MS};

#[test]
fn a_permission_card_has_three_fixed_slots() {
    let mut st = PieMenuState::new();
    let q = st.show_pending_permission("Bash".to_string(), "rm -rf build".to_string());
    assert_eq!(q.kind, "permission");
    assert_eq!(q.title, "Bash");
    assert_eq!(q.detail, "rm -rf build");
    assert_eq!(q.icons, vec!["yes", "dont_ask", "no"]);
    assert_eq!(q.labels, vec!["Allow", "Allow, don't ask again", "Deny"]);
    assert!(matches!(st.pending, Some(PendingAnswer::Permission)));
}

#[test]
fn a_question_card_lists_options_then_the_terminal_slot() {
    let mut st = PieMenuState::new();
    let q = st.show_pending_ask_user_question("Which?".to_string(), vec!["A".to_string(), "B".to_string()]);
    assert_eq!(q.kind, "question");
    assert_eq!(q.title, "Which?");
    assert_eq!(q.detail, "");
    assert_eq!(q.icons, vec!["n1", "n2", "terminal"]);
    assert_eq!(q.labels, vec!["A", "B", "Answer in terminal instead"]);
}

#[test]
fn permission_slots_map_to_decisions() {
    for (index, expected) in [(0, Decision::Allow), (1, Decision::AllowAlways), (2, Decision::Deny), (9, Decision::Deny)] {
        let mut st = PieMenuState::new();
        st.show_pending_permission("Edit".to_string(), String::new());
        assert!(st.answer_question(index) == Answer::Permission(expected));
        assert!(st.pending.is_none());
    }
}

#[test]
fn question_slots_map_to_picks() {
    let mut st = PieMenuState::new();
    st.show_pending_ask_user_question("Q".to_string(), vec!["A".to_string(), "B".to_string()]);
    assert!(st.answer_question(1) == Answer::Question(Some(1)));
    st.show_pending_ask_user_question("Q".to_string(), vec!["A".to_string(), "B".to_string()]);
    assert!(st.answer_question(2) == Answer::Question(None));
}

#[test]
fn a_stray_second_pick_only_closes() {
    let mut st = PieMenuState::new();
    st.show_pending_permission("Bash".to_string(), String::new());
    assert!(st.answer_question(0) == Answer::Permission(Decision::Allow));
    assert!(st.answer_question(0) == Answer::Close);
}

#[test]
fn an_external_answer_dismisses_only_a_question() {
    let mut st = PieMenuState::new();
    assert!(!st.question_answered_externally());
    st.show_pending_permission("Bash".to_string(), String::new());
    assert!(!st.question_answered_externally());
    assert!(st.pending.is_some());
    st.show_pending_ask_user_question("Q".to_string(), vec!["A".to_string()]);
    assert!(st.question_answered_externally());
    assert!(st.pending.is_none());
}

#[test]
fn a_timeout_closes_whatever_is_pending() {
    let mut st = PieMenuState::new();
    assert!(!st.force_close_permission());
    st.show_pending_permission("Bash".to_string(), String::new());
    assert!(st.force_close_permission());
    assert!(st.pending.is_none());
}

#[test]
fn slots_and_voice_input() {
    let mut st = PieMenuState::new();
    assert!(st.select(CLOSE_INDEX, 1) == SlotAction::Close);
    assert!(st.select(1, 1) == SlotAction::DownArrow);
    assert!(st.select(2, 1) == SlotAction::UpArrow);
    assert!(st.select(3, 1) == SlotAction::Enter);
    assert!(st.select(4, 1) == SlotAction::TypeBtw);
    assert!(st.select(6, 1) == SlotAction::Nothing);
    assert!(st.may_navigate(true));
    assert!(!st.may_navigate(false));
    assert!(st.select(0, 5_000) == SlotAction::StartVoice);
    assert!(st.voice_hold_active);
    assert!(!st.may_navigate(true));
    assert!(st.end_voice_hold_if_active());
    assert!(!st.end_voice_hold_if_active());
    assert!(st.may_navigate(true));
}

#[test]
fn the_watchdog_clears_a_stuck_voice_flag() {
    let mut st = PieMenuState::new();
    st.select(0, 5_000);
    assert!(!st.voice_hold_watchdog(5_000 + VOICE_HOLD_TIMEOUT_MS - 1));
    assert!(st.voice_hold_active);
    assert!(st.voice_hold_watchdog(5_000 + VOICE_HOLD_TIMEOUT_MS));
    assert!(!st.voice_hold_active);
    assert!(!st.voice_hold_watchdog(10_000_000));
}
