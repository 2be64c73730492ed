use three_rings::stepper::{
    bounds_reached, cancel, clamp_count, commit_message, commit_session, copies_label,
    count_or_dash, display, enter_edit, have_refusal_title, have_write, i32_text, parse_i32_text,
    reverted, stale_commit_should_be_dropped, step, stepper_key, undo_commit, want_refusal_title,
    want_write, HaveWrite, StepperCommit, StepperKey, StepperSession,
};

#[test]
fn count_or_dash_reads_zero_as_absence() {
    assert_eq!(count_or_dash(0), "—");
    assert_eq!(count_or_dash(-1), "—");
    assert_eq!(count_or_dash(3), "3");
}

#[test]
fn stale_commits_are_dropped_only_once_the_row_is_removed() {
    assert!(stale_commit_should_be_dropped(true));
    assert!(!stale_commit_should_be_dropped(false));
}

#[test]
fn steps_accumulate_and_commit_once() {
    let mut s = StepperSession::new();
    step(&mut s, 3, 1, 0, None);
    step(&mut s, 3, 1, 0, None);
    assert_eq!(display(&s, 3), 5);
    let c = commit_session(&mut s, 3, 0, None);
    assert_eq!(c, Some(StepperCommit { from: 3, to: 5 }));
    assert_eq!(commit_session(&mut s, 5, 0, None), None);
    assert_eq!(display(&s, 5), 5);
}

#[test]
fn a_step_at_a_bound_opens_no_session() {
    let mut s = StepperSession::new();
    step(&mut s, 0, -1, 0, None);
    assert_eq!(s.pending, None);
    step(&mut s, 4, 1, 0, Some(4));
    assert_eq!(s.pending, None);
    assert_eq!(bounds_reached(0, 0, Some(4)), (true, false));
    assert_eq!(bounds_reached(4, 0, Some(4)), (false, true));
    assert_eq!(bounds_reached(2, 0, None), (false, false));
}

#[test]
fn typing_commits_the_clamped_number_and_garbage_cancels() {
    let mut s = StepperSession::new();
    enter_edit(&mut s, 3);
    assert!(s.editing);
    assert_eq!(s.text, "3");
    s.text = " 120 ".into();
    assert_eq!(
        commit_session(&mut s, 3, 0, Some(99)),
        Some(StepperCommit { from: 3, to: 99 })
    );
    enter_edit(&mut s, 3);
    s.text = "lots".into();
    assert_eq!(commit_session(&mut s, 3, 0, None), None);
    assert!(!s.editing);
}

#[test]
fn a_step_while_typing_rewrites_the_text() {
    let mut s = StepperSession::new();
    enter_edit(&mut s, 3);
    s.text = "7".into();
    step(&mut s, 3, 1, 0, None);
    assert_eq!(s.text, "8");
    s.text = "x".into();
    step(&mut s, 3, -1, 0, None);
    assert_eq!(s.text, "2");
}

#[test]
fn escape_drops_the_session() {
    let mut s = StepperSession::new();
    step(&mut s, 1, 1, 0, None);
    cancel(&mut s);
    assert_eq!(commit_session(&mut s, 1, 0, None), None);
}

#[test]
fn keys_map_to_the_stepper_contract() {
    assert_eq!(stepper_key(true, "Enter"), StepperKey::Commit);
    assert_eq!(stepper_key(true, "Escape"), StepperKey::Cancel);
    assert_eq!(stepper_key(true, "ArrowUp"), StepperKey::Ignore);
    assert_eq!(stepper_key(false, "ArrowUp"), StepperKey::StepUp);
    assert_eq!(stepper_key(false, "+"), StepperKey::StepUp);
    assert_eq!(stepper_key(false, "="), StepperKey::StepUp);
    assert_eq!(stepper_key(false, "-"), StepperKey::StepDown);
    assert_eq!(stepper_key(false, "ArrowDown"), StepperKey::StepDown);
    assert_eq!(stepper_key(false, "Escape"), StepperKey::ClearPending);
    assert_eq!(stepper_key(false, "x"), StepperKey::Ignore);
}

#[test]
fn undo_reverses_a_commit_once() {
    assert_eq!(undo_commit(5, 3), Some(StepperCommit { from: 5, to: 3 }));
    assert_eq!(undo_commit(3, 3), None);
    assert_eq!(
        reverted(StepperCommit { from: 2, to: 7 }),
        StepperCommit { from: 7, to: 2 }
    );
}

#[test]
fn the_commit_toast_names_both_counts() {
    assert_eq!(commit_message("Bolt", 3, 1), "Bolt: 3 → 1");
    assert_eq!(copies_label(1), "1 copy");
    assert_eq!(copies_label(4), "4 copies");
}

#[test]
fn a_zero_removes_a_holding_but_sets_a_want() {
    let c = StepperCommit { from: 3, to: 0 };
    assert_eq!(have_write(false, c), HaveWrite::Remove { copies: 3 });
    assert_eq!(have_write(true, c), HaveWrite::Drop);
    let d = StepperCommit { from: 3, to: 2 };
    assert_eq!(have_write(false, d), HaveWrite::SetCount(d));
    assert_eq!(want_write(false, c), Some((c, true)));
    assert_eq!(want_write(false, d), Some((d, false)));
    assert_eq!(want_write(true, d), None);
}

#[test]
fn refusals_say_why() {
    assert_eq!(
        have_refusal_title(2),
        "several finishes or conditions here — edit them individually"
    );
    assert_eq!(have_refusal_title(0), "wanted here, not held");
    assert_eq!(want_refusal_title(0), "not wanted here");
}

#[test]
fn counts_parse_as_i32_does() {
    assert_eq!(parse_i32_text("42"), Some(42));
    assert_eq!(parse_i32_text("+42"), Some(42));
    assert_eq!(parse_i32_text("-7"), Some(-7));
    assert_eq!(parse_i32_text("-+7"), None);
    assert_eq!(parse_i32_text("-"), None);
    assert_eq!(parse_i32_text("-2147483648"), Some(i32::MIN));
    assert_eq!(parse_i32_text("2147483648"), None);
    assert_eq!(i32_text(-15), "-15");
    assert_eq!(clamp_count(-3, 0, None), 0);
    assert_eq!(clamp_count(120, 0, Some(99)), 99);
}
