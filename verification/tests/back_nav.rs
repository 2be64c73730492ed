use three_rings::back_nav::{back_action, fallback_href, is_back_chord, is_editable, BackAction, HistoryTracker};

#[test]
fn the_chord_is_cmd_bracket_on_mac_and_alt_left_elsewhere() {
    assert!(is_back_chord("[", true, false, false, false, true));
    assert!(is_back_chord("ArrowLeft", false, false, true, false, false));
    assert!(!is_back_chord("[", true, false, false, false, false));
    assert!(!is_back_chord("ArrowLeft", false, false, true, false, true));
}

#[test]
fn an_extra_modifier_is_someone_elses_chord() {
    assert!(!is_back_chord("[", true, true, false, false, true));
    assert!(!is_back_chord("[", true, false, true, false, true));
    assert!(!is_back_chord("[", true, false, false, true, true));
    assert!(!is_back_chord("ArrowLeft", false, true, true, false, false));
    assert!(!is_back_chord("ArrowLeft", true, false, true, false, false));
    assert!(!is_back_chord("ArrowLeft", false, false, true, true, false));
}

#[test]
fn bare_navigation_keys_are_never_the_chord() {
    assert!(!is_back_chord("[", false, false, false, false, true));
    assert!(!is_back_chord("ArrowLeft", false, false, false, false, false));
}

#[test]
fn history_starts_after_the_first_route() {
    let mut t = HistoryTracker::new();
    t.on_route();
    assert!(!t.has_history);
    t.on_route();
    assert!(t.has_history);
}

#[test]
fn the_chord_goes_back_or_falls_back_and_spares_fields() {
    assert_eq!(back_action(true, false, true), BackAction::HistoryBack);
    assert_eq!(back_action(true, false, false), BackAction::Fallback);
    assert_eq!(back_action(true, true, true), BackAction::Ignore);
    assert_eq!(back_action(false, false, true), BackAction::Ignore);
    assert_eq!(fallback_href(true), "/my");
    assert_eq!(fallback_href(false), "/catalog");
    assert!(is_editable("INPUT", false));
    assert!(is_editable("textarea", false));
    assert!(is_editable("Select", false));
    assert!(is_editable("div", true));
    assert!(!is_editable("div", false));
}
