use three_rings::cards::{CardRow, CardSummary};
use three_rings::catalog::{describe_error, displaced_by, AddKind, QueryErrorKind};
use three_rings::quick_add::{
    alt_hint, chip_label, commit_quantity, count_value, decode, enter_hint, flipped, key_step, meta_line,
    present_matches, present_visible, Action, KeyEffect, PresentMatch, QuickAddKind,
};
use three_rings::states::{ApiError, ServerFnError};

fn new_id() -> u128 {
    uuid::Uuid::new_v4().as_u128()
}

fn row(name: &str, oracle: u128, present: i32, rollup: i32) -> CardRow {
    CardRow {
        oracle_id: oracle,
        printing_id: new_id(),
        name: name.to_string(),
        present,
        present_rollup: rollup,
    }
}

#[test]
fn arrows_navigate_and_enter_commits_the_default() {
    assert_eq!(decode("ArrowDown", false, false, 3, false), Action::Next);
    assert_eq!(decode("ArrowUp", false, false, 3, false), Action::Prev);
    assert_eq!(
        decode("Enter", false, false, 3, false),
        Action::Commit { flip: false }
    );
}

#[test]
fn alt_enter_flips_the_kind_and_shift_enter_starts_a_count() {
    assert_eq!(
        decode("Enter", false, true, 3, false),
        Action::Commit { flip: true }
    );
    assert_eq!(decode("Enter", true, false, 3, false), Action::BeginCount);
}

#[test]
fn a_closed_panel_passes_every_key_to_the_search_box() {
    for key in ["ArrowDown", "ArrowUp", "Enter", "a"] {
        assert_eq!(
            decode(key, false, false, 0, false),
            Action::Pass,
            "{key} must fall through"
        );
    }
}

#[test]
fn escape_cancels_whether_or_not_a_count_is_pending() {
    assert_eq!(decode("Escape", false, false, 3, false), Action::Cancel);
    assert_eq!(decode("Escape", false, false, 3, true), Action::Cancel);
}

#[test]
fn escape_cancels_even_with_zero_candidate_rows() {
    assert_eq!(decode("Escape", false, false, 0, false), Action::Cancel);
    assert_eq!(decode("Escape", false, false, 0, true), Action::Cancel);
}

#[test]
fn count_entry_captures_digits_and_commits_on_enter() {
    assert_eq!(decode("4", false, false, 3, true), Action::Digit('4'));
    assert_eq!(
        decode("Backspace", false, false, 3, true),
        Action::Backspace
    );
    assert_eq!(
        decode("Enter", false, false, 3, true),
        Action::Commit { flip: false }
    );
    assert_eq!(
        decode("Enter", true, false, 3, true),
        Action::Commit { flip: false }
    );
    assert_eq!(
        decode("Enter", false, true, 3, true),
        Action::Commit { flip: true }
    );
}

#[test]
fn digits_only_belong_to_the_panel_while_counting() {
    assert_eq!(decode("4", false, false, 3, false), Action::Pass);
    assert_eq!(decode("Backspace", false, false, 3, false), Action::Pass);
    assert_eq!(decode("g", false, false, 3, true), Action::Pass);
}

#[test]
fn the_flip_and_the_hints_agree_on_which_kind_leads() {
    assert_eq!(flipped(QuickAddKind::Have), QuickAddKind::Want);
    assert_eq!(flipped(QuickAddKind::Want), QuickAddKind::Have);
    assert_eq!(enter_hint(QuickAddKind::Have), "add 1 here");
    assert_eq!(alt_hint(QuickAddKind::Have), "want instead");
    assert_eq!(enter_hint(QuickAddKind::Want), "want 1");
    assert_eq!(alt_hint(QuickAddKind::Want), "have instead");
    assert_eq!(chip_label(QuickAddKind::Want), "Want");
    assert_eq!(chip_label(QuickAddKind::Have), "Have");
}

#[test]
fn present_rows_fold_to_one_per_oracle_card() {
    let bolt = new_id();
    let rows = [
        row("Lightning Bolt", bolt, 2, 0),
        row("Lightning Bolt", bolt, 1, 0),
    ];
    let folded = present_matches(&rows);
    assert_eq!(folded.len(), 1);
    assert_eq!(folded[0].here, 3, "both printings count toward HERE");
}

#[test]
fn present_rows_include_rolled_up_copies() {
    let helix = new_id();
    let folded = present_matches(&[row("Lightning Helix", helix, 1, 4)]);
    assert_eq!(folded[0].here, 5, "HERE is present + rollup, as on the page");
}

#[test]
fn a_card_only_wanted_here_is_not_a_present_row() {
    let strike = new_id();
    assert!(present_matches(&[row("Lightning Strike", strike, 0, 0)]).is_empty());
}

#[test]
fn present_rows_keep_the_reads_order() {
    let a = new_id();
    let b = new_id();
    let names: Vec<_> = present_matches(&[row("Zap", b, 1, 0), row("Arc", a, 1, 0)])
        .into_iter()
        .map(|m| m.name)
        .collect();
    assert_eq!(names, vec!["Zap", "Arc"]);
}

#[test]
fn present_hides_on_an_empty_or_blank_query_even_with_matches() {
    let matches = [PresentMatch {
        oracle_id: new_id(),
        name: "Lightning Bolt".into(),
        here: 3,
    }];
    assert!(!present_visible("", &matches));
    assert!(!present_visible("   ", &matches));
}

#[test]
fn present_shows_only_once_a_query_actually_matched_something() {
    let matches = [PresentMatch {
        oracle_id: new_id(),
        name: "Lightning Bolt".into(),
        here: 3,
    }];
    assert!(present_visible("bolt", &matches));
    assert!(!present_visible("bolt", &[]));
}

#[test]
fn meta_prefers_the_mana_cost_and_falls_back_to_the_type_line() {
    let mut card = CardSummary {
        oracle_id: new_id(),
        name: "Lightning Bolt".into(),
        printing_id: None,
        mana_cost: Some("{R}".into()),
        type_line: Some("Instant".into()),
    };
    assert_eq!(meta_line(&card), "{R}");
    card.mana_cost = Some(String::new());
    assert_eq!(meta_line(&card), "Instant", "a land has no mana cost");
    card.type_line = None;
    assert_eq!(meta_line(&card), "");
}

#[test]
fn a_fold_that_nets_to_zero_drops_the_card() {
    let a = new_id();
    let rows = [row("A", a, 2, 0), row("A", a, -2, 0)];
    assert!(present_matches(&rows).is_empty());
}

#[test]
fn a_count_grows_to_two_digits_and_shrinks_away() {
    let (c, e) = key_step(None, Action::BeginCount, QuickAddKind::Have);
    assert_eq!((c.as_deref(), e), (Some(""), KeyEffect::Handled));
    let (c, _) = key_step(c, Action::Digit('4'), QuickAddKind::Have);
    let (c, _) = key_step(c, Action::Digit('2'), QuickAddKind::Have);
    let (c, _) = key_step(c, Action::Digit('7'), QuickAddKind::Have);
    assert_eq!(c.as_deref(), Some("42"));
    let (c, e) = key_step(c, Action::Commit { flip: true }, QuickAddKind::Have);
    assert_eq!(
        e,
        KeyEffect::Commit {
            kind: QuickAddKind::Want,
            count: Some(42)
        }
    );
    let (c, _) = key_step(c, Action::Backspace, QuickAddKind::Have);
    assert_eq!(c.as_deref(), Some("4"));
    let (c, _) = key_step(c, Action::Backspace, QuickAddKind::Have);
    assert_eq!(c, None);
}

#[test]
fn escape_abandons_the_count_before_the_panel() {
    let (c, e) = key_step(Some("3".into()), Action::Cancel, QuickAddKind::Want);
    assert_eq!((c.clone(), e), (None, KeyEffect::Handled));
    let (c, e) = key_step(c, Action::Cancel, QuickAddKind::Want);
    assert_eq!((c, e), (None, KeyEffect::Close));
}

#[test]
fn a_plain_commit_adds_the_default_kind() {
    let (_, e) = key_step(None, Action::Commit { flip: false }, QuickAddKind::Want);
    assert_eq!(
        e,
        KeyEffect::Commit {
            kind: QuickAddKind::Want,
            count: None
        }
    );
    let (_, e) = key_step(Some(String::new()), Action::Commit { flip: false }, QuickAddKind::Have);
    assert_eq!(
        e,
        KeyEffect::Commit {
            kind: QuickAddKind::Have,
            count: None
        }
    );
    assert_eq!(count_value("07"), Some(7));
    assert_eq!(count_value("4294967296"), None);
}

#[test]
fn a_search_error_is_blamed_by_its_variant_or_its_prefix() {
    let e = ServerFnError::WrappedServerError(ApiError::Validation("unknown key pow".into()));
    assert_eq!(
        describe_error(&e),
        (QueryErrorKind::Grammar, "unknown key pow".to_string())
    );
    let e = ServerFnError::WrappedServerError(ApiError::BadCursor("stale".into()));
    assert_eq!(describe_error(&e), (QueryErrorKind::Cursor, "stale".to_string()));
    let e = ServerFnError::WrappedServerError(ApiError::Upstream("down".into()));
    assert_eq!(describe_error(&e), (QueryErrorKind::Other, "down".to_string()));
    let e = ServerFnError::ServerError("validation: bad term".into());
    assert_eq!(
        describe_error(&e),
        (QueryErrorKind::Grammar, "bad term".to_string())
    );
    let e = ServerFnError::Other("bad cursor: zzz".into());
    assert_eq!(describe_error(&e), (QueryErrorKind::Cursor, "zzz".to_string()));
    let e = ServerFnError::Other("fetch failed".into());
    assert_eq!(
        describe_error(&e),
        (QueryErrorKind::Other, "fetch failed".to_string())
    );
}

#[test]
fn a_pager_is_displaced_while_the_box_or_the_url_moved_on() {
    assert!(!displaced_by("bolt", "bolt", "bolt"));
    assert!(displaced_by("bolt", "bolt c:r", "bolt"));
    assert!(displaced_by("bolt", "bolt", "bolt c"));
}

#[test]
fn the_add_kinds_name_themselves_and_their_wire_kind() {
    assert_eq!(AddKind::Want.noun(), "Want");
    assert_eq!(AddKind::Have.noun(), "Have");
    assert_eq!(AddKind::Want.wire(), QuickAddKind::Want);
    assert_eq!(AddKind::Have.wire(), QuickAddKind::Have);
}

#[test]
fn a_commit_without_a_readable_count_adds_one() {
    assert_eq!(commit_quantity(None), 1);
    assert_eq!(commit_quantity(Some(4)), 4);
    assert_eq!(commit_quantity(count_value("12")), 12);
    assert_eq!(commit_quantity(count_value("")), 1);
    assert_eq!(commit_quantity(count_value("99999999999")), 1);
}
