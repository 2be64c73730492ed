use three_rings::last_move::{note_last_move, undo_call, LastMove, LastMoveState, UndoCall};
use three_rings::palette::{group_order, platform_is_mac, PaletteCommand, PaletteGroup, RowSet};
use three_rings::query_bar::{
    bar_key, history_replaces, reset_fires, BarKey, PendingQuery, QuerySync, SEARCH_DEBOUNCE_MS,
};

#[test]
fn refining_replaces_and_starting_or_clearing_pushes() {
    assert!(history_replaces("bolt", "bolt c:r"));
    assert!(!history_replaces("", "bolt"));
    assert!(!history_replaces("bolt", ""));
    assert_eq!(SEARCH_DEBOUNCE_MS, 250);
}

#[test]
fn the_box_follows_the_url_only_when_it_moved_without_it() {
    let mut sync = QuerySync::new("bolt".into());
    assert_eq!(sync.url_moved("bolt"), None);
    assert_eq!(sync.url_moved("shock"), Some("shock".to_string()));
    assert_eq!(sync.url_moved("shock"), None);
    sync.pushed("helix".into());
    assert_eq!(sync.url_moved("helix"), None);
}

#[test]
fn a_typed_commit_is_armed_replaced_and_cancelled() {
    let mut p: PendingQuery<u32> = PendingQuery::new();
    assert_eq!(p.peek(), None);
    assert_eq!(p.arm(Some(1), "b".into()), None);
    assert_eq!(p.peek(), Some("b".to_string()));
    assert_eq!(p.arm(Some(2), "bo".into()), Some(1));
    assert_eq!(p.cancel(), Some(2));
    assert_eq!(p.peek(), None);
    p.arm(None, "bol".into());
    assert_eq!(p.peek(), None);
    p.arm(Some(3), "bolt".into());
    p.fired();
    assert_eq!(p.peek(), None);
}

#[test]
fn enter_commits_unless_the_caller_took_the_key() {
    assert_eq!(bar_key(true, "Enter"), BarKey::Handled);
    assert_eq!(bar_key(false, "Enter"), BarKey::Commit);
    assert_eq!(bar_key(false, "a"), BarKey::Ignore);
    assert!(!reset_fires(None, 0));
    assert!(!reset_fires(Some(1), 1));
    assert!(reset_fires(Some(1), 2));
}

#[test]
fn the_last_move_is_taken_for_undo_and_restored_on_failure() {
    let mut s = LastMoveState::new();
    s.note(vec![]);
    assert_eq!(s.take_for_undo(), None);
    s.note(vec![1, 2]);
    let m = s.take_for_undo().unwrap();
    assert_eq!(s.take_for_undo(), None);
    s.restore_after_failure(m.clone());
    assert_eq!(s.take_for_undo(), Some(m.clone()));
    s.note(vec![9]);
    s.restore_after_failure(m.clone());
    assert_eq!(s.take_for_undo(), Some(LastMove { move_ids: vec![9] }));
    assert_eq!(undo_call(LastMove { move_ids: vec![4] }), UndoCall::One(4));
    assert_eq!(undo_call(m), UndoCall::Batch(vec![1, 2]));
    let mut absent: Option<LastMoveState> = None;
    note_last_move(&mut absent, vec![1]);
    assert!(absent.is_none());
    let mut present = Some(LastMoveState::new());
    note_last_move(&mut present, vec![5]);
    assert_eq!(
        present.unwrap().take_for_undo(),
        Some(LastMove { move_ids: vec![5] })
    );
}

#[test]
fn palette_groups_drop_out_when_empty_and_commands_can_lead() {
    let set = RowSet {
        places_label: "Places",
        places: vec![],
        commands: vec![PaletteCommand::UndoLastMove],
        commands_first: false,
    };
    assert_eq!(group_order(&set), vec![PaletteGroup::Commands]);
    let set = RowSet {
        places_label: "Places",
        places: vec![],
        commands: vec![],
        commands_first: true,
    };
    assert_eq!(group_order(&set), vec![]);
    assert!(platform_is_mac(Some("MacIntel")));
    assert!(!platform_is_mac(Some("Win32")));
    assert!(!platform_is_mac(None));
}
