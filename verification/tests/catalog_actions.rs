use three_rings::catalog::{
    add_toast_message, addable, is_paged, pager_arrows, quick_add_disabled, search_error_text,
    sign_in_href, view_switch_url, AddKind, PagerArrow, QueryErrorKind,
};
use three_rings::quick_add::{add_refusal, refusal_message, AddRefusal, QuickAddKind};
use three_rings::rail::rail_navigation;
use three_rings::states::{note_affordances, note_message, Failure};
use three_rings::ui::{ButtonVariant, InputType, SheetDirection};

#[test]
fn a_have_needs_a_printing_and_a_want_does_not() {
    assert!(addable(AddKind::Want, false));
    assert!(!addable(AddKind::Have, false));
    assert!(addable(AddKind::Have, true));
    assert!(quick_add_disabled(true, true, true));
    assert!(quick_add_disabled(false, false, true));
    assert!(quick_add_disabled(false, true, false));
    assert!(!quick_add_disabled(false, true, true));
}

#[test]
fn signed_out_quick_actions_come_back_to_the_page() {
    assert_eq!(sign_in_href("/catalog", ""), "/login?next=%2Fcatalog");
    assert_eq!(
        sign_in_href("/catalog", "q=bolt"),
        "/login?next=%2Fcatalog%3Fq%3Dbolt"
    );
}

#[test]
fn the_add_toast_names_the_count_the_card_and_the_place() {
    assert_eq!(
        add_toast_message(QuickAddKind::Want, 1, "Bolt", "📥 Inbox"),
        "Wanted 1 Bolt → 📥 Inbox"
    );
    assert_eq!(
        add_toast_message(QuickAddKind::Have, 4, "Bolt", "🗂 Shoebox"),
        "Added 4 Bolt → 🗂 Shoebox"
    );
}

#[test]
fn a_failed_search_says_whose_fault_it_is() {
    assert_eq!(search_error_text(QueryErrorKind::Grammar, "unknown key pow"), "unknown key pow");
    assert_eq!(
        search_error_text(QueryErrorKind::Cursor, "x"),
        "This page link is no longer valid."
    );
    assert_eq!(search_error_text(QueryErrorKind::Other, "down"), "Search failed: down");
    assert!(is_paged("abc", 1));
    assert!(is_paged("", 2));
    assert!(!is_paged("", 1));
}

#[test]
fn the_view_switch_keeps_the_query_cursor_and_page() {
    assert_eq!(
        view_switch_url("bolt", "", Some("3"), true),
        "/catalog?q=bolt&view=list&page=3"
    );
    assert_eq!(
        view_switch_url("bolt", "c1", Some("0"), false),
        "/catalog?q=bolt&cursor=c1"
    );
    assert_eq!(view_switch_url("", "", Some("x"), false), "/catalog");
}

#[test]
fn the_pager_arrows_stop_at_the_ends() {
    let (prev, next) = pager_arrows(1, true, false);
    assert_eq!(prev, PagerArrow { page: 0, inert: true });
    assert_eq!(next, PagerArrow { page: 2, inert: false });
    let (prev, next) = pager_arrows(5, false, false);
    assert_eq!(prev, PagerArrow { page: 4, inert: false });
    assert_eq!(next, PagerArrow { page: 6, inert: true });
    let (prev, next) = pager_arrows(5, true, true);
    assert!(prev.inert && next.inert);
    let (_, next) = pager_arrows(usize::MAX, true, false);
    assert_eq!(next.page, usize::MAX);
}

#[test]
fn an_add_without_a_destination_or_printing_is_refused() {
    assert_eq!(
        add_refusal(false, QuickAddKind::Want, true),
        Some(AddRefusal::NoDestination)
    );
    assert_eq!(
        add_refusal(true, QuickAddKind::Have, false),
        Some(AddRefusal::NoPrinting)
    );
    assert_eq!(add_refusal(true, QuickAddKind::Want, false), None);
    assert_eq!(
        refusal_message(AddRefusal::NoPrinting, "Bolt"),
        "Bolt has no printing to add — ⌥⏎ wants it instead."
    );
    assert_eq!(
        refusal_message(AddRefusal::NoDestination, "Bolt"),
        "Still loading this collection — try that again."
    );
}

#[test]
fn a_rail_edit_keeps_the_view_and_replaces_while_searching() {
    assert_eq!(
        rail_navigation("bolt", Some("list"), "bolt c:r"),
        ("/catalog?q=bolt%20c%3Ar&view=list".to_string(), true)
    );
    assert_eq!(
        rail_navigation("", None, "c:r"),
        ("/catalog?q=c%3Ar".to_string(), false)
    );
}

#[test]
fn the_error_note_offers_only_what_can_help() {
    assert_eq!(
        note_message(Failure::Session, "Couldn't load", "x"),
        "Your session has expired."
    );
    assert_eq!(
        note_message(Failure::Missing, "This collection", "collection"),
        "This collection — it may have been deleted."
    );
    assert_eq!(
        note_message(Failure::Transport, "Couldn't load", "down"),
        "Couldn't load: down"
    );
    assert_eq!(note_affordances(Failure::Transport, true), (true, false));
    assert_eq!(note_affordances(Failure::Request, true), (false, false));
    assert_eq!(note_affordances(Failure::Session, false), (false, true));
}

#[test]
fn the_vocabularies_render_as_their_classes() {
    assert_eq!(InputType::DatetimeLocal.as_str(), "datetime-local");
    assert_eq!(SheetDirection::Left.closed_class(), "-translate-x-full");
    assert_eq!(
        ButtonVariant::Link.classes(),
        "text-primary underline-offset-4 hover:underline"
    );
}
