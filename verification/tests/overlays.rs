use three_rings::command::{empty_arm, input_key, item_visible, CommandNav, EmptyArm, InputKey};
use three_rings::focus::{
    menu_step, menu_target, switch_key, switch_tabindex, trap_target, MenuStep, TrapFocus,
};
use three_rings::scroll_lock::{
    is_excluded_name, is_fixed_excluded_name, scrolls_on_its_own, style_restore, StyleRestore,
};
use three_rings::toasts::{ToastKind, ToastList, ToastOptions};

#[test]
fn a_query_filters_by_lower_cased_substring() {
    assert!(item_visible(true, "", "Shoebox"));
    assert!(item_visible(true, "BOX", "Shoebox"));
    assert!(!item_visible(true, "deck", "Shoebox"));
    assert!(item_visible(false, "deck", "Shoebox"));
}

#[test]
fn hovering_a_repeated_id_highlights_its_first_row() {
    let mut nav = CommandNav::new();
    nav.set_visible(vec![10, 11, 10, 11]);
    nav.next();
    nav.next();
    nav.next();
    nav.hover(11);
    assert_eq!(nav.highlighted(), 1);
}

#[test]
fn the_highlight_moves_and_clamps() {
    let mut nav = CommandNav::new();
    assert_eq!(nav.activate(), None);
    nav.set_visible(vec![10, 11, 12]);
    assert_eq!(nav.highlighted(), 0);
    nav.prev();
    assert_eq!(nav.highlighted(), 0);
    nav.next();
    nav.next();
    nav.next();
    assert_eq!(nav.highlighted(), 2);
    assert_eq!(nav.activate(), Some(12));
    assert!(nav.is_highlighted(12));
    nav.set_visible(vec![10]);
    assert_eq!(nav.highlighted(), 0);
    assert_eq!(nav.activate(), Some(10));
    nav.set_visible(vec![10, 11, 12]);
    nav.hover(11);
    assert_eq!(nav.highlighted(), 1);
    nav.hover(99);
    assert_eq!(nav.highlighted(), 1);
    nav.set_query();
    assert_eq!(nav.highlighted(), 0);
    assert_eq!(nav.visible_count(), 3);
}

#[test]
fn the_list_input_keys_and_the_empty_line() {
    assert_eq!(input_key(0, "ArrowDown", false), InputKey::Ignore);
    assert_eq!(input_key(2, "ArrowDown", false), InputKey::Next);
    assert_eq!(input_key(2, "ArrowUp", false), InputKey::Prev);
    assert_eq!(input_key(2, "Enter", false), InputKey::Activate);
    assert_eq!(input_key(2, "Enter", true), InputKey::StaleEnter);
    assert_eq!(empty_arm(true, true, true), EmptyArm::Failed);
    assert_eq!(empty_arm(false, true, true), EmptyArm::Loading);
    assert_eq!(empty_arm(false, false, true), EmptyArm::Hidden);
    assert_eq!(empty_arm(false, false, false), EmptyArm::Empty);
}

#[test]
fn tab_wraps_inside_a_dialog() {
    assert_eq!(trap_target(0, None, false), TrapFocus::Container);
    assert_eq!(trap_target(3, Some(2), false), TrapFocus::Element(0));
    assert_eq!(trap_target(3, Some(0), true), TrapFocus::Element(2));
    assert_eq!(trap_target(3, None, true), TrapFocus::Element(2));
    assert_eq!(trap_target(3, None, false), TrapFocus::Element(0));
    assert_eq!(trap_target(3, Some(1), false), TrapFocus::Native);
    assert_eq!(trap_target(3, Some(1), true), TrapFocus::Native);
}

#[test]
fn menu_focus_roves_and_wraps() {
    assert_eq!(menu_step("ArrowDown"), Some(MenuStep::Next));
    assert_eq!(menu_step("End"), Some(MenuStep::Last));
    assert_eq!(menu_step("x"), None);
    assert_eq!(menu_target(0, None, MenuStep::Next), None);
    assert_eq!(menu_target(3, None, MenuStep::Next), Some(0));
    assert_eq!(menu_target(3, None, MenuStep::Prev), Some(2));
    assert_eq!(menu_target(3, Some(2), MenuStep::Next), Some(0));
    assert_eq!(menu_target(3, Some(0), MenuStep::Prev), Some(2));
    assert_eq!(menu_target(3, Some(1), MenuStep::First), Some(0));
    assert_eq!(menu_target(3, Some(1), MenuStep::Last), Some(2));
}

#[test]
fn the_view_switch_arrows_pick_a_layout() {
    assert_eq!(switch_key("ArrowRight"), Some(true));
    assert_eq!(switch_key("ArrowDown"), Some(true));
    assert_eq!(switch_key("ArrowLeft"), Some(false));
    assert_eq!(switch_key("ArrowUp"), Some(false));
    assert_eq!(switch_key("Enter"), None);
    assert_eq!(switch_tabindex(true, true), 0);
    assert_eq!(switch_tabindex(true, false), -1);
}

#[test]
fn toasts_stack_and_dismiss_by_id() {
    let mut list: ToastList<u8> = ToastList::new();
    let a = list.show(ToastOptions::message("saved".into()).kind(ToastKind::Success));
    let b = list.show(ToastOptions::message("moved".into()).action("Undo".into(), 7u8));
    assert_eq!((a, b), (0, 1));
    assert_eq!(list.toasts().len(), 2);
    assert_eq!(list.toasts()[1].action.as_ref().map(|x| x.on_action), Some(7));
    list.dismiss(a);
    assert_eq!(list.toasts().len(), 1);
    assert_eq!(list.toasts()[0].message, "moved");
    list.dismiss(a);
    assert_eq!(list.toasts().len(), 1);
    assert_eq!(ToastKind::Error.classes(), "bg-destructive text-white");
    let o: ToastOptions<u8> = ToastOptions::message("x".into());
    assert_eq!(o.duration_ms, 5000);
}

#[test]
fn the_scroll_lock_skips_its_own_overlays() {
    assert!(is_excluded_name("CommandList"));
    assert!(!is_excluded_name("Sheet"));
    assert!(is_fixed_excluded_name("ContextMenuContent"));
    assert!(!is_fixed_excluded_name("ScrollArea"));
    assert!(scrolls_on_its_own("auto", "", 500, 200));
    assert!(scrolls_on_its_own("visible", "scroll", 500, 200));
    assert!(!scrolls_on_its_own("auto", "", 200, 200));
    assert!(!scrolls_on_its_own("hidden", "visible", 500, 200));
    assert_eq!(style_restore(""), StyleRestore::Remove);
    assert_eq!(style_restore("fixed"), StyleRestore::Assign);
}
