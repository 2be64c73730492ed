use three_rings::overlay_stack::{is_top, push, remove, OverlayStack};
use three_rings::scroll_lock::{is_locked, lock, perform_unlock_if, unlock, ScrollLock};

#[test]
fn the_topmost_overlay_owns_escape() {
    let mut s = OverlayStack::new();
    assert!(!is_top(&s, "sheet"));
    push(&mut s, "sheet");
    push(&mut s, "dialog");
    assert!(is_top(&s, "dialog"));
    assert!(!is_top(&s, "sheet"));
    remove(&mut s, "dialog");
    assert!(is_top(&s, "sheet"));
    push(&mut s, "sheet");
    remove(&mut s, "sheet");
    assert!(!is_top(&s, "sheet"));
}

#[test]
fn pushing_an_open_overlay_moves_it_to_the_top() {
    let mut s = OverlayStack::new();
    push(&mut s, "a");
    push(&mut s, "b");
    push(&mut s, "a");
    assert!(is_top(&s, "a"));
    remove(&mut s, "a");
    assert!(is_top(&s, "b"));
}

#[test]
fn only_the_first_lock_freezes_and_only_the_last_unlock_restores() {
    let mut l = ScrollLock::new();
    assert!(!is_locked(&l));
    assert!(lock(&mut l));
    assert!(!lock(&mut l));
    assert!(is_locked(&l));
    assert_eq!(unlock(&mut l), None);
    let g = unlock(&mut l).unwrap();
    assert!(perform_unlock_if(&mut l, g));
    assert!(!is_locked(&l));
    assert_eq!(unlock(&mut l), None);
}

#[test]
fn reopening_during_the_exit_cancels_the_pending_restore() {
    let mut l = ScrollLock::new();
    lock(&mut l);
    let g = unlock(&mut l).unwrap();
    assert!(!lock(&mut l));
    assert!(!perform_unlock_if(&mut l, g));
    assert!(is_locked(&l));
}
