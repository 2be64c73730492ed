use three_rings::context_menu::ContextMenuHandle;

#[test]
fn an_open_request_opens_once_its_macrotask_runs() {
    let mut h = ContextMenuHandle::new();
    let stamp = h.open_at();
    assert!(!h.open, "nothing shows until the gesture has finished");
    h.deferred_open(stamp);
    assert!(h.open);
}

#[test]
fn a_close_before_the_deferred_open_keeps_the_menu_shut() {
    let mut h = ContextMenuHandle::new();
    let stamp = h.open_at();
    h.close();
    h.deferred_open(stamp);
    assert!(!h.open);
}

#[test]
fn a_second_open_request_makes_the_first_stale() {
    let mut h = ContextMenuHandle::new();
    let first = h.open_at();
    let second = h.open_at();
    h.deferred_open(first);
    assert!(!h.open);
    h.deferred_open(second);
    assert!(h.open);
}

#[test]
fn the_generation_wraps_instead_of_overflowing() {
    let mut h = ContextMenuHandle { open: false, generation: u32::MAX };
    let stamp = h.open_at();
    assert_eq!(stamp, 0);
    h.close();
    assert_eq!(h.generation, 1);
    h.deferred_open(stamp);
    assert!(!h.open);
}
