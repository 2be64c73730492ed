use three_rings::catalog::{last_good_after, search_args};

#[test]
fn a_cursor_wins_over_a_page_number() {
    assert_eq!(search_args("abc", 4), (Some("abc".to_string()), None));
}

#[test]
fn a_page_above_one_is_an_explicit_jump_and_page_one_sends_nothing() {
    assert_eq!(search_args("", 4), (None, Some(4)));
    assert_eq!(search_args("", 1), (None, None));
}

#[test]
fn only_an_unambiguous_first_page_is_kept() {
    let kept = last_good_after::<Vec<u32>, ()>(None, "t:elf".to_string(), "", 1, Ok(vec![1, 2]));
    assert_eq!(kept, Some(("t:elf".to_string(), vec![1, 2])));
    let paged = last_good_after::<Vec<u32>, ()>(kept.clone(), "t:elf".to_string(), "", 2, Ok(vec![3]));
    assert_eq!(paged, None, "paging away forgets the kept page");
    let cursored =
        last_good_after::<Vec<u32>, ()>(kept.clone(), "t:elf".to_string(), "c1", 1, Ok(vec![3]));
    assert_eq!(cursored, None);
}

#[test]
fn an_error_keeps_whatever_was_there() {
    let kept = Some(("t:elf".to_string(), vec![1u32]));
    let after = last_good_after(kept.clone(), "t:el(".to_string(), "", 1, Err("grammar"));
    assert_eq!(after, kept);
}
