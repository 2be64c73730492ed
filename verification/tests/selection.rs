use three_rings::selection::{
    count_label, retain_untokened, toggle_in, Board, SelectedCard, SelectionKey, SelectionState,
};

fn id(n: u128) -> u128 {
    n
}

fn card(key: SelectionKey, name: &str) -> SelectedCard {
    SelectedCard {
        key,
        oracle_id: match key {
            SelectionKey::Card { oracle_id } => oracle_id,
            SelectionKey::Held { printing_id, .. } => printing_id,
        },
        name: name.to_string(),
        image_uri: None,
    }
}

fn names(items: &[SelectedCard]) -> Vec<&str> {
    items.iter().map(|c| c.name.as_str()).collect()
}

#[test]
fn count_label_is_singular_at_one() {
    assert_eq!(count_label(0), "0 cards");
    assert_eq!(count_label(1), "1 card");
    assert_eq!(count_label(2), "2 cards");
}

#[test]
fn tokens_separate_the_two_grains() {
    let held = SelectionKey::Held {
        collection_id: id(1),
        printing_id: id(2),
        board: Board::Side,
    };
    let by_card = SelectionKey::Card { oracle_id: id(1) };
    assert!(held.token().starts_with("held:"));
    assert!(held.token().ends_with(":side"));
    assert!(by_card.token().starts_with("card:"));
    assert_ne!(held.token(), by_card.token());
}

#[test]
fn board_is_part_of_the_key() {
    let main = SelectionKey::Held {
        collection_id: id(1),
        printing_id: id(2),
        board: Board::Main,
    };
    let side = SelectionKey::Held {
        collection_id: id(1),
        printing_id: id(2),
        board: Board::Side,
    };
    assert_ne!(main, side);
    assert_ne!(main.token(), side.token());
}

#[test]
fn a_my_row_and_a_collection_row_are_different_entries() {
    let anywhere = SelectionKey::Card { oracle_id: id(7) };
    let here = SelectionKey::Held {
        collection_id: id(1),
        printing_id: id(7),
        board: Board::Main,
    };
    assert_ne!(anywhere, here);
}

#[test]
fn toggle_adds_removes_and_preserves_order() {
    let a = card(SelectionKey::Card { oracle_id: id(1) }, "Ancestral");
    let b = card(SelectionKey::Card { oracle_id: id(2) }, "Bolt");
    let c = card(SelectionKey::Card { oracle_id: id(3) }, "Counterspell");

    let mut items = Vec::new();
    toggle_in(&mut items, a.clone());
    toggle_in(&mut items, b.clone());
    toggle_in(&mut items, c.clone());
    assert_eq!(names(&items), vec!["Ancestral", "Bolt", "Counterspell"]);

    toggle_in(&mut items, b.clone());
    assert_eq!(names(&items), vec!["Ancestral", "Counterspell"]);

    toggle_in(&mut items, b);
    assert_eq!(names(&items), vec!["Ancestral", "Counterspell", "Bolt"]);
}

#[test]
fn the_same_card_from_two_surfaces_is_two_entries() {
    let mut items = Vec::new();
    toggle_in(
        &mut items,
        card(SelectionKey::Card { oracle_id: id(7) }, "Bolt"),
    );
    toggle_in(
        &mut items,
        card(
            SelectionKey::Held {
                collection_id: id(1),
                printing_id: id(7),
                board: Board::Main,
            },
            "Bolt",
        ),
    );
    assert_eq!(items.len(), 2);
}

#[test]
fn a_move_drops_only_what_it_moved() {
    let moved = card(SelectionKey::Card { oracle_id: id(1) }, "Ancestral");
    let refused = card(SelectionKey::Card { oracle_id: id(2) }, "Bolt");
    let mut items = vec![moved.clone(), refused.clone()];

    retain_untokened(&mut items, &[moved.key.token()]);
    assert_eq!(names(&items), vec!["Bolt"]);

    retain_untokened(&mut items, &[moved.key.token()]);
    assert_eq!(names(&items), vec!["Bolt"]);
}

#[test]
fn removal_is_by_grain_not_by_card() {
    let main = card(
        SelectionKey::Held {
            collection_id: id(1),
            printing_id: id(2),
            board: Board::Main,
        },
        "Bolt",
    );
    let side = card(
        SelectionKey::Held {
            collection_id: id(1),
            printing_id: id(2),
            board: Board::Side,
        },
        "Bolt",
    );
    let mut items = vec![main.clone(), side.clone()];
    retain_untokened(&mut items, &[main.key.token()]);
    assert_eq!(items, vec![side]);
}

#[test]
fn a_token_spells_out_its_ids() {
    let k = SelectionKey::Card {
        oracle_id: 0x67e55044_10b1_426f_9247_bb680e5fe0c8,
    };
    assert_eq!(k.token(), "card:67e55044-10b1-426f-9247-bb680e5fe0c8");
    let h = SelectionKey::Held {
        collection_id: 1,
        printing_id: 2,
        board: Board::Main,
    };
    assert_eq!(
        h.token(),
        "held:00000000-0000-0000-0000-000000000001:00000000-0000-0000-0000-000000000002:main"
    );
}

#[test]
fn the_selection_state_toggles_clears_and_removes() {
    let mut s = SelectionState::new();
    assert!(s.is_empty());
    let a = card(SelectionKey::Card { oracle_id: id(1) }, "A");
    let b = card(SelectionKey::Card { oracle_id: id(2) }, "B");
    s.toggle(a.clone());
    s.toggle(b.clone());
    assert_eq!(s.len(), 2);
    assert!(s.selected(a.key));
    s.toggle(a.clone());
    assert!(!s.selected(a.key));
    assert_eq!(names(s.items()), vec!["B"]);
    s.remove_tokens(&[b.key.token()]);
    assert!(s.is_empty());
    s.toggle(a);
    s.clear();
    assert_eq!(s.len(), 0);
}

#[test]
fn toggling_twice_restores_the_selection() {
    let a = card(SelectionKey::Card { oracle_id: id(1) }, "A");
    let b = card(SelectionKey::Card { oracle_id: id(2) }, "B");
    let mut items = vec![a];
    let before = items.clone();
    toggle_in(&mut items, b.clone());
    toggle_in(&mut items, b);
    assert_eq!(items, before);
}
