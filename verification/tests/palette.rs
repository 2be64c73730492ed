use three_rings::collections::{AssembledTree, CollectionKind, CollectionSummary, TreeNode};
use three_rings::palette::{
    at_rest, is_palette_chord, parse_recents, place_index, place_key_for_path, push_recent,
    ranked, score, serialize_recents, PaletteCommand, Place, PlaceKey, RowSet,
};

fn new_id() -> u128 {
    uuid::Uuid::new_v4().as_u128()
}

fn uuid_string(id: u128) -> String {
    uuid::Uuid::from_u128(id).to_string()
}

// ------------------------------------------------------------- chord --

#[test]
fn the_chord_is_cmd_k_on_mac_and_ctrl_k_elsewhere() {
    assert!(is_palette_chord("k", true, false, true));
    assert!(is_palette_chord("k", false, true, false));
    assert!(!is_palette_chord("k", false, true, true));
    assert!(!is_palette_chord("k", true, false, false));
    assert!(!is_palette_chord("k", false, false, true));
    assert!(is_palette_chord("K", true, false, true));
}

#[test]
fn both_modifiers_together_are_someone_elses_chord() {
    assert!(!is_palette_chord("k", true, true, true));
    assert!(!is_palette_chord("k", true, true, false));
}

#[test]
fn slash_is_never_the_palette() {
    for (meta, ctrl, mac) in [
        (false, false, true),
        (false, false, false),
        (true, false, true),
        (false, true, false),
    ] {
        assert!(!is_palette_chord("/", meta, ctrl, mac));
    }
}

// ------------------------------------------------------------ scoring --

#[test]
fn a_word_start_outranks_a_mid_word_match() {
    let boxy = score("Bulk Box", "bo").unwrap();
    let inbox = score("Inbox", "bo").unwrap();
    assert!(boxy > inbox, "{boxy} should beat {inbox}");
}

#[test]
fn a_prefix_outranks_everything_else() {
    let prefix = score("Depth Box", "de").unwrap();
    let inner = score("Trade Binder", "de").unwrap();
    assert!(prefix > inner, "{prefix} should beat {inner}");
}

#[test]
fn matching_jumps_word_boundaries_but_not_mid_word_gaps() {
    assert!(score("Commander Deck", "cd").is_some());
    assert!(score("Trade Binder", "trabin").is_some());
    assert!(score("Depth Drawer", "dd").is_some());
    assert!(
        score("Undo last move", "de").is_none(),
        "a plain subsequence match would accept this"
    );
}

#[test]
fn whitespace_in_the_query_is_ignored() {
    assert_eq!(
        score("Trade Binder", "tra bin"),
        score("Trade Binder", "trabin")
    );
}

#[test]
fn an_empty_query_matches_everything_at_zero() {
    assert_eq!(score("Anything", ""), Some(0));
    assert_eq!(score("Anything", "   "), Some(0));
}

#[test]
fn a_match_needs_the_letters_in_order() {
    assert_eq!(score("Trade Binder", "bt"), None);
    assert!(score("Trade Binder", "tb").is_some());
}

#[test]
fn a_longer_needle_than_haystack_cannot_match() {
    assert!(score("Ab", "abc").is_none());
}

#[test]
fn matching_is_case_insensitive_both_ways() {
    assert!(score("SHOEBOX", "shoe").is_some());
    assert!(score("shoebox", "SHOE").is_some());
}

// ------------------------------------------------------------ ranking --

fn place(name: &str) -> Place {
    Place {
        key: PlaceKey::Collection(new_id()),
        name: name.into(),
        meta: String::new(),
        href: format!("/my/collections/{name}"),
        icon: "🗂",
        default_row: false,
    }
}

fn names(places: &[Place]) -> Vec<&str> {
    places.iter().map(|p| p.name.as_str()).collect()
}

#[test]
fn the_best_match_ranks_first() {
    let index = [
        place("Shoebox"),
        place("Trade duplicates"),
        place("Trade Binder"),
    ];
    let ranked = ranked(&index, "tra");
    assert_eq!(names(&ranked.places), ["Trade Binder", "Trade duplicates"]);
}

#[test]
fn ranking_reorders_as_the_query_grows() {
    let index = [place("Shoebox"), place("Depth Box")];
    assert_eq!(
        names(&ranked(&index, "e").places),
        ["Shoebox", "Depth Box"],
        "`e` is mid-word in both, so the shorter name leads"
    );
    assert_eq!(
        names(&ranked(&index, "eb").places),
        ["Depth Box", "Shoebox"],
        "`eb` jumps a word boundary in Depth Box"
    );
}

#[test]
fn commands_rank_too_and_keep_registry_order_on_a_tie() {
    let ranked = ranked(&[], "new");
    assert_eq!(
        ranked.commands,
        vec![PaletteCommand::NewBinder, PaletteCommand::NewDeck],
        "both are prefix matches; the registry order breaks the tie"
    );
    assert!(ranked.places.is_empty(), "the group must drop out entirely");
}

#[test]
fn a_command_that_outranks_every_place_leads() {
    let index = [place("Trade Binder"), place("Trade duplicates")];
    assert!(!ranked(&index, "tra").commands_first);
    let index = [place("zz-e2e-palette-undo-1")];
    let r = ranked(&index, "undo");
    assert_eq!(r.commands, vec![PaletteCommand::UndoLastMove]);
    assert!(
        r.commands_first,
        "the pre-selected row is the first one drawn, so the better match's group has to lead"
    );
}

#[test]
fn a_group_with_nothing_to_compare_against_never_reorders() {
    assert!(!ranked(&[], "new deck").commands_first);
    assert!(!ranked(&[place("Shoebox")], "shoebox").commands_first);
}

#[test]
fn a_query_matching_nothing_ranks_nothing() {
    let ranked = ranked(&[place("Shoebox")], "zzz");
    assert!(ranked.places.is_empty() && ranked.commands.is_empty());
}

// ------------------------------------------------------------ row set --

fn set(label: &'static str, places: Vec<Place>, commands: Vec<PaletteCommand>) -> RowSet {
    RowSet {
        places_label: label,
        places,
        commands,
        commands_first: false,
    }
}

#[test]
fn the_row_set_key_changes_when_the_order_does() {
    let a = place("Shoebox");
    let b = place("Depth Box");
    let forward = set("Collections", vec![a.clone(), b.clone()], vec![]);
    let reversed = set("Collections", vec![b, a], vec![]);
    assert_ne!(forward.key(), reversed.key());
}

#[test]
fn the_row_set_key_is_stable_for_an_identical_list() {
    let places = vec![place("Shoebox")];
    let commands = vec![PaletteCommand::NewDeck];
    assert_eq!(
        set("Recent", places.clone(), commands.clone()).key(),
        set("Recent", places, commands).key(),
        "an unchanged list must not churn the DOM every read"
    );
}

#[test]
fn the_row_set_key_notices_a_group_swap() {
    let places = vec![place("Shoebox")];
    let commands = vec![PaletteCommand::UndoLastMove];
    let mut swapped = set("Collections", places.clone(), commands.clone());
    swapped.commands_first = true;
    assert_ne!(set("Collections", places, commands).key(), swapped.key());
}

#[test]
fn the_row_set_key_notices_a_rename_a_label_change_and_a_command_change() {
    let base = set(
        "Recent",
        vec![place("Shoebox")],
        vec![PaletteCommand::NewDeck],
    );
    let mut renamed_place = base.places[0].clone();
    renamed_place.name = "Deck box".into();
    assert_ne!(
        base.key(),
        set("Recent", vec![renamed_place], vec![PaletteCommand::NewDeck]).key()
    );
    assert_ne!(
        base.key(),
        set(
            "Collections",
            base.places.clone(),
            vec![PaletteCommand::NewDeck]
        )
        .key()
    );
    assert_ne!(
        base.key(),
        set(
            "Recent",
            base.places.clone(),
            vec![PaletteCommand::NewBinder]
        )
        .key()
    );
}

#[test]
fn the_command_registry_is_exactly_three_and_excludes_sign_out() {
    assert_eq!(PaletteCommand::ALL.len(), 3);
    let labels: Vec<_> = PaletteCommand::ALL.iter().map(|c| c.label()).collect();
    assert_eq!(labels, ["New binder…", "New deck…", "Undo last move"]);
    assert!(
        !labels.contains(&"Sign out"),
        "considered and dropped (design/command-palette.md)"
    );
}

// -------------------------------------------------------------- index --

fn node(id: u128, parent: Option<u128>, name: &str, is_inbox: bool, children: Vec<TreeNode>) -> TreeNode {
    TreeNode {
        summary: CollectionSummary {
            id,
            parent_id: parent,
            kind: CollectionKind::Binder,
            name: name.into(),
            is_inbox,
        },
        children,
    }
}

/// The seeded shape: Inbox, Trade Binder, Shoebox > Rares (Inbox pinned first).
fn fixture() -> AssembledTree {
    AssembledTree {
        roots: vec![
            node(4, None, "Inbox", true, vec![]),
            node(1, None, "Trade Binder", false, vec![]),
            node(2, None, "Shoebox", false, vec![node(3, Some(2), "Rares", false, vec![])]),
        ],
    }
}

#[test]
fn the_index_flattens_the_tree_between_the_system_places() {
    let index = place_index(Some(&fixture()));
    assert_eq!(
        names(&index),
        [
            "All cards",
            "Inbox",
            "Trade Binder",
            "Shoebox",
            "Rares",
            "Shopping list",
            "Go to Catalog",
            "Go to My cards",
        ]
    );
}

#[test]
fn a_nested_collection_carries_its_parent_path() {
    let index = place_index(Some(&fixture()));
    let rares = index.iter().find(|p| p.name == "Rares").unwrap();
    assert_eq!(rares.meta, "Shoebox", "the wireframe's `Rares — Shoebox`");
    let trade = index.iter().find(|p| p.name == "Trade Binder").unwrap();
    assert_eq!(trade.meta, "", "a root has no path to show");
}

#[test]
fn deep_nesting_shows_the_whole_path() {
    let tree = AssembledTree {
        roots: vec![node(
            1,
            None,
            "Depth Box",
            false,
            vec![node(
                2,
                Some(1),
                "Depth Shelf",
                false,
                vec![node(3, Some(2), "Depth Drawer", false, vec![])],
            )],
        )],
    };
    let index = place_index(Some(&tree));
    let drawer = index.iter().find(|p| p.name == "Depth Drawer").unwrap();
    assert_eq!(drawer.meta, "Depth Box / Depth Shelf");
}

#[test]
fn the_inbox_appears_once_even_though_it_is_a_system_place() {
    let index = place_index(Some(&fixture()));
    assert_eq!(
        index.iter().filter(|p| p.name == "Inbox").count(),
        1,
        "it is a tree row; adding it as a system place too would double it"
    );
}

#[test]
fn without_a_tree_the_system_places_and_mode_jumps_still_exist() {
    let index = place_index(None);
    assert_eq!(
        names(&index),
        [
            "All cards",
            "Shopping list",
            "Go to Catalog",
            "Go to My cards"
        ]
    );
}

// ---------------------------------------------------------- the paths --

#[test]
fn pathnames_map_onto_place_keys() {
    assert_eq!(place_key_for_path("/my"), Some(PlaceKey::AllCards));
    assert_eq!(place_key_for_path("/my/"), Some(PlaceKey::AllCards));
    assert_eq!(place_key_for_path("/my/shopping"), Some(PlaceKey::Shopping));
    let id = new_id();
    assert_eq!(
        place_key_for_path(&format!("/my/collections/{}", uuid_string(id))),
        Some(PlaceKey::Collection(id))
    );
    assert_eq!(
        place_key_for_path(&format!("/my/collections/{}/needs", uuid_string(id))),
        Some(PlaceKey::Collection(id))
    );
}

#[test]
fn non_places_are_not_recorded() {
    for path in [
        "/catalog",
        "/",
        "/login",
        "/cards/abc",
        "/my/collections/nope",
    ] {
        assert_eq!(place_key_for_path(path), None, "{path}");
    }
}

// -------------------------------------------------------- recent ring --

#[test]
fn the_ring_is_most_recent_first_deduplicated_and_capped() {
    let a = PlaceKey::Collection(1);
    let b = PlaceKey::Collection(2);
    let ring = push_recent(&[], a, 3);
    let ring = push_recent(&ring, b, 3);
    assert_eq!(ring, vec![b, a]);
    let ring = push_recent(&ring, a, 3);
    assert_eq!(ring, vec![a, b]);
    let ring = push_recent(&ring, PlaceKey::Shopping, 2);
    assert_eq!(ring, vec![PlaceKey::Shopping, a], "capped at 2");
}

#[test]
fn the_ring_round_trips_through_storage() {
    let ring = vec![
        PlaceKey::Collection(7),
        PlaceKey::AllCards,
        PlaceKey::Shopping,
        PlaceKey::Catalog,
        PlaceKey::MyCards,
    ];
    assert_eq!(parse_recents(&serialize_recents(&ring)), ring);
}

#[test]
fn an_empty_ring_and_a_fresh_id_round_trip_too() {
    assert_eq!(serialize_recents(&[]), "");
    assert_eq!(parse_recents(&serialize_recents(&[])), vec![]);
    let id = new_id();
    let ring = vec![PlaceKey::Collection(id), PlaceKey::MyCards];
    let stored = serialize_recents(&ring);
    assert_eq!(stored, format!("{},my", uuid_string(id)));
    assert_eq!(parse_recents(&stored), ring);
}

#[test]
fn pushing_never_repeats_a_key_and_a_zero_cap_still_keeps_one() {
    let a = PlaceKey::Collection(1);
    let ring = vec![PlaceKey::Catalog, a, PlaceKey::Shopping];
    assert_eq!(push_recent(&ring, a, 10), vec![a, PlaceKey::Catalog, PlaceKey::Shopping]);
    assert_eq!(push_recent(&ring, a, 0), vec![a]);
}

#[test]
fn a_corrupt_stored_ring_degrades_instead_of_failing() {
    assert_eq!(parse_recents(""), vec![]);
    assert_eq!(
        parse_recents("all,,not-a-uuid, shopping "),
        vec![PlaceKey::AllCards, PlaceKey::Shopping],
        "unparseable tokens drop; the rest survive"
    );
}

// ------------------------------------------------------------- at rest --

#[test]
fn at_rest_shows_the_ring_most_recent_first_without_the_current_place() {
    let index = place_index(Some(&fixture()));
    let trade = index.iter().find(|p| p.name == "Trade Binder").unwrap().key;
    let rares = index.iter().find(|p| p.name == "Rares").unwrap().key;
    let rest = at_rest(&index, &[rares, trade, PlaceKey::AllCards], Some(rares), 5);
    assert_eq!(rest.label, "Recent");
    assert_eq!(
        names(&rest.places),
        ["Trade Binder", "All cards"],
        "⌘K ⏎ must bounce to the last collection, not reload this one"
    );
}

#[test]
fn at_rest_drops_a_collection_that_no_longer_exists() {
    let index = place_index(Some(&fixture()));
    let gone = PlaceKey::Collection(new_id());
    let rest = at_rest(&index, &[gone, PlaceKey::Shopping], None, 5);
    assert_eq!(
        names(&rest.places),
        ["Shopping list"],
        "a deleted collection must not offer a row every ⏎ would 404 on"
    );
}

#[test]
fn at_rest_falls_back_to_the_system_places_on_a_cold_start() {
    let index = place_index(Some(&fixture()));
    let rest = at_rest(&index, &[], None, 5);
    assert_eq!(rest.label, "Places", "nothing visited is not 'recent'");
    assert_eq!(
        names(&rest.places),
        ["All cards", "Inbox", "Shopping list"],
        "so the pre-selected row is a place, never `New binder…`"
    );
}

#[test]
fn at_rest_honors_the_cap() {
    let index = place_index(Some(&fixture()));
    let keys: Vec<PlaceKey> = index.iter().take(4).map(|p| p.key).collect();
    assert_eq!(at_rest(&index, &keys, None, 2).places.len(), 2);
}

#[test]
fn a_ring_holding_only_the_current_place_falls_back() {
    let index = place_index(Some(&fixture()));
    let rest = at_rest(&index, &[PlaceKey::AllCards], Some(PlaceKey::AllCards), 5);
    assert_eq!(rest.label, "Places");
}

// ------------------------------------------------------------- additions --

#[test]
fn the_score_of_a_prefix_is_exact() {
    // "tra" on "Trade Binder": 1 + 10 (start), then two contiguous 1 + 6.
    assert_eq!(score("Trade Binder", "tra"), Some(25));
    // "b" alone at a word start: 1 + 8.
    assert_eq!(score("Trade Binder", "b"), Some(9));
    // Mid-word single character: 1.
    assert_eq!(score("Inbox", "b"), Some(1));
}

#[test]
fn collection_rows_carry_their_href_and_icon() {
    let index = place_index(Some(&fixture()));
    let inbox = index.iter().find(|p| p.name == "Inbox").unwrap();
    assert_eq!(inbox.href, format!("/my/collections/{}", uuid_string(4)));
    assert_eq!(inbox.icon, "📥");
    assert!(inbox.default_row);
    let shoebox = index.iter().find(|p| p.name == "Shoebox").unwrap();
    assert_eq!(shoebox.icon, "🗂");
    assert!(!shoebox.default_row);
}

#[test]
fn place_key_tokens_are_slugs_or_hyphenated_ids() {
    assert_eq!(PlaceKey::AllCards.token(), "all");
    assert_eq!(PlaceKey::MyCards.token(), "my");
    assert_eq!(
        PlaceKey::Collection(1).token(),
        "00000000-0000-0000-0000-000000000001"
    );
    assert_eq!(PlaceKey::parse("catalog"), Some(PlaceKey::Catalog));
    assert_eq!(
        PlaceKey::parse("{00000000-0000-0000-0000-00000000000A}"),
        Some(PlaceKey::Collection(10))
    );
    assert_eq!(PlaceKey::parse("All"), None);
}

#[test]
fn ascii_case_changes_on_either_side_score_alike() {
    assert!(score("SHOEBOX", "shoe").is_some());
    assert_eq!(score("SHOEBOX", "shoe"), score("shoebox", "SHOE"));
    assert_eq!(score("Trade Binder", "TRABIN"), score("trade binder", "trabin"));
}

#[test]
fn non_ascii_whitespace_in_the_query_is_ignored_too() {
    assert_eq!(score("Trade Binder", "tra\u{3000}bin"), score("Trade Binder", "trabin"));
    assert_eq!(score("Trade Binder", "tra\u{a0}bin"), score("Trade Binder", "trabin"));
    assert_eq!(score("Anything", "\u{2003}\u{85}"), Some(0));
}
