use three_rings::collections::{CollectionKind, CollectionSummary};
use three_rings::cookies::{
    cookie_theme_is_dark, cookie_value, destination_cookie, destination_in_cookies,
    stored_destination_id, theme_cookie, theme_in_cookies,
};
use three_rings::destination::{
    initial_destination, picker_order, reconcile, Destination, DestinationChoice,
};

fn new_id() -> u128 {
    uuid::Uuid::new_v4().as_u128()
}

fn collection(name: &str, is_inbox: bool) -> CollectionSummary {
    CollectionSummary {
        id: new_id(),
        parent_id: None,
        kind: CollectionKind::Binder,
        name: name.to_string(),
        is_inbox,
    }
}

fn dest(c: &CollectionSummary) -> Destination {
    Destination {
        id: c.id,
        name: c.name.clone(),
        is_inbox: c.is_inbox,
    }
}

#[test]
fn remembered_destination_wins_when_it_still_exists() {
    let list = vec![collection("Inbox", true), collection("Shoebox", false)];
    let remembered = list[1].id;
    let chosen = initial_destination(&list, Some(remembered)).unwrap();
    assert_eq!(chosen.id, remembered);
    assert_eq!(chosen.name, "Shoebox");
}

#[test]
fn deleted_remembered_collection_falls_back_to_inbox() {
    let list = vec![collection("Inbox", true), collection("Shoebox", false)];
    let chosen = initial_destination(&list, Some(new_id())).unwrap();
    assert!(chosen.is_inbox, "a stale cookie must not strand the picker");
}

#[test]
fn without_an_inbox_the_first_collection_is_used() {
    let list = vec![collection("Zebra", false), collection("Alpha", false)];
    let chosen = initial_destination(&list, None).unwrap();
    assert_eq!(chosen.name, "Zebra", "list order, not name order");
}

#[test]
fn no_collections_means_no_destination() {
    assert!(initial_destination(&[], None).is_none());
}

#[test]
fn inbox_pins_to_the_top_and_the_rest_sort_by_name() {
    let list = vec![
        collection("zebra", false),
        collection("Alpha", false),
        collection("Inbox", true),
    ];
    let names: Vec<_> = picker_order(list).into_iter().map(|c| c.name).collect();
    assert_eq!(names, vec!["Inbox", "Alpha", "zebra"]);
}

#[test]
fn reconcile_picks_up_a_rename_without_losing_the_choice() {
    let mut list = vec![collection("Inbox", true), collection("Shoebox", false)];
    let chosen = dest(&list[1]);
    list[1].name = "Deck box".into();
    let after = reconcile(&list, Some(chosen.clone()), None).unwrap();
    assert_eq!(after.id, chosen.id, "the choice itself must survive");
    assert_eq!(after.name, "Deck box", "but its label must be live");
}

#[test]
fn reconcile_falls_back_when_the_chosen_collection_is_deleted() {
    let list = [collection("Inbox", true), collection("Shoebox", false)];
    let chosen = dest(&list[1]);
    let remaining = [list[0].clone()];
    let after = reconcile(&remaining, Some(chosen), None).unwrap();
    assert!(after.is_inbox);
}

#[test]
fn reconcile_leaves_a_live_choice_alone() {
    let list = vec![collection("Inbox", true), collection("Shoebox", false)];
    let chosen = dest(&list[1]);
    let after = reconcile(&list, Some(chosen.clone()), Some(list[0].id)).unwrap();
    assert_eq!(after, chosen);
}

#[test]
fn label_marks_the_inbox_distinctly() {
    let inbox = Destination {
        id: new_id(),
        name: "Inbox".into(),
        is_inbox: true,
    };
    let binder = Destination {
        id: new_id(),
        name: "Shoebox".into(),
        is_inbox: false,
    };
    assert_eq!(inbox.label(), "📥 Inbox");
    assert_eq!(binder.label(), "🗂 Shoebox");
}

#[test]
fn equal_names_keep_their_list_order_in_the_picker() {
    let a = collection("Box", false);
    let b = collection("box", false);
    let (ida, idb) = (a.id, b.id);
    let out = picker_order(vec![a, b]);
    assert_eq!(out[0].id, ida);
    assert_eq!(out[1].id, idb);
}

#[test]
fn a_plain_choice_has_no_hint() {
    let d = Destination {
        id: 7,
        name: "Shoebox".into(),
        is_inbox: false,
    };
    let c = DestinationChoice::plain(d.clone());
    assert_eq!(c.dest, d);
    assert_eq!(c.hint, None);
}

#[test]
fn a_remembered_destination_reads_back_from_its_cookie() {
    let id = new_id();
    let cookie = destination_cookie(id);
    let want = format!(
        "tr_dest={}; Path=/; Max-Age=31536000; SameSite=Lax",
        uuid::Uuid::from_u128(id)
    );
    assert_eq!(cookie, want);
    assert_eq!(destination_in_cookies(&cookie), Some(id));
}

#[test]
fn the_destination_cookie_is_found_among_others() {
    let id = uuid::Uuid::parse_str("67e55044-10b1-426f-9247-bb680e5fe0c8").unwrap();
    let header = format!("tr_theme=light; tr_dest={id}; other=1");
    assert_eq!(destination_in_cookies(&header), Some(id.as_u128()));
    assert_eq!(destination_in_cookies("tr_dest=not-an-id"), None);
    assert_eq!(destination_in_cookies("tr_destx=1; a=b"), None);
    assert_eq!(
        stored_destination_id(&vec!["a=b".to_string(), header.clone()]),
        Some(id.as_u128())
    );
    assert_eq!(stored_destination_id(&vec![]), None);
}

#[test]
fn the_theme_is_dark_unless_the_cookie_says_light() {
    assert_eq!(theme_in_cookies("tr_theme=light"), Some(false));
    assert_eq!(theme_in_cookies(" tr_theme=dark ; x=y"), Some(true));
    assert_eq!(theme_in_cookies("tr_theme=anything"), Some(true));
    assert_eq!(theme_in_cookies("x=y"), None);
    assert!(cookie_theme_is_dark(&vec![]));
    assert!(!cookie_theme_is_dark(&vec!["a=b".into(), "tr_theme=light".into()]));
    assert_eq!(
        theme_cookie(false),
        "tr_theme=light; Path=/; Max-Age=31536000; SameSite=Lax"
    );
    assert_eq!(theme_in_cookies(&theme_cookie(true)), Some(true));
    assert_eq!(theme_in_cookies(&theme_cookie(false)), Some(false));
}

#[test]
fn the_first_pair_holding_a_name_wins() {
    let v = cookie_value("a=1; a=2", "a").unwrap();
    assert_eq!(v, vec!['1']);
    assert_eq!(cookie_value("a", "a"), None);
}
