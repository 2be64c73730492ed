use three_rings::rail::{
    cmp_from_str, cmp_to_str, color_term, field_of, force_quote, name_terms, name_token, read,
    reset, rewrite, Cmp, Field, Pred, RailState, Term, Token,
};

fn tok(raw: &str, pred: Pred) -> Token {
    Token {
        raw: raw.to_string(),
        term: Term {
            negated: false,
            pred,
        },
    }
}

fn neg(raw: &str, pred: Pred) -> Token {
    Token {
        raw: raw.to_string(),
        term: Term {
            negated: true,
            pred,
        },
    }
}

fn name(raw: &str, value: &str, bare: bool) -> Token {
    tok(
        raw,
        Pred::Name {
            value: value.to_string(),
            bare,
        },
    )
}

fn word(w: &str) -> Token {
    name(w, w, true)
}

fn strings(vals: &[&str]) -> Vec<String> {
    vals.iter().map(|v| v.to_string()).collect()
}

fn types(raw: &str, vals: &[&str]) -> Token {
    tok(raw, Pred::TypeLine(strings(vals)))
}

fn colors(raw: &str, cs: &[char]) -> Token {
    tok(raw, Pred::Colors(cs.to_vec()))
}

fn rarity(raw: &str, vals: &[&str]) -> Token {
    tok(raw, Pred::Rarity(strings(vals)))
}

fn mv(raw: &str, cmp: Cmp, n: f64) -> Token {
    tok(raw, Pred::ManaValue(cmp, n.to_bits()))
}

#[test]
fn reads_the_wireframe_query_into_widgets() {
    // "t:instant c:ur cmc<=2"
    let q = [
        types("t:instant", &["instant"]),
        colors("c:ur", &['U', 'R']),
        mv("cmc<=2", Cmp::Le, 2.0),
    ];
    let st = read(&q);
    assert_eq!(st.types, vec!["instant".to_string()]);
    assert_eq!(st.colors, vec!['U', 'R']);
    assert_eq!(st.mana_value, Some((Cmp::Le, 2.0f64.to_bits())));
    assert_eq!(st.count(Field::Type), 1);
    assert_eq!(st.count(Field::Color), 2);
    assert_eq!(st.count(Field::ManaValue), 1);
    assert_eq!(st.total(), 4);
}

#[test]
fn bare_words_are_the_name_box() {
    let q = [word("lightning"), word("bolt"), types("t:instant", &["instant"])];
    let st = read(&q);
    assert_eq!(st.name, "lightning bolt");
    assert_eq!(st.count(Field::Name), 1);
}

#[test]
fn rail_unrecognized_terms_survive_a_rail_edit_verbatim() {
    // id:wu -t:land o:"draw a card" c:u
    let q = [
        tok("id:wu", Pred::Identity(vec!['W', 'U'])),
        neg("-t:land", Pred::TypeLine(strings(&["land"]))),
        tok("o:\"draw a card\"", Pred::OracleText("draw a card".into())),
        colors("c:u", &['U']),
    ];
    let out = rewrite(&q, Field::Color, Some("c:ur".into()));
    assert_eq!(out, "id:wu -t:land o:\"draw a card\" c:ur");
}

#[test]
fn an_edit_replaces_in_place_rather_than_appending() {
    let q = [colors("c:u", &['U']), word("bolt"), rarity("r:rare", &["rare"])];
    let out = rewrite(&q, Field::Color, Some("c:ur".into()));
    assert_eq!(out, "c:ur bolt r:rare");
}

#[test]
fn clearing_a_facet_removes_its_term_entirely() {
    let q = [colors("c:ur", &['U', 'R']), word("bolt")];
    let out = rewrite(&q, Field::Color, None);
    assert_eq!(out, "bolt");
    assert_eq!(read(&[word("bolt")]).name, "bolt");
}

#[test]
fn a_facet_absent_from_the_query_appends() {
    let out = rewrite(&[word("bolt")], Field::Rarity, Some("r:rare".into()));
    assert_eq!(out, "bolt r:rare");
}

#[test]
fn only_the_first_term_of_a_field_is_owned() {
    let q = [colors("c:u", &['U']), colors("c:r", &['R'])];
    let st = read(&q);
    assert_eq!(st.colors, vec!['U']);
    assert_eq!(st.count(Field::Color), 1);
    let out = rewrite(&q, Field::Color, Some("c:w".into()));
    assert_eq!(out, "c:w c:r");
    let q = [
        types("t:instant", &["instant"]),
        types("type:land", &["land"]),
    ];
    let out = rewrite(&q, Field::Type, Some("t:sorcery".into()));
    assert_eq!(out, "t:sorcery type:land");
}

#[test]
fn the_name_run_is_owned_whole() {
    let q = [word("lightning"), word("bolt"), types("t:instant", &["instant"])];
    let out = rewrite(&q, Field::Name, Some("shock".into()));
    assert_eq!(out, "shock t:instant");
}

#[test]
fn colorless_counts_even_though_it_has_no_checkbox() {
    let q = [tok("c:colorless", Pred::Colorless)];
    let st = read(&q);
    assert!(st.colorless);
    assert!(st.colors.is_empty());
    assert_eq!(st.count(Field::Color), 1);
    assert_eq!(st.total(), 1);
    assert_eq!(rewrite(&q, Field::Color, Some("c:u".into())), "c:u");
    assert_eq!(reset(&[tok("c:colorless", Pred::Colorless), word("bolt")]), "");
}

#[test]
fn the_name_box_shows_a_value_it_can_write_back() {
    let q = [name("name:bolt", "bolt", true)];
    let st = read(&q);
    assert_eq!(st.name, "bolt");
    let back = rewrite(&q, Field::Name, name_terms(&st.name, Some(&[word("bolt")])));
    assert_eq!(back, "bolt");
    assert_eq!(read(&[word("bolt")]).name, "bolt");
}

#[test]
fn negated_terms_are_never_owned() {
    let q = [
        neg("-t:land", Pred::TypeLine(strings(&["land"]))),
        neg(
            "-bolt",
            Pred::Name {
                value: "bolt".into(),
                bare: true,
            },
        ),
    ];
    let st = read(&q);
    assert_eq!(st.types, Vec::<String>::new());
    assert_eq!(st.name, "");
    assert_eq!(st.total(), 0);
    let out = rewrite(&q[..1], Field::Type, Some("t:creature".into()));
    assert_eq!(out, "-t:land t:creature");
}

#[test]
fn multi_select_serializes_to_comma_or() {
    let out = rewrite(&[word("bolt")], Field::Type, Some("t:instant,sorcery".into()));
    assert_eq!(out, "bolt t:instant,sorcery");
    let q = [word("bolt"), types("t:instant,sorcery", &["instant", "sorcery"])];
    assert_eq!(read(&q).types, vec!["instant", "sorcery"]);
}

#[test]
fn the_name_box_cannot_smuggle_in_a_keyed_term() {
    let q = name_terms("t:instant", Some(&[types("t:instant", &["instant"])])).unwrap();
    assert_eq!(q, "\"t:instant\"");
    let back = [name("\"t:instant\"", "t:instant", false)];
    assert_eq!(read(&back).name, "\"t:instant\"");
    assert_eq!(read(&back).types, Vec::<String>::new());

    let negated = neg(
        "-bolt",
        Pred::Name {
            value: "bolt".into(),
            bare: true,
        },
    );
    let n = name_terms("-bolt", Some(&[negated])).unwrap();
    assert_eq!(n, "\"-bolt\"");
}

#[test]
fn the_name_box_round_trips_quoted_phrases() {
    let phrase = [name("\"fire // ice\"", "fire // ice", false)];
    let q = rewrite(&[], Field::Name, name_terms("\"fire // ice\"", Some(&phrase)));
    assert_eq!(q, "\"fire // ice\"");
    let st = read(&phrase);
    assert_eq!(st.name, "\"fire // ice\"");
    let again = rewrite(&phrase, Field::Name, name_terms(&st.name, Some(&phrase)));
    assert_eq!(again, q);
}

#[test]
fn reset_clears_the_filters_but_not_the_query() {
    // bolt c:ur t:instant r:rare mv<=2 s:mh3 o:draw -t:land id:wu
    let q = [
        word("bolt"),
        colors("c:ur", &['U', 'R']),
        types("t:instant", &["instant"]),
        rarity("r:rare", &["rare"]),
        mv("mv<=2", Cmp::Le, 2.0),
        tok("s:mh3", Pred::SetCodes(strings(&["mh3"]))),
        tok("o:draw", Pred::OracleText("draw".into())),
        neg("-t:land", Pred::TypeLine(strings(&["land"]))),
        tok("id:wu", Pred::Identity(vec!['W', 'U'])),
    ];
    let out = reset(&q);
    assert_eq!(out, "-t:land id:wu");
    assert_eq!(read(&q[7..]).total(), 0);
}

#[test]
fn set_codes_tolerate_mid_typing_commas() {
    let st = RailState {
        set: "mh3, ,lea,".into(),
        ..Default::default()
    };
    assert_eq!(st.set_codes(), vec!["mh3", "lea"]);
    assert_eq!(st.count(Field::SetCodes), 2);
    let term = format!("s:{}", st.set_codes().join(","));
    let q = rewrite(&[], Field::SetCodes, Some(term));
    assert_eq!(q, "s:mh3,lea");
}

#[test]
fn colors_concatenate_rather_than_comma_separating() {
    assert_eq!(color_term(&["u".into(), "r".into()]), Some("c:ur".into()));
    assert_eq!(color_term(&[]), None);
    let q = color_term(&["u".into(), "r".into()]).unwrap();
    assert_eq!(q, "c:ur");
    assert_eq!(read(&[colors(&q, &['U', 'R'])]).colors, vec!['U', 'R']);
}

#[test]
fn set_codes_are_trimmed_and_lower_cased() {
    let st = RailState {
        set: " MH3 ,Lea".into(),
        ..Default::default()
    };
    assert_eq!(st.set_codes(), vec!["mh3", "lea"]);
}

#[test]
fn a_set_term_reads_back_comma_joined() {
    let st = read(&[tok("s:mh3,lea", Pred::SetCodes(strings(&["mh3", "lea"])))]);
    assert_eq!(st.set, "mh3,lea");
    assert_eq!(st.count(Field::SetCodes), 2);
}

#[test]
fn identity_terms_belong_to_no_widget() {
    let t = Term {
        negated: false,
        pred: Pred::Identity(vec!['W']),
    };
    assert_eq!(field_of(&t), None);
    let t = Term {
        negated: true,
        pred: Pred::Colorless,
    };
    assert_eq!(field_of(&t), None);
    let t = Term {
        negated: false,
        pred: Pred::Colorless,
    };
    assert_eq!(field_of(&t), Some(Field::Color));
}

#[test]
fn a_name_that_does_not_read_back_bare_is_quoted() {
    assert_eq!(name_token("bolt", true), "bolt");
    assert_eq!(name_token("fire ice", false), "\"fire ice\"");
    assert_eq!(force_quote("say \"hi\""), "\"say hi\"");
}

#[test]
fn a_blank_name_box_writes_no_term() {
    assert_eq!(name_terms("   ", None), None);
    assert_eq!(name_terms("\"unclosed", None), Some("\"unclosed\"".into()));
    assert_eq!(
        name_terms(" lightning bolt ", Some(&[word("lightning"), word("bolt")])),
        Some("lightning bolt".into())
    );
}

#[test]
fn comparisons_round_trip_through_the_selector() {
    for c in [Cmp::Lt, Cmp::Le, Cmp::Gt, Cmp::Ge] {
        assert_eq!(cmp_from_str(cmp_to_str(c)), c);
    }
    assert_eq!(cmp_to_str(Cmp::Eq), "=");
    assert_eq!(cmp_from_str("="), Cmp::Eq);
    assert_eq!(cmp_from_str("anything"), Cmp::Eq);
}

#[test]
fn reset_keeps_a_repeated_facet_key_after_the_first() {
    let q = [colors("c:u", &['U']), colors("c:r", &['R']), word("a"), word("b")];
    assert_eq!(reset(&q), "c:r");
}

#[test]
fn an_absent_field_cleared_changes_nothing() {
    let q = [word("bolt"), neg("-t:land", Pred::TypeLine(strings(&["land"])))];
    assert_eq!(rewrite(&q, Field::Type, None), "bolt -t:land");
}
