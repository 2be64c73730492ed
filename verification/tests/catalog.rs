use three_rings::catalog::PageSlot::{Current, Ellipsis, Number};
use three_rings::catalog::{
    catalog_url, count_label, encode_query_value, filtered_count_label, page_strip,
    pager_is_needed, pager_last_page, parse_page, same_search, PageSlot, CATALOG_PAGE_SIZE,
    GRID_CLASS, MAX_PAGE,
};

#[test]
fn a_single_page_result_set_renders_no_pagination_landmark() {
    assert!(!pager_is_needed(false, false));
    assert!(pager_is_needed(false, true));
    assert!(pager_is_needed(true, true));
    assert!(pager_is_needed(true, false));
}

#[test]
fn the_count_qualifies_itself_past_page_one() {
    assert_eq!(count_label(23, false, false), "23 results");
    assert_eq!(count_label(50, true, false), "50+ results");
    assert_eq!(count_label(23, false, true), "23 results on this page");
    assert_eq!(count_label(50, true, true), "50 results on this page");
}

#[test]
fn the_filtered_header_line_is_exact_no_plus_and_silent_at_zero() {
    assert_eq!(filtered_count_label(1), Some("1 cards match.".to_string()));
    assert_eq!(
        filtered_count_label(38_623),
        Some("38623 cards match.".to_string())
    );
    assert_eq!(filtered_count_label(0), None);
    assert_eq!(filtered_count_label(-1), None);
    assert_eq!(
        filtered_count_label(i64::MAX),
        Some(format!("{} cards match.", i64::MAX))
    );
    assert_eq!(
        filtered_count_label(999_999_999_999),
        Some("999999999999 cards match.".to_string())
    );
}

#[test]
fn a_refinement_is_the_same_search_and_a_replacement_is_not() {
    assert!(same_search("bolt", "bolt pow>3"));
    assert!(same_search("bolt pow>3", "bolt"));
    assert!(same_search("bolt", "bolt"));
    assert!(same_search("", "pow>3"));
    assert!(!same_search("bolt", "counter pow>3"));
    assert!(!same_search("t:instant", "t:creature"));
}

#[test]
fn url_omits_empty_parts() {
    assert_eq!(catalog_url("", false, None, None), "/catalog");
    assert_eq!(catalog_url("", false, Some(""), None), "/catalog");
    assert_eq!(catalog_url("bolt", false, None, None), "/catalog?q=bolt");
    assert_eq!(catalog_url("", true, None, None), "/catalog?view=list");
    assert_eq!(
        catalog_url("", false, Some("abc"), None),
        "/catalog?cursor=abc"
    );
    assert_eq!(
        catalog_url("bolt", true, Some("abc"), None),
        "/catalog?q=bolt&view=list&cursor=abc"
    );
    assert_eq!(
        catalog_url("", false, Some("abc"), Some(1)),
        "/catalog?cursor=abc"
    );
    assert_eq!(
        catalog_url("bolt", true, Some("abc"), Some(9)),
        "/catalog?q=bolt&view=list&cursor=abc&page=9"
    );
    assert_eq!(catalog_url("", false, None, Some(3)), "/catalog?page=3");
}

#[test]
fn url_percent_encodes_the_query_and_the_cursor() {
    assert_eq!(
        catalog_url("t:instant c:ur", false, None, None),
        "/catalog?q=t%3Ainstant%20c%3Aur"
    );
    assert_eq!(
        catalog_url("", false, Some("Fire // Ice|1"), None),
        "/catalog?cursor=Fire%20%2F%2F%20Ice%7C1"
    );
    assert_eq!(encode_query_value("a&b+c"), "a%26b%2Bc");
}

#[test]
fn the_28_page_example_counts_up_from_a_middle_current() {
    assert_eq!(
        page_strip(9, Some(28)),
        vec![
            Number(1),
            Ellipsis,
            Current(9),
            Number(10),
            Number(11),
            Number(12),
            Ellipsis,
            Number(28),
        ]
    );
}

#[test]
fn the_28_page_example_on_page_one_has_no_leading_ellipsis() {
    assert_eq!(
        page_strip(1, Some(28)),
        vec![
            Current(1),
            Number(2),
            Number(3),
            Number(4),
            Number(5),
            Ellipsis,
            Number(28),
        ]
    );
}

#[test]
fn the_10_page_example_counts_down_near_the_end() {
    assert_eq!(
        page_strip(9, Some(10)),
        vec![
            Number(1),
            Ellipsis,
            Number(6),
            Number(7),
            Number(8),
            Current(9),
            Number(10),
        ]
    );
}

#[test]
fn one_page_is_just_the_current_page() {
    assert_eq!(page_strip(1, Some(1)), vec![Current(1)]);
}

#[test]
fn two_pages_shows_both_with_no_ellipsis() {
    assert_eq!(page_strip(1, Some(2)), vec![Current(1), Number(2)]);
    assert_eq!(page_strip(2, Some(2)), vec![Number(1), Current(2)]);
}

#[test]
fn exactly_six_pages_shows_every_number_no_ellipsis() {
    assert_eq!(
        page_strip(3, Some(6)),
        vec![
            Number(1),
            Number(2),
            Current(3),
            Number(4),
            Number(5),
            Number(6)
        ]
    );
}

#[test]
fn seven_pages_still_fits_six_numbers_plus_one_ellipsis() {
    let strip = page_strip(4, Some(7));
    assert_eq!(strip.iter().filter(|s| matches!(s, Ellipsis)).count(), 1);
    let shown: Vec<usize> = strip
        .iter()
        .filter_map(|s| match s {
            Number(n) | Current(n) => Some(*n),
            Ellipsis => None,
        })
        .collect();
    assert_eq!(shown.len(), 6);
    assert!(shown.contains(&1));
    assert!(shown.contains(&7));
    assert!(shown.contains(&4));
    assert!(strip.contains(&Current(4)));
}

#[test]
fn current_equals_last_mirrors_the_current_equals_one_case() {
    assert_eq!(
        page_strip(28, Some(28)),
        vec![
            Number(1),
            Ellipsis,
            Number(24),
            Number(25),
            Number(26),
            Number(27),
            Current(28),
        ]
    );
}

#[test]
fn unknown_total_only_names_current_and_its_next_hop() {
    assert_eq!(page_strip(1, None), vec![Current(1), Number(2)]);
    assert_eq!(page_strip(2, None), vec![Number(1), Current(2), Number(3)]);
    assert_eq!(
        page_strip(9, None),
        vec![Number(1), Ellipsis, Current(9), Number(10)]
    );
}

#[test]
fn the_crafted_overflow_url_clamps_instead_of_parsing_raw() {
    assert_eq!(parse_page(Some("18446744073709551615")), MAX_PAGE);
    assert_eq!(parse_page(None), 1);
    assert_eq!(parse_page(Some("")), 1);
    assert_eq!(parse_page(Some("0")), 1);
    assert_eq!(parse_page(Some("-1")), 1);
    assert_eq!(parse_page(Some("not a number")), 1);
    assert_eq!(parse_page(Some("9")), 9);
    assert_eq!(parse_page(Some("999999999999")), MAX_PAGE);
}

#[test]
fn page_strip_does_not_panic_or_wrap_on_the_largest_possible_current() {
    let strip = page_strip(usize::MAX, None);
    assert_eq!(strip.len(), 4);
    assert!(strip.contains(&PageSlot::Current(usize::MAX)));
    assert!(strip.contains(&PageSlot::Number(usize::MAX)));

    let strip = page_strip(usize::MAX, Some(773));
    assert!(!strip.is_empty());
    let numbered = strip
        .iter()
        .filter(|s| !matches!(s, PageSlot::Ellipsis))
        .count();
    assert!(numbered <= 6, "{numbered} numbered slots: {strip:?}");
}

#[test]
fn the_catalog_page_size_divides_evenly_by_every_grid_column_count() {
    assert_eq!(CATALOG_PAGE_SIZE, 60);
    for columns in [2, 3, 4, 6] {
        assert_eq!(
            CATALOG_PAGE_SIZE % columns,
            0,
            "{CATALOG_PAGE_SIZE} does not divide evenly by {columns} columns"
        );
    }
    assert_eq!(CATALOG_PAGE_SIZE % 10, 0);
}

#[test]
fn grid_class_names_only_the_approved_column_tiers() {
    for present in [
        "grid-cols-2",
        "sm:grid-cols-3",
        "lg:grid-cols-4",
        "xl:grid-cols-6",
        "3xl:grid-cols-10",
    ] {
        assert!(
            GRID_CLASS.contains(present),
            "GRID_CLASS is missing {present}: {}",
            GRID_CLASS
        );
    }
    for skipped in ["grid-cols-5", "grid-cols-7", "grid-cols-8", "grid-cols-9"] {
        assert!(
            !GRID_CLASS.contains(skipped),
            "GRID_CLASS names a deliberately-skipped tier {skipped}: {}",
            GRID_CLASS
        );
    }
    assert!(!GRID_CLASS.contains("max-w-7xl"));
}

// ------------------------------------------------------------- additions --

#[test]
fn parse_page_accepts_a_plus_sign_like_str_parse() {
    assert_eq!(parse_page(Some("+7")), 7);
    assert_eq!(parse_page(Some("+")), 1);
    assert_eq!(parse_page(Some("1000000")), MAX_PAGE);
    assert_eq!(parse_page(Some("1000001")), MAX_PAGE);
    assert_eq!(parse_page(Some("12a")), 1);
}

#[test]
fn encoding_is_by_utf8_byte_and_keeps_unreserved_characters() {
    assert_eq!(encode_query_value("AZaz09-_.~"), "AZaz09-_.~");
    assert_eq!(encode_query_value("é"), "%C3%A9");
    assert_eq!(encode_query_value("#?="), "%23%3F%3D");
    assert_eq!(encode_query_value(""), "");
}

#[test]
fn the_pager_knows_the_last_page_only_when_it_can() {
    assert_eq!(pager_last_page(3, false, None, 60), Some(3));
    assert_eq!(pager_last_page(1, true, None, 60), None);
    assert_eq!(pager_last_page(1, true, Some(121), 60), Some(3));
    assert_eq!(pager_last_page(1, true, Some(120), 60), Some(2));
    assert_eq!(pager_last_page(1, true, Some(-5), 60), Some(0));
    assert_eq!(pager_last_page(1, true, Some(100), 0), None);
}

#[test]
fn every_strip_keeps_page_one_and_the_last_page() {
    for last in 1..40usize {
        for current in 0..=last + 2 {
            let strip = page_strip(current, Some(last));
            let shown: Vec<usize> = strip
                .iter()
                .filter_map(|s| match s {
                    PageSlot::Number(n) | PageSlot::Current(n) => Some(*n),
                    PageSlot::Ellipsis => None,
                })
                .collect();
            let l = last.max(current.max(1));
            assert_eq!(shown.first(), Some(&1));
            assert_eq!(shown.last(), Some(&l));
            assert_eq!(shown.len(), l.min(6));
            assert!(shown.windows(2).all(|w| w[0] < w[1]));
        }
    }
}
