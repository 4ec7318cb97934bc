use rmenu::{ContainsFilter, ItemFilter, ItemFilters, SubstringFilter};

#[test]
fn subsequence_filter_matches_characters_in_order() {
    let filter = SubstringFilter {};
    assert!(filter.filter("abc", "aXbYc"));
    assert!(!filter.filter("acb", "aXbYc"));
}

#[test]
fn subsequence_filter_matches_the_empty_query() {
    let filter = SubstringFilter {};
    assert!(filter.filter("", "anything"));
    assert!(filter.filter("", ""));
}

#[test]
fn subsequence_filter_ignores_case() {
    let filter = SubstringFilter {};
    assert!(filter.filter("ABC", "aXbYc"));
    assert!(filter.filter("abc", "AXBYC"));
}

#[test]
fn subsequence_filter_needs_every_character() {
    let filter = SubstringFilter {};
    assert!(!filter.filter("abcd", "abc"));
    assert!(!filter.filter("a", ""));
    assert!(!filter.filter("aa", "a"));
    assert!(filter.filter("aa", "aba"));
    assert!(filter.filter("ffx", "Firefox"));
    assert!(!filter.filter("xff", "Firefox"));
}

#[test]
fn subsequence_filter_folds_ascii_letters_only() {
    let filter = SubstringFilter {};
    assert!(!filter.filter("é", "É"));
    assert!(filter.filter("é", "café"));
    assert!(!filter.filter("[", "{"));
    assert!(!filter.filter("@", "`"));
}

#[test]
fn contains_filter_matches_a_contiguous_run() {
    let filter = ContainsFilter {};
    assert!(filter.filter("fire", "Firefox"));
    assert!(!filter.filter("zaf", "Firefox"));
}

#[test]
fn contains_filter_does_not_match_scattered_characters() {
    let filter = ContainsFilter {};
    assert!(!filter.filter("ffx", "Firefox"));
    assert!(filter.filter("FOX", "firefox"));
    assert!(filter.filter("", "Firefox"));
    assert!(filter.filter("", ""));
    assert!(!filter.filter("firefoxes", "Firefox"));
}

#[test]
fn item_filters_pick_the_way_of_matching() {
    assert!(ItemFilters::Substring.filter("ffx", "Firefox"));
    assert!(!ItemFilters::Contains.filter("ffx", "Firefox"));
    assert!(ItemFilters::Contains.filter("ref", "Firefox"));
}

#[test]
fn item_filters_default_to_subsequence_matching() {
    assert_eq!(ItemFilters::default(), ItemFilters::Substring);
}
