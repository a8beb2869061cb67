use templatr::data::{PlaceHolder, PlaceholderValues};
use templatr::subst::{replace_all, substitute};

fn placeholder(target: &str) -> PlaceHolder {
    PlaceHolder {
        target: target.to_string(),
        prompt: String::new(),
        optional: false,
        regex: None,
    }
}

#[test]
fn replaces_one_occurrence() {
    assert_eq!(replace_all("# {{NAME}}", "{{NAME}}", "Acme"), "# Acme");
}

#[test]
fn replaces_every_occurrence() {
    assert_eq!(replace_all("a-b-a-b-a", "a", "xy"), "xy-b-xy-b-xy");
}

#[test]
fn replacement_is_non_overlapping_and_leftmost() {
    assert_eq!(replace_all("aaa", "aa", "a"), "aa");
    assert_eq!(replace_all("ababab", "abab", "x"), "xab");
}

#[test]
fn text_without_the_token_is_unchanged() {
    assert_eq!(replace_all("nothing to see here", "{{NAME}}", "Acme"), "nothing to see here");
}

#[test]
fn empty_token_changes_nothing() {
    assert_eq!(replace_all("abc", "", "x"), "abc");
}

#[test]
fn value_may_contain_the_token_without_rescanning() {
    assert_eq!(replace_all("x", "x", "xx"), "xx");
}

#[test]
fn non_ascii_text_is_handled_by_character() {
    assert_eq!(replace_all("héllo {{NAME}}", "{{NAME}}", "wörld"), "héllo wörld");
}

#[test]
fn substitute_applies_entries_in_store_order() {
    let mut values = PlaceholderValues::new();
    values.insert(placeholder("{{A}}"), "{{B}}".to_string());
    values.insert(placeholder("{{B}}"), "done".to_string());
    let (out, edited) = substitute("start {{A}}", &values);
    // The first entry's replacement value is itself the second entry's token,
    // so the second pass rewrites it: order-dependent by design.
    assert_eq!(out, "start done");
    assert!(edited);
}

#[test]
fn substitute_reports_no_edit_for_untouched_text() {
    let mut values = PlaceholderValues::new();
    values.insert(placeholder("{{NAME}}"), "Acme".to_string());
    let (out, edited) = substitute("a plain file\nwith two lines\n", &values);
    assert_eq!(out, "a plain file\nwith two lines\n");
    assert!(!edited);
}

#[test]
fn substitute_with_empty_store_is_identity() {
    let values = PlaceholderValues::new();
    let (out, edited) = substitute("# {{NAME}}", &values);
    assert_eq!(out, "# {{NAME}}");
    assert!(!edited);
}

#[test]
fn token_of_an_unsupplied_optional_placeholder_survives() {
    // Only the store drives substitution: a declared-but-unsupplied optional
    // placeholder's token stays in the text literally.
    let mut values = PlaceholderValues::new();
    values.insert(placeholder("{{NAME}}"), "Acme".to_string());
    let (out, edited) = substitute("{{NAME}} ({{YEAR}})", &values);
    assert_eq!(out, "Acme ({{YEAR}})");
    assert!(edited);
}

#[test]
fn substitute_replaces_all_supplied_tokens() {
    let mut values = PlaceholderValues::new();
    values.insert(placeholder("{{NAME}}"), "Acme".to_string());
    values.insert(placeholder("{{YEAR}}"), "2024".to_string());
    let (out, edited) = substitute("# {{NAME}}\ncopyright {{YEAR}}, {{NAME}} inc\n", &values);
    assert_eq!(out, "# Acme\ncopyright 2024, Acme inc\n");
    assert!(edited);
}
