//! Name comparison on its own.

use hc_tel::names::same_name;

#[test]
fn equal_names_are_the_same() {
    assert!(same_name("requests", "requests"));
    assert!(same_name("", ""));
    assert!(same_name("caf\u{e9}", "caf\u{e9}"));
}

#[test]
fn names_of_different_length_differ() {
    assert!(!same_name("requests", "request"));
    assert!(!same_name("", "x"));
    assert!(!same_name("x", ""));
}

#[test]
fn names_of_equal_length_differ_by_one_byte() {
    assert!(!same_name("requests", "requestz"));
    assert!(!same_name("requests", "Requests"));
    assert!(!same_name("a.b", "a_b"));
}

#[test]
fn names_are_not_normalised() {
    assert!(!same_name("caf\u{e9}", "cafe\u{301}"));
    assert!(!same_name("hits", "hits "));
    assert!(!same_name("\u{212b}", "\u{c5}"));
}

#[test]
fn name_comparison_is_by_value() {
    let built = String::from("err") + "ors";
    assert!(same_name(&built, "errors"));
    assert!(same_name("errors", built.as_str()));
}
