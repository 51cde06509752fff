use bit::paths;
use bit::text::{
    among, contains, ends_with, eq_ignore_ascii_case, i32_text, is_blank, join, same, split,
    split_once, split_whitespace, starts_with, strip_prefix, strip_suffix, trim,
    trim_end_matches, trim_start_matches, u128_text, usize_text, Cut,
};

#[test]
fn trimming_takes_unicode_whitespace() {
    assert_eq!(trim("  a b \n"), "a b");
    assert_eq!(trim("\u{3000}x\u{a0}"), "x");
    assert_eq!(trim(" \t\r\n"), "");
    assert!(is_blank("\u{2003} "));
    assert!(!is_blank(" . "));
}

#[test]
fn trimming_twice_changes_nothing() {
    for s in ["", " a", "a ", " a b ", "\t"] {
        assert_eq!(trim(&trim(s)), trim(s));
    }
}

#[test]
fn characters_are_trimmed_from_one_end() {
    assert_eq!(trim_end_matches("a//", '/'), "a");
    assert_eq!(trim_end_matches("///", '/'), "");
    assert_eq!(trim_start_matches("--a-", '-'), "a-");
}

#[test]
fn parts_are_found() {
    assert!(contains("abcabd", "abd"));
    assert!(contains("abc", ""));
    assert!(!contains("ab", "abc"));
    assert!(starts_with("abc", "ab") && !starts_with("abc", "b"));
    assert!(ends_with("abc", "bc") && !ends_with("c", "bc"));
    assert_eq!(strip_prefix("~/x", "~/"), Some("x".to_string()));
    assert_eq!(strip_prefix("x", "~/"), None);
    assert_eq!(strip_suffix("a/sse", "/sse"), Some("a".to_string()));
    assert_eq!(
        split_once("a=b=c", "="),
        Some(("a".to_string(), "b=c".to_string()))
    );
    assert_eq!(split_once("abc", "="), None);
}

#[test]
fn text_is_split_and_joined() {
    assert_eq!(split("a&&b", &Cut::At('&')), ["a", "", "b"]);
    assert_eq!(split("", &Cut::At('&')), [""]);
    assert_eq!(split("yes, no!", &Cut::NonAlphabetic), ["yes", "", "no", ""]);
    assert_eq!(split_whitespace("  GET  /x\u{a0}y "), ["GET", "/x", "y"]);
    let parts = vec!["a".to_string(), "b".to_string()];
    assert_eq!(join(&parts, ", "), "a, b");
    assert_eq!(join(&Vec::new(), ", "), "");
    assert!(among(&parts, "b") && !among(&parts, "c"));
}

#[test]
fn case_is_ignored_for_ascii_only() {
    assert!(eq_ignore_ascii_case("GMail", "gmaiL"));
    assert!(!eq_ignore_ascii_case("É", "é"));
    assert!(!eq_ignore_ascii_case("a", "ab"));
    assert!(same("é", "é") && !same("a", "A"));
}

#[test]
fn numbers_are_written_out() {
    assert_eq!(usize_text(0), "0");
    assert_eq!(u128_text(340282366920938463463374607431768211455), u128::MAX.to_string());
    assert_eq!(i32_text(-2147483648), "-2147483648");
    assert_eq!(i32_text(17), "17");
}

#[test]
fn paths_are_joined() {
    assert_eq!(paths::join("/a", "b"), "/a/b");
    assert_eq!(paths::join("/a/", "b"), "/a/b");
    assert_eq!(paths::join("/a", "/b"), "/b");
    assert_eq!(paths::join("", "b"), "b");
}
