use jotun::fts::fts_query;
use jotun::order::{sorted_texts, text_less};
use jotun::store::normalize_tag_text;
use jotun::text::{chars_of, i64_text, push_str, string_of, text_eq, usize_text};

#[test]
fn fts_query_quotes_the_query() {
    assert_eq!(fts_query("hello"), "\"hello\"*");
    assert_eq!(fts_query("a\"b"), "\"a\"\"b\"*");
    assert_eq!(fts_query(""), "\"\"*");
}

#[test]
fn tag_normalization() {
    assert_eq!(normalize_tag_text("  Ärger \n"), "ärger");
    assert_eq!(normalize_tag_text("\u{3000}X\u{a0}"), "x");
    assert_eq!(normalize_tag_text(" \t "), "");
}

#[test]
fn binary_order_of_texts() {
    assert!(text_less("a", "b"));
    assert!(text_less("a", "ab"));
    assert!(!text_less("b", "a"));
    assert!(!text_less("a", "a"));
    assert!(text_less("Z", "a"));
    assert!(text_less("z", "é"));
    let sorted = sorted_texts(&vec!["pear".to_string(), "Apple".to_string(), "apple".to_string()]);
    assert_eq!(sorted, vec!["Apple".to_string(), "apple".to_string(), "pear".to_string()]);
}

#[test]
fn text_helpers() {
    assert_eq!(chars_of("héllo"), vec!['h', 'é', 'l', 'l', 'o']);
    assert_eq!(string_of(&vec!['a', 'é']), "aé");
    let mut s = String::from("ab");
    push_str(&mut s, "cd");
    assert_eq!(s, "abcd");
    assert!(text_eq("x", "x"));
    assert!(!text_eq("x", "xy"));
}

#[test]
fn integers_are_written_as_display_writes_them() {
    assert_eq!(i64_text(0), "0");
    assert_eq!(i64_text(42), "42");
    assert_eq!(i64_text(-7), "-7");
    assert_eq!(i64_text(i64::MIN), i64::MIN.to_string());
    assert_eq!(i64_text(i64::MAX), i64::MAX.to_string());
    assert_eq!(usize_text(0), "0");
    assert_eq!(usize_text(1234567890), "1234567890");
    assert_eq!(usize_text(usize::MAX), usize::MAX.to_string());
}
