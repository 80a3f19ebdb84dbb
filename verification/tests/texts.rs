use dotest::domain::filter::build_filter;
use dotest::numerals::{count_text, decimal_of, parse_count, signed_text};
use dotest::order::{is_before, sorted_unique};
use dotest::text::{
    after_part, before_part, contains, find, join, pad, repeat, split, strip_prefix, trim,
};

#[test]
fn numbers_are_written_and_read_back() {
    for n in [0, 9, 10, 1234567890, usize::MAX] {
        assert_eq!(parse_count(&count_text(n)), Some(n));
    }
    assert_eq!(decimal_of(340282366920938463463374607431768211455), u128::MAX.to_string());
    assert_eq!(signed_text(-17), "-17");
    assert_eq!(signed_text(i32::MIN), i32::MIN.to_string());
}

#[test]
fn counts_are_read_like_the_standard_does() {
    for s in ["", "+", "-1", "1x", " 1", "+5", "007", "18446744073709551615", "18446744073709551616"] {
        assert_eq!(parse_count(s), s.parse::<usize>().ok(), "{}", s);
    }
}

#[test]
fn texts_are_taken_apart_like_the_standard_does() {
    let s = " \u{a0}\tä.b..c \u{3000}";
    assert_eq!(trim(s), s.trim());
    assert_eq!(split(s, '.'), s.split('.').collect::<Vec<_>>());
    assert_eq!(strip_prefix("Passed X", "Passed "), Some("X"));
    assert_eq!(strip_prefix("Failed X", "Passed "), None);
    assert_eq!(find("äbcbc", "bc"), Some(1));
    assert_eq!(find("abc", "x"), None);
    assert!(contains("abc", ""));
    assert_eq!(before_part("name [1 ms]", " ["), "name");
    assert_eq!(after_part("a:b:c", ":"), Some("b:c"));
    assert_eq!(after_part("abc", ":"), None);
    assert_eq!(join(&vec!["a".to_string(), "b".to_string()], ", "), "a, b");
    assert_eq!(repeat("ab", 3), "ababab");
    assert_eq!(pad("abc", 5, '-'), "abc--");
    assert_eq!(pad("abcdef", 5, '-'), "abcdef");
}

#[test]
fn lists_are_sorted_without_repetition() {
    let list: Vec<String> =
        ["b", "a", "b", "ab", "", "é"].iter().map(|s| s.to_string()).collect();
    let mut want = list.clone();
    want.sort();
    want.dedup();
    assert_eq!(sorted_unique(&list), want);
    assert!(is_before("a", "ab"));
    assert!(!is_before("b", "ab"));
}

#[test]
fn typed_filters() {
    assert_eq!(build_filter(None), None);
    assert_eq!(build_filter(Some("")), None);
    assert_eq!(build_filter(Some("Foo")).as_deref(), Some("FullyQualifiedName~Foo"));
    for given in ["Name=Foo", "Name~Foo", "a&b", "a|b"] {
        assert_eq!(build_filter(Some(given)).as_deref(), Some(given));
    }
    let built = build_filter(Some("Foo"));
    assert_eq!(build_filter(built.as_deref()), built);
}
