//! Characters and texts, held against the standard library.

use eventfs::chars::{is_ascii_alphanumeric, is_control, is_white_space};
use eventfs::text::{
    begins_with, chars_of, concat2, concat3, finishes_with, has_char, holds_double_dot, join_text,
    non_empty, precedes, same_text, split_text, trim_both, trim_space, without_prefix,
    without_suffix,
};

const SAMPLES: [&str; 16] = [
    "", "/", "//", "a", "/a", "a/", "/a/b/", "a//b", "..", "a..b", ".a.", " a b ", "\t\u{a0}x\u{3000}",
    "\u{fc}/\u{1f600}", "prefix-body.suffix", "prefix",
];

#[test]
fn character_classes_are_those_of_the_standard_library() {
    for ch in '\0'..=char::MAX {
        assert_eq!(is_ascii_alphanumeric(ch), ch.is_ascii_alphanumeric(), "{ch:?}");
        assert_eq!(is_control(ch), ch.is_control(), "{ch:?}");
        assert_eq!(is_white_space(ch), ch.is_whitespace(), "{ch:?}");
    }
}

#[test]
fn texts_are_split_and_joined_again() {
    for text in SAMPLES {
        let parts = split_text(text, '/');
        assert_eq!(parts, text.split('/').collect::<Vec<_>>());
        assert_eq!(join_text(&parts, '/'), text);
        assert_eq!(
            non_empty(&parts),
            text.split('/').filter(|part| !part.is_empty()).collect::<Vec<_>>()
        );
        assert_eq!(chars_of(text), text.chars().collect::<Vec<_>>());
    }
    assert_eq!(join_text(&[], '/'), "");
}

#[test]
fn texts_are_searched_and_trimmed() {
    for text in SAMPLES {
        assert_eq!(has_char(text, 'a'), text.contains('a'));
        assert_eq!(holds_double_dot(text), text.contains(".."));
        assert_eq!(begins_with(text, '/'), text.starts_with('/'));
        assert_eq!(finishes_with(text, '/'), text.ends_with('/'));
        assert_eq!(without_prefix(text, "prefix"), text.strip_prefix("prefix"));
        assert_eq!(without_suffix(text, ".suffix"), text.strip_suffix(".suffix"));
        assert_eq!(trim_both(text, '/'), text.trim_matches('/'));
        assert_eq!(trim_space(text), text.trim());
    }
}

#[test]
fn texts_are_compared_as_the_standard_library_compares_them() {
    for left in SAMPLES {
        for right in SAMPLES {
            assert_eq!(same_text(left, right), left == right);
            assert_eq!(precedes(left, right), left < right, "{left:?} {right:?}");
        }
    }
    assert!(precedes("\u{ffff}", "\u{10000}"));
}

#[test]
fn texts_are_put_together() {
    assert_eq!(concat2("a", "\u{fc}"), "a\u{fc}");
    assert_eq!(concat3("", "b", "c"), "bc");
}
