//! Characters, texts and byte strings.

use tonggeret::bytes::{bytes_less, push_all};
use tonggeret::text::{
    char_is_white, char_upper, chars_of, same_text, string_of, trimmed_upper, truncated,
};

#[test]
fn white_space_is_that_of_unicode() {
    for c in '\0'..=char::MAX {
        assert_eq!(char_is_white(c), c.is_whitespace(), "{c:?}");
        assert_eq!(char_upper(c), c.to_ascii_uppercase(), "{c:?}");
    }
}

#[test]
fn texts_are_trimmed_and_raised() {
    for s in ["", " ", "a", " a b ", "\u{3000}\u{e9}x\u{85}\n", "\t\t", "a\u{200b}"] {
        assert_eq!(trimmed_upper(s), s.trim().to_ascii_uppercase());
    }
}

#[test]
fn texts_are_cut_by_characters() {
    let s = "a\u{e9}\u{1f600}z";
    assert_eq!(truncated(s, 3), "a\u{e9}\u{1f600}");
    assert_eq!(truncated(s, 4), s);
    assert_eq!(truncated(s, 0), "");
    let chars = chars_of(s);
    assert_eq!(chars, s.chars().collect::<Vec<char>>());
    assert_eq!(string_of(&chars, 1, 3), "\u{e9}\u{1f600}");
    assert!(same_text(s, "a\u{e9}\u{1f600}z"));
    assert!(!same_text(s, "a"));
}

#[test]
fn byte_strings_sort_like_slices() {
    let samples: [&[u8]; 6] = [b"", b"a", b"ab", b"b", b"\xff", b"a\0"];
    for a in samples {
        for b in samples {
            assert_eq!(bytes_less(a, b), a < b, "{a:?} {b:?}");
        }
    }
    let mut out = b"ab".to_vec();
    push_all(&mut out, b"cd");
    assert_eq!(out, b"abcd".to_vec());
}
