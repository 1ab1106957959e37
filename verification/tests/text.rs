//! Text primitives against those of std.

use hato::text::{
    contains, cut, ends_with, eq_ignore_ascii_case, lines, pad, replace, split, split_whitespace, take_chars,
    to_ascii_lowercase, trim, trim_start_matches, white_space,
};

const SAMPLES: [&str; 20] = [
    "", " ", "a", " a", "a ", " a b ", "\u{a0}x\u{3000}", "a\nb", "a\r\nb\r\n", "a\n\nb", "\n", "\r", "a\r", "x\r\ny\r",
    "**a*b", "A-Z é É", "a,b,,c,", ",", "\tone  two\nthree ", "path/to//file",
];

#[test]
fn white_space_is_that_of_std() {
    for n in 0..=0x10ffffu32 {
        if let Some(c) = char::from_u32(n) {
            assert_eq!(white_space(c), c.is_whitespace(), "{n:x}");
        }
    }
}

#[test]
fn trimming_is_that_of_std() {
    for s in SAMPLES {
        assert_eq!(trim(s), s.trim());
        assert_eq!(trim(&trim(s)), trim(s));
        assert_eq!(trim_start_matches(s, '*'), s.trim_start_matches('*'));
    }
}

#[test]
fn splitting_is_that_of_std() {
    for s in SAMPLES {
        for sep in [',', '/', '\n'] {
            assert_eq!(split(s, sep), s.split(sep).collect::<Vec<_>>());
            assert_eq!(split(s, sep).join(&sep.to_string()), s);
        }
        assert_eq!(lines(s), s.lines().collect::<Vec<_>>(), "{s:?}");
        assert_eq!(split_whitespace(s), s.split_whitespace().collect::<Vec<_>>());
        let (head, tail) = s.split_once(',').unwrap_or((s, ""));
        assert_eq!(cut(s, ','), (head.to_string(), tail.to_string()));
    }
}

#[test]
fn matching_is_that_of_std() {
    for s in SAMPLES {
        for p in SAMPLES {
            assert_eq!(contains(s, p), s.contains(p));
            assert_eq!(ends_with(s, p), s.ends_with(p));
            assert_eq!(eq_ignore_ascii_case(s, p), s.eq_ignore_ascii_case(p));
        }
    }
    assert!(eq_ignore_ascii_case("AbC", "aBc"));
    assert!(!eq_ignore_ascii_case("É", "é"));
}

#[test]
fn case_and_replacement_are_those_of_std() {
    for s in SAMPLES {
        assert_eq!(to_ascii_lowercase(s), s.to_ascii_lowercase());
        assert_eq!(replace(s, ',', '/'), s.replace(',', "/"));
    }
}

#[test]
fn padding_and_taking() {
    assert_eq!(pad("ab", 4), "ab  ");
    assert_eq!(pad("abcd", 4), "abcd");
    assert_eq!(pad("abcde", 4), "abcde");
    assert_eq!(pad("é", 2), format!("{:<2}", "é"));
    assert_eq!(take_chars("abc", 2), "ab");
    assert_eq!(take_chars("abc", 9), "abc");
    assert_eq!(take_chars("éàü", 2), "éà");
}
