use askic::std_string::{
    char_at, contains, find, is_empty, len, lines, replace, split_newlines, starts_with, substring,
    to_lowercase, trim,
};

#[test]
fn lines_drop_line_endings() {
    assert_eq!(lines("a\r\nb\nc"), vec!["a", "b", "c"]);
    assert_eq!(lines("a\n"), vec!["a"]);
    assert!(lines("").is_empty());
}

#[test]
fn split_newlines_keeps_empty_pieces() {
    assert_eq!(split_newlines("a\n\nb\n"), vec!["a", "", "b", ""]);
    assert_eq!(split_newlines(""), vec![""]);
}

#[test]
fn trim_both_ends() {
    assert_eq!(trim("  x y \t\n"), "x y");
    assert_eq!(trim("   "), "");
}

#[test]
fn char_at_and_past_end() {
    assert_eq!(char_at("héllo", 1), 'é' as u32);
    assert_eq!(char_at("abc", 3), 0);
}

#[test]
fn substring_by_characters() {
    assert_eq!(substring("héllo", 1, 3), "él");
    assert_eq!(substring("abc", 2, 10), "c");
    assert_eq!(substring("abc", 5, 7), "");
}

#[test]
fn starts_with_prefix() {
    assert!(starts_with("aski", "as"));
    assert!(starts_with("aski", ""));
    assert!(!starts_with("as", "aski"));
}

#[test]
fn len_counts_bytes() {
    assert_eq!(len("héllo"), 6);
    assert!(is_empty(""));
    assert!(!is_empty(" "));
}

#[test]
fn find_gives_byte_offset() {
    assert_eq!(find("héllo", "l"), Some(3));
    assert_eq!(find("abc", "d"), None);
    assert_eq!(find("abc", ""), Some(0));
    assert!(contains("abc", "bc"));
    assert!(!contains("abc", "cb"));
}

#[test]
fn replace_every_occurrence() {
    assert_eq!(replace("a-b-c", "-", "+"), "a+b+c");
    assert_eq!(replace("aaa", "aa", "b"), "ba");
    assert_eq!(replace("abc", "x", "y"), "abc");
}

#[test]
fn to_lowercase_changes_case() {
    assert_eq!(to_lowercase("HeLLo"), "hello");
    assert_eq!(to_lowercase("ÀB"), "àb");
}

#[test]
fn split_pieces_rejoin_to_the_input() {
    for s in ["", "a", "a\nb", "\n\nx\n", "one\r\ntwo\n"] {
        assert_eq!(split_newlines(s).join("\n"), s);
    }
}

#[test]
fn trim_twice_is_trim_once() {
    for s in ["  a b  ", "\t\n", "x", " \u{A0}y\u{85} "] {
        let once = trim(s);
        assert_eq!(trim(&once), once);
    }
}

#[test]
fn starts_with_agrees_with_find_at_zero() {
    for (s, p) in [("hello", "he"), ("hello", "lo"), ("", ""), ("ab", "abc"), ("aXa", "a")] {
        assert_eq!(starts_with(s, p), find(s, p) == Some(0));
    }
}
