use achievement_sync::paths::{expand_path, expand_path_from};
use achievement_sync::text::{
    char_is_whitespace, chars_of, equals_ignoring_ascii_case, find_text, parse_i32_text,
    parse_u32_text, push_decimal, push_signed_decimal, push_two_digits, replace_text, string_of,
    text_contains, text_equals, trimmed,
};
use std::path::Path;

#[test]
fn whitespace_is_what_std_calls_whitespace() {
    for code in 0u32..0x11_0000 {
        if let Some(c) = char::from_u32(code) {
            assert_eq!(char_is_whitespace(c), c.is_whitespace(), "U+{:04X}", code);
        }
    }
}

#[test]
fn trimming_agrees_with_std() {
    for s in ["", " ", "a", " a ", "\t\r\n a b \u{3000}\u{a0}", "\u{2003}x", "x\u{85}", "  \u{feff}a"] {
        assert_eq!(trimmed(s), s.trim(), "{:?}", s);
    }
}

#[test]
fn chars_and_back() {
    let chars = chars_of("héllo wörld");
    assert_eq!(chars.len(), 11);
    assert_eq!(string_of(&chars, 0, chars.len()), "héllo wörld");
    assert_eq!(string_of(&chars, 1, 5), "éllo");
    assert_eq!(string_of(&chars, 3, 3), "");
}

#[test]
fn unsigned_numbers_agree_with_std() {
    for s in ["0", "7", "+7", "-7", "007", "4294967295", "4294967296", "", "+", " 1", "1 ", "1a", "١"] {
        assert_eq!(parse_u32_text(s), s.parse::<u32>().ok(), "{:?}", s);
    }
}

#[test]
fn signed_numbers_agree_with_std() {
    for s in ["0", "-0", "+0", "2147483647", "2147483648", "-2147483648", "-2147483649", "", "-", "+-1", "--1", "12x"] {
        assert_eq!(parse_i32_text(s), s.parse::<i32>().ok(), "{:?}", s);
    }
}

#[test]
fn numbers_are_written_as_std_writes_them() {
    for v in [0i64, 5, -5, 10, 99, 100, 1700000000, i64::MAX, i64::MIN, -1] {
        let mut out = String::from(">");
        push_signed_decimal(&mut out, v);
        assert_eq!(out, format!(">{}", v));
    }
    for v in [0u64, 9, 10, u64::MAX] {
        let mut out = String::new();
        push_decimal(&mut out, v);
        assert_eq!(out, format!("{}", v));
    }
    for v in [0u32, 9, 10, 59, 100, u32::MAX] {
        let mut out = String::new();
        push_two_digits(&mut out, v);
        assert_eq!(out, format!("{:02}", v));
    }
}

#[test]
fn comparing_texts() {
    assert!(text_equals("abc", "abc"));
    assert!(!text_equals("abc", "abd"));
    assert!(!text_equals("abc", "ab"));
    assert!(text_equals("", ""));
    assert!(equals_ignoring_ascii_case("JSON", "json"));
    assert!(equals_ignoring_ascii_case("SteamUser", "steamuser"));
    assert!(!equals_ignoring_ascii_case("json5", "json"));
    assert!(!equals_ignoring_ascii_case("Ä", "ä"));
    assert!(!equals_ignoring_ascii_case("@", "`"));
    assert!(!equals_ignoring_ascii_case("[", "{"));
}

#[test]
fn finding_texts() {
    let hay = chars_of("abcabcabd");
    assert_eq!(find_text(&hay, &chars_of("abd")), Some(6));
    assert_eq!(find_text(&hay, &chars_of("abc")), Some(0));
    assert_eq!(find_text(&hay, &chars_of("")), Some(0));
    assert_eq!(find_text(&hay, &chars_of("abcabcabda")), None);
    assert_eq!(find_text(&hay, &chars_of("x")), None);
    assert_eq!(find_text(&chars_of(""), &chars_of("")), Some(0));
    assert!(text_contains("C:/GSE Saves/x", "GSE Saves"));
    assert!(!text_contains("C:/GSE Saves/x", "gse saves"));
}

#[test]
fn home_shorthand_is_expanded() {
    assert_eq!(
        Path::new(&expand_path_from("~/games/x", Some("/home/u"))),
        Path::new("/home/u").join("games/x")
    );
    assert_eq!(expand_path_from("~/games", None), "~/games");
    assert_eq!(expand_path_from("/abs/path", Some("/home/u")), "/abs/path");
    assert_eq!(expand_path_from("~", Some("/home/u")), "~");
    assert_eq!(expand_path_from("~user/x", Some("/home/u")), "~user/x");
    assert_eq!(expand_path_from("a/~/b", Some("/home/u")), "a/~/b");
    assert_eq!(expand_path_from("", Some("/home/u")), "");
    assert_eq!(Path::new(&expand_path_from("~/", Some("/home/u"))), Path::new("/home/u").join(""));
}

#[test]
fn expansion_leaves_other_paths_alone() {
    assert_eq!(expand_path("/games"), "/games");
    assert_eq!(expand_path("relative/dir"), "relative/dir");
    let expanded = expand_path("~/games");
    assert!(expanded == "~/games" || expanded.ends_with("games"));
}

#[test]
fn replacing_agrees_with_std() {
    let cases = [
        ("D:\\\\Games\\\\Steam", "\\\\", "\\"),
        ("aaaa", "aa", "b"),
        ("aaa", "aa", "b"),
        ("abcabc", "bc", ""),
        ("abc", "abcd", "x"),
        ("", "a", "b"),
        ("ab", "b", "bb"),
        ("héllo hé", "hé", "HE"),
    ];
    for (s, from, to) in cases {
        assert_eq!(replace_text(s, from, to), s.replace(from, to), "{:?} {:?} {:?}", s, from, to);
    }
    assert_eq!(replace_text("abc", "", "-"), "abc");
}
