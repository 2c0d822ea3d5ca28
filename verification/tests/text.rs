use app_launcher::text::{
    char_is_whitespace, chars_of, contains_chars, line_end, matches_at, remove_occurrences,
    same_text, string_of, trim_chars, trim_range,
};

fn chars(s: &str) -> Vec<char> {
    s.chars().collect()
}

fn text(v: &[char]) -> String {
    v.iter().collect()
}

#[test]
fn whitespace_agrees_with_std_on_every_char() {
    for c in '\0'..=char::MAX {
        assert_eq!(char_is_whitespace(c), c.is_whitespace(), "{:?}", c);
    }
}

#[test]
fn whitespace_on_named_characters() {
    assert!(char_is_whitespace(' '));
    assert!(char_is_whitespace('\t'));
    assert!(char_is_whitespace('\n'));
    assert!(char_is_whitespace('\r'));
    assert!(char_is_whitespace('\u{a0}'));
    assert!(char_is_whitespace('\u{3000}'));
    assert!(!char_is_whitespace('a'));
    assert!(!char_is_whitespace('\u{200b}'));
    assert!(!char_is_whitespace('\0'));
}

#[test]
fn chars_of_keeps_every_character() {
    assert_eq!(chars_of("a\u{e9}\u{1f600}z"), vec!['a', '\u{e9}', '\u{1f600}', 'z']);
    assert_eq!(chars_of(""), Vec::<char>::new());
}

#[test]
fn string_of_builds_the_range() {
    let v = chars("hello world");
    assert_eq!(string_of(&v, 0, v.len()), "hello world");
    assert_eq!(string_of(&v, 6, 11), "world");
    assert_eq!(string_of(&v, 3, 3), "");
}

#[test]
fn same_text_compares_characters() {
    assert!(same_text("ESC", "ESC"));
    assert!(!same_text("ESC", "esc"));
    assert!(!same_text("ESC", "ESCAPE"));
    assert!(same_text("", ""));
}

#[test]
fn trim_agrees_with_std() {
    for s in [
        "",
        " ",
        "a",
        "  a  ",
        "\t\r\n a b \u{3000}",
        "\u{a0}x\u{2003}",
        "no-space",
        "   ",
        " inner  space kept ",
        "\u{200b} zero width is kept \u{200b}",
    ] {
        assert_eq!(text(&trim_chars(&chars(s))), s.trim(), "{:?}", s);
    }
}

#[test]
fn trim_range_trims_only_the_range() {
    let v = chars("[  ab  ]");
    assert_eq!(text(&trim_range(&v, 1, 7)), "ab");
    assert_eq!(text(&trim_range(&v, 0, 8)), "[  ab  ]");
    assert_eq!(text(&trim_range(&v, 1, 3)), "");
    assert_eq!(text(&trim_range(&v, 4, 4)), "");
}

#[test]
fn matches_at_finds_the_pattern_in_place() {
    let s = chars("abcabc");
    let p = chars("bc");
    assert!(!matches_at(&s, &p, 0));
    assert!(matches_at(&s, &p, 1));
    assert!(matches_at(&s, &p, 4));
    assert!(!matches_at(&s, &p, 5));
    assert!(!matches_at(&s, &p, 6));
    assert!(!matches_at(&s, &p, 600));
    assert!(matches_at(&s, &chars(""), 6));
    assert!(!matches_at(&s, &chars(""), 7));
}

#[test]
fn contains_agrees_with_std() {
    for (s, p) in [
        ("files", "file"),
        ("file manager", "man"),
        ("firefox", "file"),
        ("abc", ""),
        ("", ""),
        ("", "a"),
        ("aaa", "aaaa"),
        ("xaab", "ab"),
        ("abc", "abc"),
        ("abc", "c"),
    ] {
        assert_eq!(contains_chars(&chars(s), &chars(p)), s.contains(p), "{:?} {:?}", s, p);
    }
}

#[test]
fn removal_agrees_with_std_replace() {
    for (s, p) in [
        ("firefox %u", "%u"),
        ("%u%u%u", "%u"),
        ("%%uu", "%u"),
        ("aaa", "aa"),
        ("aaaa", "aa"),
        ("abc", "x"),
        ("abc", ""),
        ("", "%f"),
        ("%", "%f"),
        ("a%fb%fc", "%f"),
        ("abcabc", "abcabc"),
        ("ab", "abc"),
    ] {
        assert_eq!(
            text(&remove_occurrences(&chars(s), &chars(p))),
            s.replace(p, ""),
            "{:?} {:?}",
            s,
            p
        );
    }
}

#[test]
fn removal_does_not_look_again_at_what_it_joined() {
    assert_eq!(text(&remove_occurrences(&chars("%%ff"), &chars("%f"))), "%f");
}

#[test]
fn line_end_stops_at_the_line_feed() {
    let v = chars("ab\ncd\n\nef");
    assert_eq!(line_end(&v, 0), 2);
    assert_eq!(line_end(&v, 2), 2);
    assert_eq!(line_end(&v, 3), 5);
    assert_eq!(line_end(&v, 6), 6);
    assert_eq!(line_end(&v, 7), 9);
    assert_eq!(line_end(&v, 9), 9);
}
