use taskchat::text::{
    blank, chars_of, eq_ignore_ascii_case, is_whitespace, same_text, string_from_chars, trim,
};

#[test]
fn whitespace_agrees_with_std_on_every_char() {
    let mut code: u32 = 0;
    while code <= 0x10FFFF {
        if let Some(c) = char::from_u32(code) {
            assert_eq!(is_whitespace(c), c.is_whitespace(), "code point {:#x}", code);
        }
        code += 1;
    }
}

#[test]
fn whitespace_named_code_points() {
    assert!(is_whitespace(' '));
    assert!(is_whitespace('\n'));
    assert!(is_whitespace('\t'));
    assert!(is_whitespace('\r'));
    assert!(is_whitespace('\u{85}'));
    assert!(is_whitespace('\u{A0}'));
    assert!(is_whitespace('\u{3000}'));
    assert!(!is_whitespace('a'));
    assert!(!is_whitespace('\u{200B}'));
    assert!(!is_whitespace('\u{0E}'));
}

#[test]
fn trim_removes_both_ends_only() {
    assert_eq!(trim("  hello world \n"), "hello world");
    assert_eq!(trim("hello"), "hello");
    assert_eq!(trim(""), "");
    assert_eq!(trim(" \t\r\n"), "");
    assert_eq!(trim("\u{3000}a b\u{A0}"), "a b");
    assert_eq!(trim("a"), "a");
    assert_eq!(trim(" a"), "a");
    assert_eq!(trim("a "), "a");
}

#[test]
fn trim_agrees_with_std() {
    let samples = [
        "",
        " ",
        "x",
        "  x  ",
        "\tquit\n",
        " a  b ",
        "\u{2003}wide\u{2003}",
        "é ",
        " \u{200B} ",
        "line one\nline two\n",
    ];
    for s in samples {
        assert_eq!(trim(s), s.trim(), "sample {:?}", s);
    }
}

#[test]
fn blank_is_all_whitespace() {
    assert!(blank(""));
    assert!(blank("   "));
    assert!(blank("\t\r\n"));
    assert!(!blank(" x "));
    assert!(!blank("{}"));
    for s in ["", " ", "a", " a", "\u{A0}", "\u{200B}"] {
        assert_eq!(blank(s), s.trim().is_empty(), "sample {:?}", s);
    }
}

#[test]
fn ascii_case_is_ignored() {
    assert!(eq_ignore_ascii_case("exit", "exit"));
    assert!(eq_ignore_ascii_case("EXIT", "exit"));
    assert!(eq_ignore_ascii_case("eXiT", "ExIt"));
    assert!(!eq_ignore_ascii_case("exit", "exits"));
    assert!(!eq_ignore_ascii_case("exit", "quit"));
    assert!(!eq_ignore_ascii_case("", "a"));
    assert!(eq_ignore_ascii_case("", ""));
}

#[test]
fn only_ascii_case_is_ignored() {
    assert!(!eq_ignore_ascii_case("É", "é"));
    assert!(!eq_ignore_ascii_case("@", "`"));
    assert!(!eq_ignore_ascii_case("[", "{"));
    for (a, b) in [("Quit", "qUIT"), ("a1", "A1"), ("ß", "SS"), ("k", "\u{212A}")] {
        assert_eq!(eq_ignore_ascii_case(a, b), a.eq_ignore_ascii_case(b), "{:?} {:?}", a, b);
    }
}

#[test]
fn same_text_is_equality() {
    assert!(same_text("done", "done"));
    assert!(!same_text("done", "Done"));
    assert!(!same_text("done", "don"));
    assert!(same_text("", ""));
}

#[test]
fn chars_round_trip() {
    let chars = chars_of("héllo\n");
    assert_eq!(chars, vec!['h', 'é', 'l', 'l', 'o', '\n']);
    assert_eq!(string_from_chars(&chars), "héllo\n");
    assert_eq!(string_from_chars(&Vec::new()), "");
}
