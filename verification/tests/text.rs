use d2s::text::{
    comes_before, decimal_text, lines, take_chars, trim, trim_end_char, trim_start_char, white,
};

#[test]
fn white_space_is_that_of_unicode() {
    for c in '\0'..=char::MAX {
        assert_eq!(white(c), c.is_whitespace(), "{:?}", c);
    }
}

#[test]
fn trim_agrees_with_std() {
    for s in ["", " ", " a ", "\t\u{2003}a b\r\n", "a", "\u{feff}a", "\u{200b}a\u{2029}"] {
        assert_eq!(trim(s), s.trim());
    }
}

#[test]
fn trimming_a_character_agrees_with_std() {
    for s in ["", "[", "[[a[b]]", "a", "]]", "/x//", "//x"] {
        assert_eq!(trim_start_char(s, '['), s.trim_start_matches('['));
        assert_eq!(trim_end_char(s, ']'), s.trim_end_matches(']'));
        assert_eq!(trim_start_char(s, '/'), s.trim_start_matches('/'));
    }
}

#[test]
fn lines_agree_with_std() {
    for s in ["", "\n", "a", "a\n", "a\r\nb", "a\rb\n\nc\r", "\r\n\r\n", "x\r\r\ny", "\r"] {
        let expected: Vec<String> = s.lines().map(String::from).collect();
        assert_eq!(lines(s), expected, "{:?}", s);
    }
}

#[test]
fn decimal_agrees_with_std() {
    for n in [0, 1, 9, 10, 99, 100, 65535, 4294967295, u64::MAX] {
        assert_eq!(decimal_text(n), n.to_string());
    }
}

#[test]
fn order_agrees_with_std() {
    let all = ["", "a", "ab", "b", "B", "\u{e9}", "\u{ffff}", "\u{10000}", "a\0", "aa"];
    for a in all {
        for b in all {
            assert_eq!(comes_before(a, b), a < b, "{:?} {:?}", a, b);
        }
    }
}

#[test]
fn a_short_text_is_taken_whole() {
    assert_eq!(take_chars("abc", 12), "abc");
    assert_eq!(take_chars("0123456789abcdef", 12), "0123456789ab");
    assert_eq!(take_chars("\u{e9}\u{e8}\u{ea}", 2), "\u{e9}\u{e8}");
}
