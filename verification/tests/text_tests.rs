use hermes_os::text::{
    chars_of, contains_text, find_text, holds_text, joined, lines_of, numeral, position_of,
    replaced, starts_with_char, string_of, text_before, text_eq, trimmed, trimmed_end, white_space,
    without_leading,
};

#[test]
fn trimming_follows_the_white_space_of_unicode() {
    for s in ["", " ", "\u{a0}a\u{3000}", "\t\r\n x y \u{85}", "\u{feff}a", "\u{200b}a\u{200b}"] {
        assert_eq!(trimmed(s), s.trim());
        assert_eq!(trimmed_end(s), s.trim_end());
    }
    for u in 0..0x3100u32 {
        if let Some(c) = char::from_u32(u) {
            assert_eq!(white_space(c), c.is_whitespace());
        }
    }
}

#[test]
fn lines_end_at_line_feeds() {
    for s in ["", "\n", "a", "a\n", "a\r\nb", "\r\n\r\n", "a\rb\n\nc\r", "é\n"] {
        let std: Vec<String> = s.lines().map(|l| l.to_string()).collect();
        assert_eq!(lines_of(s), std);
    }
    let parts = vec!["a".to_string(), "".to_string(), "b".to_string()];
    assert_eq!(joined(&parts, "\n"), "a\n\nb");
    assert_eq!(lines_of(&(joined(&parts, "\n") + "\n")), parts);
}

#[test]
fn searching_and_replacing_go_from_the_left() {
    assert_eq!(replaced("aaa", "aa", "b"), "aaa".replace("aa", "b"));
    assert_eq!(replaced("xyxyx", "xyx", "-"), "xyxyx".replace("xyx", "-"));
    assert_eq!(replaced("", "a", "b"), "");
    assert!(contains_text("abc", ""));
    assert!(contains_text("abc", "bc"));
    assert!(!contains_text("abc", "cb"));
    assert_eq!(find_text("éaé", "é"), Some(0));
    assert_eq!(find_text("aéb", "b"), Some(2));
    assert_eq!(find_text("a", "b"), None);
    assert_eq!(position_of("aéb=", '='), Some(3));
    assert_eq!(position_of("aéb", '='), None);
}

#[test]
fn numerals_are_decimal() {
    assert_eq!(numeral(0), "0");
    assert_eq!(numeral(10), "10");
    assert_eq!(numeral(u128::MAX), u128::MAX.to_string());
}

#[test]
fn texts_are_ordered_by_code_points() {
    for (a, b) in [("", "a"), ("a", "a"), ("a", "b"), ("Z", "a"), ("ab", "a"), ("é", "z"), ("\u{ffff}", "\u{10000}")] {
        assert_eq!(text_before(a, b), a < b);
        assert_eq!(text_before(b, a), b < a);
    }
}

#[test]
fn small_operations_on_texts() {
    assert!(text_eq("a", "a"));
    assert!(!text_eq("a", "b"));
    assert_eq!(without_leading("##a#", '#'), "a#");
    assert!(starts_with_char("_x", '_'));
    assert!(!starts_with_char("", '_'));
    let cs = chars_of("aéb");
    assert_eq!(string_of(&cs, 1, 3), "éb");
    let v = vec!["a".to_string()];
    assert!(holds_text(&v, "a"));
    assert!(!holds_text(&v, "b"));
}
