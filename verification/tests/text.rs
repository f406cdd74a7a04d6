use sql_helper::text::{
    clip_text, decimal_text, before_dot_text, from_chars, join_texts,
    one_line_text, replace_char, same_text, span_text, text_before, to_chars, trim_text,
    unquote_text, whitespace_char,
};

#[test]
fn span_text_slices_by_byte_offsets() {
    assert_eq!(span_text("hello world", 6, 11), "world");
    assert_eq!(span_text("hello", 0, 5), "hello");
    assert_eq!(span_text("hello", 2, 2), "");
    assert_eq!(span_text("", 0, 0), "");
}

#[test]
fn span_text_counts_bytes_not_characters() {
    let s = "aé€𝄞z";
    assert_eq!(s.len(), 11);
    assert_eq!(span_text(s, 1, 3), "é");
    assert_eq!(span_text(s, 3, 6), "€");
    assert_eq!(span_text(s, 6, 10), "𝄞");
    assert_eq!(span_text(s, 1, 11), "é€𝄞z");
}

#[test]
fn span_text_is_empty_for_ranges_that_do_not_fit() {
    let s = "aé€";
    assert_eq!(span_text(s, 0, 7), "");
    assert_eq!(span_text(s, 4, 2), "");
    assert_eq!(span_text(s, 2, 3), "");
    assert_eq!(span_text(s, 1, 4), "");
    assert_eq!(span_text(s, usize::MAX, usize::MAX), "");
}

#[test]
fn trim_text_removes_unicode_whitespace_at_both_ends() {
    assert_eq!(trim_text("  a b \t\n"), "a b");
    assert_eq!(trim_text("\u{3000}\u{00A0}x\u{2003}\u{0085}"), "x");
    assert_eq!(trim_text("   "), "");
    assert_eq!(trim_text(""), "");
    assert_eq!(trim_text("x"), "x");
    assert_eq!(trim_text("\u{200B}x\u{200B}"), "\u{200B}x\u{200B}");
}

#[test]
fn whitespace_char_agrees_with_the_standard_library() {
    let mut code: u32 = 0;
    while code <= 0x3100 {
        if let Some(c) = char::from_u32(code) {
            assert_eq!(whitespace_char(c), c.is_whitespace(), "U+{:04X}", code);
        }
        code += 1;
    }
    assert!(!whitespace_char('\u{FEFF}'));
    assert!(!whitespace_char('\u{10FFFF}'));
}

#[test]
fn trim_text_agrees_with_the_standard_library() {
    for s in [" a ", "\r\n\tb\u{2028}", "\u{1680}c d\u{205F}", "\u{180E}e", "f\u{202F}"] {
        assert_eq!(trim_text(s), s.trim());
    }
}

#[test]
fn replace_char_replaces_every_occurrence() {
    assert_eq!(replace_char("a\"b\"", '"', '\''), "a'b'");
    assert_eq!(replace_char("none", 'x', 'y'), "none");
    assert_eq!(replace_char("", 'x', 'y'), "");
    assert_eq!(unquote_text("say \"hi\"\n"), "say 'hi'\n");
    assert_eq!(one_line_text("a\n\"b\"\nc"), "a 'b' c");
}

#[test]
fn before_dot_text_stops_at_the_first_dot() {
    assert_eq!(before_dot_text("a.b.c"), "a");
    assert_eq!(before_dot_text("abc"), "abc");
    assert_eq!(before_dot_text(".x"), "");
    assert_eq!(before_dot_text(""), "");
    assert_eq!(before_dot_text("System.out"), "System");
    assert_eq!(before_dot_text("é.x"), "é");
    assert_eq!(before_dot_text("make().run"), "make()");
}

#[test]
fn decimal_text_writes_numerals() {
    assert_eq!(decimal_text(0), "0");
    assert_eq!(decimal_text(9), "9");
    assert_eq!(decimal_text(10), "10");
    assert_eq!(decimal_text(1234567890), "1234567890");
    assert_eq!(decimal_text(usize::MAX), usize::MAX.to_string());
}

#[test]
fn join_texts_puts_the_separator_between_neighbours() {
    let none: Vec<String> = vec![];
    assert_eq!(join_texts(&none, ", "), "");
    assert_eq!(join_texts(&vec!["a".to_string()], ", "), "a");
    assert_eq!(
        join_texts(&vec!["a".to_string(), "".to_string(), "c".to_string()], ", "),
        "a, , c"
    );
}

#[test]
fn clip_text_keeps_short_texts_and_cuts_long_ones() {
    assert_eq!(clip_text("abcdef".to_string(), 6), "abcdef");
    assert_eq!(clip_text("abcdefg".to_string(), 6), "abc...");
    assert_eq!(clip_text("abcd".to_string(), 3), "...");
    assert_eq!(clip_text("ééééééé".to_string(), 6), "ééé...");
    assert_eq!(clip_text("".to_string(), 3), "");
}

#[test]
fn text_before_is_the_lexicographic_order() {
    assert!(text_before("a", "b"));
    assert!(!text_before("b", "a"));
    assert!(!text_before("a", "a"));
    assert!(text_before("", "a"));
    assert!(!text_before("a", ""));
    assert!(!text_before("", ""));
    assert!(text_before("ab", "abc"));
    assert!(text_before("Z", "a"));
    assert!(text_before("z", "é"));
    for (a, b) in [("héllo", "hfllo"), ("𝄞", "é"), ("abc", "abd"), ("x", "x")] {
        assert_eq!(text_before(a, b), a < b);
        assert_eq!(text_before(b, a), b < a);
    }
}

#[test]
fn same_text_compares_characters() {
    assert!(same_text("abc", "abc"));
    assert!(!same_text("abc", "abd"));
    assert!(!same_text("abc", "ab"));
    assert!(same_text("", ""));
}

#[test]
fn characters_round_trip() {
    let v = to_chars("aé𝄞");
    assert_eq!(v, vec!['a', 'é', '𝄞']);
    assert_eq!(from_chars(&v, 0, 3), "aé𝄞");
    assert_eq!(from_chars(&v, 1, 2), "é");
    assert_eq!(from_chars(&v, 2, 2), "");
}
