use query_monitor::text::{
    chars_of, contains_chars, count_lines, is_blank_chars, is_whitespace_char, lex_lt_chars,
    slice_of, split_lines, starts_with_chars, str_lt, string_of, trim_bounds, trim_chars,
};

fn cs(s: &str) -> Vec<char> {
    s.chars().collect()
}

#[test]
fn strings_and_characters_convert_both_ways() {
    assert_eq!(chars_of("héllo"), vec!['h', 'é', 'l', 'l', 'o']);
    assert_eq!(chars_of(""), Vec::<char>::new());
    assert_eq!(string_of(&vec!['a', 'ß', 'c']), "aßc");
    assert_eq!(string_of(&Vec::new()), "");
}

#[test]
fn white_space_is_what_unicode_says() {
    for c in [' ', '\t', '\n', '\r', '\u{0B}', '\u{0C}', '\u{85}', '\u{A0}', '\u{1680}',
        '\u{2000}', '\u{200A}', '\u{2028}', '\u{2029}', '\u{202F}', '\u{205F}', '\u{3000}']
    {
        assert!(is_whitespace_char(c));
    }
    for c in ['a', '0', '\u{200B}', '\u{1F}', '\u{08}', '\u{0E}', '\u{2060}', '_'] {
        assert!(!is_whitespace_char(c));
    }
    let mut n: u32 = 0;
    while n < 0x3100 {
        if let Some(c) = char::from_u32(n) {
            assert_eq!(is_whitespace_char(c), c.is_whitespace());
        }
        n += 1;
    }
}

#[test]
fn trimming_drops_white_space_at_both_ends() {
    assert_eq!(trim_chars(&cs("  a b \n")), cs("a b"));
    assert_eq!(trim_chars(&cs("a")), cs("a"));
    assert_eq!(trim_chars(&cs(" \t ")), cs(""));
    assert_eq!(trim_chars(&cs("")), cs(""));
    assert_eq!(trim_bounds(&cs("  ab ")), (2, 4));
    assert_eq!(trim_bounds(&cs("   ")), (3, 3));
    assert!(is_blank_chars(&cs(" \r\n\t")));
    assert!(is_blank_chars(&cs("")));
    assert!(!is_blank_chars(&cs(" . ")));
    assert_eq!(slice_of(&cs("abcdef"), 2, 4), cs("cd"));
}

#[test]
fn trimming_agrees_with_std() {
    let samples = ["", " ", "a", " a", "a ", "\t a b \r\n", "\u{A0}x\u{3000}", "\u{200B} x", "x\u{85}",
        "  \n  ", "\u{1680}\u{2028}", "a\u{205F}\u{202F}b"];
    for s in samples {
        assert_eq!(string_of(&trim_chars(&cs(s))), s.trim());
        assert_eq!(is_blank_chars(&cs(s)), s.trim().is_empty());
    }
}

#[test]
fn prefix_and_substring_are_found() {
    assert!(starts_with_chars(&cs("[-- Batch Command 1]"), &cs("[-- Batch Command")));
    assert!(!starts_with_chars(&cs(" [-- Batch Command 1]"), &cs("[-- Batch Command")));
    assert!(!starts_with_chars(&cs("[--"), &cs("[-- Batch Command")));
    assert!(starts_with_chars(&cs("abc"), &cs("")));
    assert!(contains_chars(&cs("hello world"), &cs("o w")));
    assert!(contains_chars(&cs("hello"), &cs("hello")));
    assert!(contains_chars(&cs("hello"), &cs("")));
    assert!(contains_chars(&cs(""), &cs("")));
    assert!(contains_chars(&cs("aab"), &cs("ab")));
    assert!(!contains_chars(&cs("hello"), &cs("hellp")));
    assert!(!contains_chars(&cs("hi"), &cs("hello")));
}

#[test]
fn strings_are_ordered_as_std_orders_them() {
    let samples = ["", "a", "ab", "b", "B", "2024-01-02T10:00:00Z", "2024-01-02T09:59:59Z",
        "é", "z", "日本", "a\u{10FFFF}", "aa"];
    for a in samples {
        for b in samples {
            assert_eq!(str_lt(a, b), a < b);
            assert_eq!(lex_lt_chars(&cs(a), &cs(b)), a < b);
        }
    }
}

#[test]
fn lines_are_cut_as_std_cuts_them() {
    let samples = ["", "a", "a\n", "a\nb", "a\r\nb\r\n", "\n", "\n\n", "a\n\nb", "a\r", "a\r\r\n",
        "\r\n", "x\ny\nz\n", "\r"];
    for s in samples {
        let expected: Vec<Vec<char>> = s.lines().map(|l| l.chars().collect()).collect();
        assert_eq!(split_lines(&cs(s)), expected);
        assert_eq!(count_lines(&cs(s)), expected.len());
    }
    assert_eq!(split_lines(&cs("a\r\nb")), vec![cs("a"), cs("b")]);
    assert_eq!(count_lines(&cs("a\nb\nc")), 3);
}
