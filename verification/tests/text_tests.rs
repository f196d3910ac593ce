use rung_cli::text::{
    chars_of, decimal_chars, has_infix_chars, is_blank_chars, is_whitespace, join_chars,
    lines_chars, split_chars, string_of, trim_chars, trim_end_chars, trim_start_chars,
    words_chars,
};

fn v(s: &str) -> Vec<char> {
    s.chars().collect()
}

fn strings(parts: Vec<Vec<char>>) -> Vec<String> {
    parts.into_iter().map(|p| p.into_iter().collect()).collect()
}

#[test]
fn chars_round_trip() {
    let cs = chars_of("héllo 👈");
    assert_eq!(cs, v("héllo 👈"));
    assert_eq!(string_of(&cs), "héllo 👈");
}

#[test]
fn whitespace_matches_std() {
    for c in ['\t', '\n', '\u{b}', '\u{c}', '\r', ' ', '\u{85}', '\u{a0}', '\u{1680}', '\u{2000}',
        '\u{200a}', '\u{2028}', '\u{2029}', '\u{202f}', '\u{205f}', '\u{3000}', 'a', '\u{200b}',
        '\u{feff}', '_', '0']
    {
        assert_eq!(is_whitespace(c), c.is_whitespace(), "{:?}", c);
    }
}

#[test]
fn trims() {
    assert_eq!(string_of(&trim_start_chars(&v("  a b  "))), "a b  ");
    assert_eq!(string_of(&trim_end_chars(&v("  a b  "))), "  a b");
    assert_eq!(string_of(&trim_chars(&v("\t a b \u{3000}"))), "a b");
    assert_eq!(string_of(&trim_chars(&v("   "))), "");
    assert!(is_blank_chars(&v(" \t ")));
    assert!(is_blank_chars(&v("")));
    assert!(!is_blank_chars(&v(" x ")));
}

#[test]
fn split_keeps_empty_pieces() {
    assert_eq!(strings(split_chars(&v("a/b//c/"), '/')), vec!["a", "b", "", "c", ""]);
    assert_eq!(strings(split_chars(&v(""), '/')), vec![""]);
}

#[test]
fn lines_like_std() {
    for s in ["", "\n", "a", "a\n", "a\r\nb\n", "a\n\nb", "foo\r", "x\r\n\r\ny\r\n", "\r\n"] {
        let ours = strings(lines_chars(&v(s)));
        let theirs: Vec<String> = s.lines().map(|l| l.to_string()).collect();
        assert_eq!(ours, theirs, "{:?}", s);
    }
}

#[test]
fn words_like_std() {
    for s in ["", "   ", "a", " a  bc\td ", "add user auth"] {
        let ours = strings(words_chars(&v(s)));
        let theirs: Vec<String> = s.split_whitespace().map(|w| w.to_string()).collect();
        assert_eq!(ours, theirs, "{:?}", s);
    }
}

#[test]
fn join_with_separator() {
    let parts = vec![v("a"), v("b"), v("c")];
    assert_eq!(string_of(&join_chars(&parts, &v(", "))), "a, b, c");
    assert_eq!(string_of(&join_chars(&Vec::new(), &v(", "))), "");
    assert_eq!(string_of(&join_chars(&vec![v("x")], &v(", "))), "x");
}

#[test]
fn decimal_numerals() {
    assert_eq!(string_of(&decimal_chars(0)), "0");
    assert_eq!(string_of(&decimal_chars(7)), "7");
    assert_eq!(string_of(&decimal_chars(1234)), "1234");
    assert_eq!(string_of(&decimal_chars(u64::MAX)), u64::MAX.to_string());
}

#[test]
fn infix_search() {
    assert!(has_infix_chars(&v("x <!-- rung-stack --> y"), &v("<!-- rung-stack -->")));
    assert!(!has_infix_chars(&v("<!-- rung-stac -->"), &v("<!-- rung-stack -->")));
    assert!(has_infix_chars(&v("abc"), &v("")));
    assert!(!has_infix_chars(&v("ab"), &v("abc")));
}

