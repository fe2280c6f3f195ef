use lunar::text::{
    chars_of, contains_str, find_char, is_white_space, rfind_char, str_eq_ignore_ascii_case, trim_bounds,
};

fn trimmed(s: &str, quotes: bool) -> String {
    let v = chars_of(s);
    let (a, b) = trim_bounds(&v, 0, v.len(), quotes);
    v[a..b].iter().collect()
}

#[test]
fn trims_like_std() {
    for s in ["", "  a b  ", "\t\n x\u{3000}", "\u{a0}y\u{2003}", "none"] {
        assert_eq!(trimmed(s, false), s.trim());
    }
    for s in ["\"\"a\"", "\"", "b", "\" c \""] {
        assert_eq!(trimmed(s, true), s.trim_matches('"'));
    }
}

#[test]
fn finds_first_and_last() {
    let v = chars_of("a,b,c");
    assert_eq!(find_char(&v, 0, v.len(), ','), Some(1));
    assert_eq!(find_char(&v, 2, v.len(), ','), Some(3));
    assert_eq!(rfind_char(&v, 0, v.len(), ','), Some(3));
    assert_eq!(rfind_char(&v, 0, 3, ','), Some(1));
    assert_eq!(find_char(&v, 0, v.len(), ';'), None);
}

#[test]
fn compares_ignoring_ascii_case_only() {
    assert!(str_eq_ignore_ascii_case("NotePad", "notepad"));
    assert!(!str_eq_ignore_ascii_case("Ä", "ä"));
    assert!(!str_eq_ignore_ascii_case("abc", "abcd"));
    assert!(str_eq_ignore_ascii_case("此电脑", "此电脑"));
}

#[test]
fn contains_substrings() {
    assert!(contains_str("KB123 Security Update", "Security Update"));
    assert!(!contains_str("Security Updat", "Security Update"));
    assert!(contains_str("x", ""));
    assert!(!contains_str("", "x"));
}

#[test]
fn white_space_matches_std_on_every_char() {
    for code in 0..=0x10FFFFu32 {
        if let Some(c) = char::from_u32(code) {
            assert_eq!(is_white_space(c), c.is_whitespace(), "U+{code:04X}");
        }
    }
}
