use lunar::number::{parse_i32_range, push_decimal, push_hex16, push_i32};

fn parse(s: &str) -> Option<i32> {
    let v: Vec<char> = s.chars().collect();
    parse_i32_range(&v, 0, v.len())
}

fn text(v: Vec<char>) -> String {
    v.into_iter().collect()
}

#[test]
fn parses_like_str_parse() {
    for s in ["0", "-0", "+5", "-12", "007", "2147483647", "-2147483648", "", "-", "+", "1a", " 1", "2147483648", "-2147483649", "99999999999999999999", "+-1", "١"] {
        assert_eq!(parse(s), s.parse::<i32>().ok(), "{s}");
    }
}

#[test]
fn formats_like_display() {
    for x in [0, 7, -7, 10, 1234567, i32::MAX, i32::MIN] {
        let mut v = Vec::new();
        push_i32(x, &mut v);
        assert_eq!(text(v), x.to_string());
    }
    let mut v = vec!['x'];
    push_decimal(u128::MAX, &mut v);
    assert_eq!(text(v), format!("x{}", u128::MAX));
}

#[test]
fn formatted_i32_parses_back() {
    for x in [0, 1, -1, 42, i32::MAX, i32::MIN, -1000000] {
        let mut v = Vec::new();
        push_i32(x, &mut v);
        assert_eq!(parse_i32_range(&v, 0, v.len()), Some(x));
    }
}

#[test]
fn hex_is_zero_padded_lower_case() {
    let mut v = Vec::new();
    push_hex16(0xDEADBEEF, &mut v);
    assert_eq!(text(v), "00000000deadbeef");
}
