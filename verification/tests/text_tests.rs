use canicasbrawl::text::{
    chars_of, decimal_string, find_char, find_text, is_whitespace, parse_i32, parse_u64,
    parse_usize, push_signed_decimal, split_on, split_whitespace, string_of, text_eq, trim,
};

#[test]
fn whitespace_matches_std_for_every_char() {
    for u in 0u32..=0x10ffff {
        if let Some(c) = char::from_u32(u) {
            assert_eq!(is_whitespace(c), c.is_whitespace(), "U+{:04X}", u);
        }
    }
}

#[test]
fn chars_round_trip() {
    let s = "añb👑c";
    let v = chars_of(s);
    assert_eq!(v, vec!['a', 'ñ', 'b', '👑', 'c']);
    assert_eq!(string_of(&v), s);
}

#[test]
fn text_eq_compares_characters() {
    assert!(text_eq("--seed", "--seed"));
    assert!(!text_eq("--seed", "--seeds"));
    assert!(!text_eq("abc", "abd"));
    assert!(text_eq("", ""));
}

#[test]
fn trim_matches_std() {
    for s in ["", "   ", " a ", "\t goku \n", "a b", "\u{3000}x\u{2028}", "x"] {
        assert_eq!(trim(s), s.trim());
    }
}

#[test]
fn split_on_matches_std() {
    for s in ["", ",", "a,b", "a,,b,", " goku , bart,finn", "one"] {
        let expected: Vec<String> = s.split(',').map(|p| p.to_string()).collect();
        assert_eq!(split_on(s, ','), expected);
    }
}

#[test]
fn split_whitespace_matches_std() {
    for s in ["", "   ", "freeze 3 0.125 -1.500 2", "  module  zigzag\t-0.6 42 ", "a\u{00a0}b"] {
        let expected: Vec<String> = s.split_whitespace().map(|p| p.to_string()).collect();
        assert_eq!(split_whitespace(s), expected);
    }
}

#[test]
fn parse_u64_matches_std() {
    for s in [
        "", "+", "-", "0", "+12", "-1", "12345", "18446744073709551615", "18446744073709551616",
        "1_0", " 1", "1 ", "007", "99999999999999999999999",
    ] {
        assert_eq!(parse_u64(s), s.parse::<u64>().ok(), "{:?}", s);
        assert_eq!(parse_usize(s), s.parse::<usize>().ok(), "{:?}", s);
    }
}

#[test]
fn parse_i32_matches_std() {
    for s in [
        "", "-", "+", "0", "-0", "42", "-42", "+42", "2147483647", "2147483648", "-2147483648",
        "-2147483649", "--1", "+-1", "R35",
    ] {
        assert_eq!(parse_i32(s), s.parse::<i32>().ok(), "{:?}", s);
    }
}

#[test]
fn decimal_text_is_display() {
    for n in [0u64, 7, 10, 12345, u64::MAX] {
        assert_eq!(decimal_string(n), n.to_string());
        assert_eq!(parse_u64(&decimal_string(n)), Some(n));
    }
    for n in [0i32, -1, 35, i32::MIN, i32::MAX] {
        let mut s = String::new();
        push_signed_decimal(&mut s, n);
        assert_eq!(s, n.to_string());
        assert_eq!(parse_i32(&s), Some(n));
    }
}

#[test]
fn finds_first_occurrences() {
    let v = chars_of("platform|r45|w1.5");
    assert_eq!(find_char(&v, '|'), Some(8));
    assert_eq!(find_char(&v, 'z'), None);
    assert_eq!(find_text(&v, &chars_of("|w")), Some(12));
    assert_eq!(find_text(&v, &chars_of("|x")), None);
    assert_eq!(find_text(&v, &chars_of("")), Some(0));
}
