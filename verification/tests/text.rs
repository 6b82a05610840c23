use remux::text::{
    contains, ends_with, join, lines, parse_unsigned, push_decimal, push_signed, same, split,
    starts_with, to_lower, trim, trim_start_matches,
};

#[test]
fn text_is_handled_as_the_standard_library_does() {
    for s in ["", " ", "a", " a b ", "\t\nx\u{3000}", "a\r\nb\n", "\u{a0}\u{e9}\u{85}", "\n\n", "a\r", "x\ny\r\n\r\nz"] {
        assert_eq!(trim(s), s.trim());
        assert_eq!(lines(s), s.lines().collect::<Vec<&str>>());
        assert_eq!(split(s, 'a'), s.split('a').collect::<Vec<&str>>());
        assert_eq!(to_lower(&s.to_uppercase()), s.to_uppercase().to_ascii_lowercase());
        for p in ["", "a", " a", "\n", "b"] {
            assert_eq!(starts_with(s, p), s.starts_with(p));
            assert_eq!(ends_with(s, p), s.ends_with(p));
            assert_eq!(contains(s, p), s.contains(p));
            assert_eq!(same(s, p), s == p);
        }
    }
    assert_eq!(trim_start_matches("ababac", "ab"), "ac");
    assert_eq!(trim_start_matches("abc", ""), "abc");
}

#[test]
fn all_blanks_are_trimmed() {
    for c in (0..0x3100u32).filter_map(char::from_u32) {
        let s = format!("{}x{}", c, c);
        assert_eq!(trim(&s), s.trim(), "{:?}", c);
    }
}

#[test]
fn numbers_are_read_and_written() {
    for s in ["0", "7", "+7", "007", "65535", "65536", "-1", "", "+", "++1", "1 ", "1a", "\u{664}"] {
        assert_eq!(parse_unsigned(s, u16::MAX as u64), s.parse::<u16>().ok().map(|n| n as u64), "{}", s);
    }
    assert_eq!(parse_unsigned("18446744073709551615", u64::MAX), Some(u64::MAX));
    assert_eq!(parse_unsigned("18446744073709551616", u64::MAX), None);
    for n in [0i64, 5, -5, 10, i64::MAX, i64::MIN] {
        let mut out = String::new();
        push_signed(&mut out, n);
        assert_eq!(out, n.to_string());
    }
    let mut out = "n=".to_string();
    push_decimal(&mut out, u64::MAX);
    assert_eq!(out, format!("n={}", u64::MAX));
}

#[test]
fn parts_are_joined() {
    let parts: Vec<String> = ["a", "", "b"].iter().map(|s| s.to_string()).collect();
    assert_eq!(join(&parts, ", "), "a, , b");
    assert_eq!(join(&Vec::new(), ", "), "");
}
