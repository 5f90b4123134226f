use singbox_commander::text::{
    find, from_chars, join, joined, number_text, parse_number, rfind, same_ignoring_case, same_text, skip, split,
    starts_with, starts_with_ignoring_case, strip_prefix, strip_prefixes, to_ascii_lower, to_chars, trim, trim_end,
    until, white_space,
};

#[test]
fn every_character() {
    for u in 0u32..=0x10ffff {
        if let Some(c) = char::from_u32(u) {
            assert_eq!(white_space(c), c.is_whitespace(), "{:?}", c);
            assert_eq!(to_ascii_lower(c), c.to_ascii_lowercase(), "{:?}", c);
        }
    }
}

#[test]
fn trimming() {
    for s in ["", " ", "a", " a b\t", "\u{3000}x\u{a0}\r\n", "\u{200b}x"] {
        assert_eq!(trim(s), s.trim());
        assert_eq!(trim_end(s), s.trim_end());
    }
}

#[test]
fn searching() {
    for s in ["", "a", "a#b#c", "#", "东#京#"] {
        assert_eq!(find(s, '#'), s.chars().position(|c| c == '#'));
        let last = s.chars().rev().position(|c| c == '#').map(|p| s.chars().count() - 1 - p);
        assert_eq!(rfind(s, '#'), last);
        assert_eq!(until(s, '#'), s.split('#').next().unwrap());
        let parts: Vec<String> = s.split('#').map(|p| p.to_string()).collect();
        assert_eq!(split(s, '#'), parts);
        assert_eq!(join(&parts, "#"), s);
    }
}

#[test]
fn prefixes() {
    assert!(starts_with("abc", "ab"));
    assert!(!starts_with("a", "ab"));
    assert!(starts_with("a", ""));
    assert!(starts_with_ignoring_case("VLess://x", "vless://"));
    assert!(!starts_with_ignoring_case("vles", "vless://"));
    assert_eq!(strip_prefix("abc", "ab").as_deref(), Some("c"));
    assert_eq!(strip_prefix("abc", "b"), None);
    assert_eq!(strip_prefixes("ababac", "ab"), "ac");
    assert_eq!(skip("东京x", 1), "京x");
    assert_eq!(joined("a", "b"), "ab");
}

#[test]
fn comparing() {
    assert!(same_text("东", "东"));
    assert!(!same_text("a", "b"));
    assert!(!same_text("a", "ab"));
    assert!(same_ignoring_case("aBé", "Abé"));
    assert!(!same_ignoring_case("é", "É"));
    assert!(!same_ignoring_case("a", "aa"));
}

#[test]
fn decimal_numbers() {
    for n in [0u64, 9, 10, 99, 100, 65535, u64::MAX] {
        assert_eq!(number_text(n), n.to_string());
        assert_eq!(parse_number(&n.to_string(), u64::MAX), Some(n));
    }
    for s in ["", "+", "-1", "+5", "007", "65535", "65536", "1 ", "1a", "99999999999999999999999", "++1"] {
        assert_eq!(parse_number(s, 65535).map(|n| n as u16), s.parse::<u16>().ok(), "{}", s);
        assert_eq!(parse_number(s, u64::MAX), s.parse::<u64>().ok(), "{}", s);
    }
}

#[test]
fn characters() {
    let chars = to_chars("a东b");
    assert_eq!(chars, vec!['a', '东', 'b']);
    assert_eq!(from_chars(&chars, 1, 3), "东b");
}
