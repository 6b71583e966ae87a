use ptyzzz::text::{
    chars_of, has_prefix_ignoring_case, has_text, is_white_space, push_decimal, push_decimal_int,
    push_hex2, read_number, same_text, trim_bounds,
};

#[test]
fn decimals_match_std() {
    for n in [0u64, 1, 9, 10, 42, 99, 100, 65535, 1_000_000, u64::MAX] {
        let mut out = String::from("x");
        push_decimal(&mut out, n);
        assert_eq!(out, format!("x{n}"));
    }
}

#[test]
fn signed_decimals_match_std() {
    for n in [0i64, 7, -1, -10, -123, i64::MAX, i64::MIN] {
        let mut out = String::new();
        push_decimal_int(&mut out, n);
        assert_eq!(out, n.to_string());
    }
}

#[test]
fn hex_bytes_match_std() {
    for b in 0..=255u8 {
        let mut out = String::new();
        push_hex2(&mut out, b);
        assert_eq!(out, format!("{b:02x}"));
    }
}

#[test]
fn white_space_matches_std_for_every_character() {
    for n in 0..=0x10ffffu32 {
        if let Some(c) = char::from_u32(n) {
            assert_eq!(is_white_space(c), c.is_whitespace(), "U+{n:04X}");
        }
    }
}

#[test]
fn trimming_matches_std() {
    for s in ["", " ", "\t\n", "a", " a", "a ", "  a b\u{3000}", "\u{85}x\u{a0}", "é "] {
        let cs = chars_of(s);
        let (lo, hi) = trim_bounds(&cs);
        let trimmed: String = cs[lo..hi].iter().collect();
        assert_eq!(trimmed, s.trim());
        let again = chars_of(&trimmed);
        assert_eq!(trim_bounds(&again), (0, again.len()));
    }
}

#[test]
fn substring_search_matches_std() {
    for s in ["", "a", ":/", "://", "x://y", "http:/ /", "a:///", "::://"] {
        assert_eq!(has_text(s, "://"), s.contains("://"), "{s}");
        assert!(has_text(s, ""));
    }
}

#[test]
fn same_text_compares_whole_texts() {
    let cs = chars_of("Home");
    assert!(same_text(&cs, "Home"));
    assert!(!same_text(&cs, "Hom"));
    assert!(!same_text(&cs, "Homes"));
    assert!(!same_text(&cs, "home"));
}

#[test]
fn prefixes_ignore_ascii_case_only() {
    let cs = chars_of("xHTTP://é");
    assert!(has_prefix_ignoring_case(&cs, 1, cs.len(), "http://"));
    assert!(!has_prefix_ignoring_case(&cs, 0, cs.len(), "http://"));
    assert!(!has_prefix_ignoring_case(&cs, 1, 5, "http://"));
    let upper = chars_of("É");
    assert!(!has_prefix_ignoring_case(&upper, 0, 1, "é"));
}

#[test]
fn numerals_read_back() {
    for n in [0u64, 5, 24, 25, 99] {
        let mut out = String::new();
        push_decimal(&mut out, n);
        let cs = chars_of(&out);
        assert_eq!(read_number(&cs, 0, 1000), Some(n as u32));
    }
    assert_eq!(read_number(&chars_of("007"), 0, 1000), Some(7));
    assert_eq!(read_number(&chars_of("99999999999999999999"), 0, 25), Some(25));
    assert_eq!(read_number(&chars_of("1x"), 0, 25), None);
    assert_eq!(read_number(&chars_of("F12"), 1, 25), Some(12));
}
