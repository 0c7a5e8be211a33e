use exam_extract::text::{matches_candidate_pattern, parses_as_u32, str_contains, trim_str};

#[test]
fn trim_removes_surrounding_whitespace() {
    assert_eq!(trim_str("  a b  "), "a b");
    assert_eq!(trim_str("\t\n x \r\n"), "x");
    assert_eq!(trim_str("abc"), "abc");
    assert_eq!(trim_str("   "), "");
    assert_eq!(trim_str(""), "");
}

#[test]
fn contains_finds_substrings() {
    assert!(str_contains("angka giliran", "angka"));
    assert!(str_contains("angka giliran", "giliran"));
    assert!(str_contains("tahap cefr:", ":"));
    assert!(str_contains("abc", ""));
    assert!(!str_contains("angka", "giliran"));
    assert!(!str_contains("", "a"));
    assert!(!str_contains("gre", "gred"));
}

#[test]
fn u32_literal_recognition_matches_parse() {
    for s in ["1103", "0", "+7", "4294967295", "007"] {
        assert!(parses_as_u32(s), "{s}");
        assert!(s.parse::<u32>().is_ok(), "{s}");
    }
    for s in ["", "+", "-1", "12a", "4294967296", "1 2", "１２３"] {
        assert!(!parses_as_u32(s), "{s}");
        assert!(s.parse::<u32>().is_err(), "{s}");
    }
}

#[test]
fn candidate_pattern_shape() {
    assert!(matches_candidate_pattern("wl123d456"));
    assert!(matches_candidate_pattern("wl000d000"));
    assert!(!matches_candidate_pattern("WL123D456"));
    assert!(!matches_candidate_pattern("wl123d45"));
    assert!(!matches_candidate_pattern("wl123d4567"));
    assert!(!matches_candidate_pattern("wl12ad456"));
    assert!(!matches_candidate_pattern("xl123d456"));
}
