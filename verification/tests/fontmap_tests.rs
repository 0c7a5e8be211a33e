use exam_extract::fontmap::{FontCache, FontMap};

fn utf16be(s: &str) -> Vec<u8> {
    s.encode_utf16().flat_map(|u| u.to_be_bytes()).collect()
}

#[test]
fn decode_present_code_returns_table_text() {
    let fm = FontMap::from_pairs(vec![(65, utf16be("X")), (66, utf16be("Yz"))]);
    assert_eq!(fm.decode_code(65), Some("X".to_string()));
    assert_eq!(fm.decode_code(66), Some("Yz".to_string()));
}

#[test]
fn decode_absent_code_is_reported() {
    let fm = FontMap::from_pairs(vec![(65, utf16be("X"))]);
    assert_eq!(fm.decode_code(66), None);
    assert_eq!(FontMap::from_pairs(vec![]).decode_code(0), None);
}

#[test]
fn decode_ill_formed_entry_falls_back_to_empty() {
    // An unpaired high surrogate is not valid UTF-16BE.
    let fm = FontMap::from_pairs(vec![(7, vec![0xD8, 0x00])]);
    assert_eq!(fm.decode_code(7), Some(String::new()));
}

#[test]
fn repeated_code_keeps_last_pair() {
    let fm = FontMap::from_pairs(vec![(1, utf16be("a")), (1, utf16be("b"))]);
    assert_eq!(fm.decode_code(1), Some("b".to_string()));
    assert_eq!(fm.len(), 1);
}

#[test]
fn cache_keeps_first_map_per_name() {
    let mut cache = FontCache::new();
    cache.add_font("F1".to_string(), FontMap::from_pairs(vec![(1, utf16be("a"))]));
    cache.add_font("F1".to_string(), FontMap::from_pairs(vec![(1, utf16be("b"))]));
    let fm = cache.lookup(&"F1".to_string()).expect("F1 cached");
    assert_eq!(fm.decode_code(1), Some("a".to_string()));
    assert!(cache.lookup(&"F2".to_string()).is_none());
}
