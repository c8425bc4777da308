use prompt_compressor::text;
use prompt_compressor::text_map::TextMap;

#[test]
fn white_space_and_control_characters_are_those_of_unicode() {
    for code in 0..=0x10ffffu32 {
        if let Some(c) = char::from_u32(code) {
            assert_eq!(text::is_whitespace(c), c.is_whitespace(), "{code:x}");
            assert_eq!(text::is_control(c), c.is_control(), "{code:x}");
        }
    }
}

#[test]
fn trimming_takes_white_space_off_both_ends_once() {
    for value in ["", " ", "a", " a b ", "\u{3000}漢字\n", "\t\r\nx\u{a0}"] {
        let trimmed = text::trim(value);
        assert_eq!(trimmed, value.trim());
        assert_eq!(text::trim(&trimmed), trimmed);
    }
}

#[test]
fn maps_list_their_keys_in_order() {
    let mut map: TextMap<u32> = TextMap::new();
    for (key, value) in [("b", 2), ("あ", 4), ("a", 1), ("ab", 3)] {
        assert!(map.insert(key.to_string(), value).is_none());
    }
    assert_eq!(map.insert("b".to_string(), 5), Some(2));
    assert_eq!(map.len(), 4);
    let keys: Vec<&str> = (0..map.len()).map(|i| map.key_at(i).as_str()).collect();
    assert_eq!(keys, ["a", "ab", "b", "あ"]);
    assert_eq!(map.get("b"), Some(&5));
    assert_eq!(map.remove("a"), Some(1));
    assert_eq!(map.remove("a"), None);
    assert!(!map.contains_key("a"));
    assert_eq!(*map.key_at(0), "ab");
    assert_eq!(*map.value_at(0), 3);
}
