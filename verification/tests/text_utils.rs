use soup_ui::strutil::{
    byte_idx, byte_idx_of, char_is_ascii_alphabetic, char_is_ascii_digit, char_is_control,
    char_is_white_space, char_is_word, char_len, chars_of, digit_count, string_of, sub_vec,
    substr, substr_from,
};

#[test]
fn char_len_counts_characters_not_bytes() {
    assert_eq!(char_len(""), 0);
    assert_eq!(char_len("héllo"), 5);
    assert_eq!(char_len("日本"), 2);
}

#[test]
fn byte_idx_maps_columns_to_byte_offsets() {
    let s = "aé日😀b";
    assert_eq!(byte_idx(s, 0), 0);
    assert_eq!(byte_idx(s, 1), 1);
    assert_eq!(byte_idx(s, 2), 3);
    assert_eq!(byte_idx(s, 3), 6);
    assert_eq!(byte_idx(s, 4), 10);
    assert_eq!(byte_idx(s, 5), s.len());
    assert_eq!(byte_idx(s, 99), s.len());
    assert_eq!(byte_idx_of(s, 2), 3);
}

#[test]
fn substr_clamps() {
    assert_eq!(substr("héllo", 1, 3), "él");
    assert_eq!(substr("héllo", 3, 1), "");
    assert_eq!(substr("héllo", 2, 99), "llo");
    assert_eq!(substr("héllo", 9, 12), "");
    assert_eq!(substr_from("héllo", 1), "éllo");
    assert_eq!(substr_from("héllo", 7), "");
    assert_eq!(sub_vec(&chars_of("abc"), 1, 2), vec!['b']);
}

#[test]
fn digit_count_is_at_least_two() {
    assert_eq!(digit_count(0), 2);
    assert_eq!(digit_count(9), 2);
    assert_eq!(digit_count(10), 2);
    assert_eq!(digit_count(99), 2);
    assert_eq!(digit_count(100), 3);
    assert_eq!(digit_count(123_456), 6);
    assert_eq!(digit_count(usize::MAX), usize::MAX.to_string().len());
}

#[test]
fn chars_round_trip() {
    let v = chars_of("a日b");
    assert_eq!(v, vec!['a', '日', 'b']);
    assert_eq!(string_of(&v), "a日b");
}

#[test]
fn character_classes() {
    for c in ['\t', '\n', ' ', '\u{a0}', '\u{2003}', '\u{3000}', '\u{85}'] {
        assert!(char_is_white_space(c));
        assert_eq!(char_is_white_space(c), c.is_whitespace());
    }
    for c in ['a', '_', '\u{200b}', '\u{feff}'] {
        assert_eq!(char_is_white_space(c), c.is_whitespace());
    }
    for c in ['\0', '\u{1f}', '\u{7f}', '\u{9f}', 'a', '\u{a0}'] {
        assert_eq!(char_is_control(c), c.is_control());
    }
    assert!(char_is_ascii_digit('7'));
    assert!(!char_is_ascii_digit('a'));
    assert!(char_is_ascii_alphabetic('Z'));
    assert!(!char_is_ascii_alphabetic('é'));
    assert!(char_is_word('é'));
    assert!(char_is_word('_'));
    assert!(char_is_word('7'));
    assert!(!char_is_word('-'));
}

#[test]
fn white_space_matches_std_on_all_chars() {
    for u in 0u32..0x3100 {
        if let Some(c) = char::from_u32(u) {
            assert_eq!(char_is_white_space(c), c.is_whitespace(), "{:x}", u);
            assert_eq!(char_is_control(c), c.is_control(), "{:x}", u);
        }
    }
}
