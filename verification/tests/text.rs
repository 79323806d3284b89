use smellytype::text::{
    char_is_control, char_is_whitespace, chars_of, push_decimal, push_decimal_signed,
    str_contains, str_has_control, str_is_blank,
};

#[test]
fn decimal_rendering_matches_the_standard_library() {
    for n in [0u64, 7, 10, 99, 100, 403, 20000000, u64::MAX] {
        let mut s = String::from("x=");
        push_decimal(&mut s, n);
        assert_eq!(s, format!("x={}", n));
    }
    for n in [0i64, -7, 45000001, i64::MIN, i64::MAX] {
        let mut s = String::new();
        push_decimal_signed(&mut s, n);
        assert_eq!(s, n.to_string());
    }
}

#[test]
fn character_classes_match_the_standard_library() {
    for u in 0u32..0x3100 {
        if let Some(c) = char::from_u32(u) {
            assert_eq!(char_is_control(c), c.is_control(), "U+{u:04X}");
            assert_eq!(char_is_whitespace(c), c.is_whitespace(), "U+{u:04X}");
        }
    }
    for s in ["", " \t\n", "\u{3000}x", "a"] {
        assert_eq!(str_is_blank(s), s.trim().is_empty());
    }
    assert!(str_has_control("a\u{9f}"));
    assert!(!str_has_control("你好 world"));
}

#[test]
fn substring_search() {
    assert!(str_contains("open /dev/uinput: denied", "uinput"));
    assert!(str_contains("abc", ""));
    assert!(!str_contains("ab", "abc"));
    assert!(str_contains("ababc", "abc"));
    assert!(!str_contains("Permission", "permission"));
    assert_eq!(chars_of("你a"), vec!['你', 'a']);
}
