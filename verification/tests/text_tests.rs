use packard::text::{char_is_whitespace, str_eq};

#[test]
fn white_space_is_what_char_is_whitespace_says() {
    for n in 0u32..=0x10FFFF {
        if let Some(c) = char::from_u32(n) {
            assert_eq!(char_is_whitespace(c), c.is_whitespace(), "{:#x}", n);
        }
    }
}

#[test]
fn strings_are_equal_when_their_characters_are() {
    assert!(str_eq("", ""));
    assert!(str_eq("héllo", "héllo"));
    assert!(!str_eq("hello", "hellO"));
    assert!(!str_eq("abc", "ab"));
    assert!(!str_eq("", "a"));
}
