use shield_optimizer::text::{
    contains_text, decimal_text, find_first, find_last, join_texts, list_items, parse_unsigned,
    replace_char, split_text, starts_with, to_ascii_lower, trim,
};

#[test]
fn texts_are_taken_apart_like_this() {
    assert_eq!(split_text("a,,b,", ','), ["a", "", "b", ""]);
    assert_eq!(split_text("", ','), [""]);
    assert_eq!(list_items(" a ,, b ", ','), ["a", "b"]);
    assert_eq!(trim("\u{2003}\t x y \u{a0}\n"), "x y");
    assert_eq!(trim("\u{200b}x"), "\u{200b}x");
    assert_eq!(find_first("été", 'é'), Some(0));
    assert_eq!(find_last("été", 'é'), Some(2));
    assert_eq!(find_last("été", 'x'), None);
}

#[test]
fn white_space_is_what_the_standard_library_trims() {
    for code in 0..0x11_0000 {
        if let Some(c) = char::from_u32(code) {
            let text = format!("{c}x{c}");
            if trim(&text) != text.trim() {
                panic!("{code:x}");
            }
        }
    }
}

#[test]
fn numbers_are_read_and_written_like_this() {
    assert_eq!(decimal_text(0), "0");
    assert_eq!(decimal_text(u64::MAX), u64::MAX.to_string());
    for text in ["0", "+7", "255", "256", "00255", "-0", "", "+", "1 ", "٣", "99999999999999999999"] {
        assert_eq!(
            parse_unsigned(text, 255),
            text.parse::<u8>().ok().map(u32::from),
            "{text:?}"
        );
        assert_eq!(
            parse_unsigned(text, 65535),
            text.parse::<u16>().ok().map(u32::from),
            "{text:?}"
        );
    }
}

#[test]
fn texts_are_searched_and_changed_like_this() {
    assert!(contains_text("abcabd", "abd") && contains_text("x", "") && !contains_text("ab", "abc"));
    assert!(starts_with("adb-x", "adb-") && !starts_with("xadb-", "adb-"));
    assert_eq!(to_ascii_lower("ÄBC-É"), "Äbc-É");
    assert_eq!(replace_char("a'b'", '\'', "''"), "a''b''");
    assert_eq!(join_texts(&["a".to_string(), "b".to_string()], ", "), "a, b");
    assert_eq!(join_texts(&[], ", "), "");
}
