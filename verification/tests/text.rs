use fan_controller::text::{
    chars_of, decimal, is_white_space, padded_hex, spells, spells_in_any_case, split_at_each,
    text_of, to_ascii_lower, trim,
};

#[test]
fn white_space_is_that_of_unicode() {
    for code in 0..=0x10FFFFu32 {
        if let Some(c) = char::from_u32(code) {
            assert_eq!(is_white_space(c), c.is_whitespace(), "{code:x}");
            assert_eq!(to_ascii_lower(c), c.to_ascii_lowercase(), "{code:x}");
        }
    }
}

#[test]
fn trims_both_ends() {
    for text in ["", " ", "a", " a ", "\t\u{3000}a b\r\n", "a\u{a0}", "\u{200b}a", "  \n "] {
        let inner: String = trim(text).into_iter().collect();
        assert_eq!(inner, text.trim());
    }
}

#[test]
fn splits_at_each_separator() {
    for text in ["", "/", "a", "a/b", "/a//b/", "fanctrl/palapa/speed/set"] {
        let pieces: Vec<String> = split_at_each(text, '/')
            .into_iter()
            .map(|piece| piece.into_iter().collect())
            .collect();
        let expected: Vec<String> = text.split('/').map(|piece| piece.to_string()).collect();
        assert_eq!(pieces, expected);
    }
}

#[test]
fn compares_texts() {
    let chars = chars_of("Forward");
    assert!(spells(&chars, "Forward"));
    assert!(!spells(&chars, "forward"));
    assert!(spells_in_any_case(&chars, "fORWARD"));
    assert!(!spells_in_any_case(&chars, "forwar"));
    assert!(!spells_in_any_case(&chars_of("\u{212a}"), "k"));
    assert_eq!(text_of(&chars), "Forward");
}

#[test]
fn writes_numerals() {
    for n in [0u64, 7, 9, 10, 99, 100, 255, 4096, u64::MAX] {
        assert_eq!(decimal(n), n.to_string());
        assert_eq!(padded_hex(n, 5), format!("{n:05X}"));
        assert_eq!(padded_hex(n, 0), format!("{n:X}"));
    }
}
