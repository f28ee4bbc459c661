use neuramancy::text::{is_blank, is_white_space, trim};

#[test]
fn white_space_agrees_with_std_on_every_char() {
    for n in 0u32..=0x10FFFF {
        if let Some(c) = char::from_u32(n) {
            assert_eq!(is_white_space(c), c.is_whitespace(), "U+{n:04X}");
        }
    }
}

#[test]
fn trim_agrees_with_std() {
    for s in ["", "   ", "  a b  ", "\u{3000}x\u{85}", "x", " \t\nhello world\r\n ", "\u{200B}a\u{200B}"] {
        assert_eq!(trim(s), s.trim());
    }
}

#[test]
fn blank_texts() {
    assert!(is_blank(""));
    assert!(is_blank(" \u{2003}\t"));
    assert!(!is_blank(" a "));
    assert!(!is_blank("\u{200B}"));
}
