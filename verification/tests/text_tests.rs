use spottedcat::surface::{parse_present_mode, PresentMode};
use spottedcat::text::{is_control, is_whitespace};

#[test]
fn character_classes_agree_with_std_on_every_char() {
    for code in 0u32..=0x10ffff {
        if let Some(c) = char::from_u32(code) {
            assert_eq!(is_whitespace(c), c.is_whitespace(), "white space U+{code:04X}");
            assert_eq!(is_control(c), c.is_control(), "control U+{code:04X}");
        }
    }
}

#[test]
fn trimming_removes_unicode_white_space() {
    assert_eq!(parse_present_mode("\u{3000}Fifo\u{a0}\n"), Some(PresentMode::Fifo));
    assert_eq!(parse_present_mode("\u{200b}fifo"), None);
}
