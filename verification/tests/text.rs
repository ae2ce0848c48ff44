use halley::text::{char_is_whitespace, char_to_uppercase, trim_string};

#[test]
fn whitespace_matches_std_for_every_char() {
    for v in 0..=0x10FFFFu32 {
        if let Some(c) = char::from_u32(v) {
            assert_eq!(char_is_whitespace(c), c.is_whitespace(), "U+{v:04X}");
        }
    }
}

#[test]
fn uppercase_of_ascii_is_ascii_uppercase() {
    for v in 0..128u8 {
        let c = v as char;
        assert_eq!(char_to_uppercase(c), vec![c.to_ascii_uppercase()]);
    }
    assert_eq!(char_to_uppercase('ß'), vec!['S', 'S']);
}

#[test]
fn trimming_matches_str_trim() {
    for s in ["  a b  ", "\u{3000}x\u{85}", "", " \t\n", "plain"] {
        assert_eq!(trim_string(s), s.trim());
    }
}
