use html_navigator::text::{
    chars_of, copied, decimal_text, hex_text, is_white_space_char, joined, pieces,
    signed_decimal_text, string_of, trimmed,
};

fn strings(texts: &[&str]) -> Vec<String> {
    texts.iter().map(|t| t.to_string()).collect()
}

#[test]
fn white_space_is_that_of_unicode() {
    for n in 0..=0x10ffff_u32 {
        if let Some(c) = char::from_u32(n) {
            assert_eq!(is_white_space_char(c), c.is_whitespace(), "{:x}", n);
        }
    }
}

#[test]
fn trimming_takes_white_space_off_both_ends() {
    for s in ["", " ", "a", " a", "a ", " a b ", "\t\r\n a\u{a0}\u{3000}", "\u{200b}a", "é  "] {
        assert_eq!(trimmed(s), s.trim());
    }
}

#[test]
fn pieces_stand_between_the_separators() {
    for s in ["", ",", "a", "a,b", ",a,,b,", "a b,c"] {
        let expected: Vec<String> = s.split(',').map(|p| p.to_string()).collect();
        assert_eq!(pieces(s, ','), expected);
        assert_eq!(joined(&expected, ","), s);
    }
}

#[test]
fn parts_are_joined_with_the_separator_between_them() {
    assert_eq!(joined(&[], ", "), "");
    assert_eq!(joined(&strings(&["a"]), ", "), "a");
    assert_eq!(joined(&strings(&["a", "", "b"]), ", "), "a, , b");
}

#[test]
fn numerals_are_decimal() {
    for n in [0, 9, 10, 42, 100, 1024, 999_999, u64::MAX] {
        assert_eq!(decimal_text(n), format!("{}", n));
    }
    for n in [0, -1, 7, -10, i64::MAX, i64::MIN] {
        assert_eq!(signed_decimal_text(n), format!("{}", n));
    }
}

#[test]
fn bytes_are_written_in_hexadecimal() {
    assert_eq!(hex_text(&[]), "");
    assert_eq!(hex_text(&[0x00, 0x0a, 0xa0, 0xff, 0x5b]), "000aa0ff5b");
}

#[test]
fn characters_and_strings() {
    let chars: Vec<char> = chars_of("añ📄z");
    assert_eq!(chars, vec!['a', 'ñ', '📄', 'z']);
    assert_eq!(string_of(&chars, 1, 3), "ñ📄");
    assert_eq!(string_of(&chars, 2, 2), "");
    assert_eq!(copied(&strings(&["x", "y"])), strings(&["x", "y"]));
}
