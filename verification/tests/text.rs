use gxr::text::{char_is_space, find_char, parse_unsigned, push_decimal, rfind_char, to_chars, trim};

#[test]
fn trim_agrees_with_the_standard_trim() {
    for s in ["", " ", "a", "  a b  ", "\t\n x\r\n", "\u{3000}x\u{2003}", "\u{feff}x", "x\u{200b}", "\u{85}\u{a0}y\u{1680}"] {
        let chars = to_chars(s);
        let got: String = trim(&chars).iter().collect();
        assert_eq!(got, s.trim());
    }
}

#[test]
fn space_agrees_with_the_standard_test() {
    for code in 0u32..0x3100 {
        if let Some(c) = char::from_u32(code) {
            assert_eq!(char_is_space(c), c.is_whitespace());
        }
    }
}

#[test]
fn unsigned_agrees_with_the_standard_parsers() {
    for s in ["", "+", "-", "0", "+0", "-0", "7", "007", "255", "256", "0255", "+255", "65535", "65536", "99999999999999999999", "1 ", " 1", "1a", "++1", "1+", "12345"] {
        let chars = to_chars(s);
        assert_eq!(parse_unsigned(&chars, 255), s.parse::<u8>().ok().map(u32::from));
        assert_eq!(parse_unsigned(&chars, 65535), s.parse::<u16>().ok().map(u32::from));
    }
    assert_eq!(parse_unsigned(&to_chars("33"), 32), None);
    assert_eq!(parse_unsigned(&to_chars("32"), 32), Some(32));
}

#[test]
fn decimal_numerals() {
    for n in [0u128, 1, 9, 10, 99, 100, 255, 1000, 65535, 4294967296, u64::MAX as u128, u128::MAX] {
        let mut s = String::from("#");
        push_decimal(&mut s, n);
        assert_eq!(s, format!("#{}", n));
    }
}

#[test]
fn first_and_last_occurrence_of_a_character() {
    let chars = to_chars("a-b-c");
    assert_eq!(find_char(&chars, '-'), 1);
    assert_eq!(rfind_char(&chars, '-'), Some(3));
    assert_eq!(find_char(&chars, '/'), 5);
    assert_eq!(rfind_char(&chars, '/'), None);
    assert_eq!(find_char(&[], '-'), 0);
    assert_eq!(rfind_char(&[], '-'), None);
}
