use gxr::ipv4::{format_address, parse_address, parse_octet};
use gxr::text::to_chars;

#[test]
fn address_text_round_trip() {
    for addr in [0u32, 1, 255, 256, 0x0a00_0001, 0xc0a8_0101, 0x7f00_0001, 0xffff_fffe, u32::MAX] {
        let text = format_address(addr);
        assert_eq!(parse_address(&to_chars(&text)), Some(addr));
    }
    assert_eq!(format_address(0xc0a8_0101), "192.168.1.1");
    assert_eq!(format_address(0), "0.0.0.0");
    assert_eq!(format_address(u32::MAX), "255.255.255.255");
    assert_eq!(format_address(0x0a14_1e28), "10.20.30.40");
}

#[test]
fn address_must_be_four_canonical_octets() {
    assert_eq!(parse_address(&to_chars("1.2.3.4")), Some(0x0102_0304));
    assert_eq!(parse_address(&to_chars("12.34.56.78")), Some(0x0c22_384e));
    assert_eq!(parse_address(&to_chars("0.0.0.0")), Some(0));
    assert_eq!(parse_address(&to_chars("255.255.255.255")), Some(u32::MAX));
    for text in [
        "01.2.3.4", "1.2.3", "1.2.3.4.5", "256.1.1.1", "1..2.3", "", ".", "1.2.3.4 ", "00.0.0.0",
        "1.2.3.-4", "+1.2.3.4", "1.2.3.0004", "a.b.c.d", "1.2.3.4.", ".1.2.3.4", "999.1.1.1",
        "1.2.3.4/5", "1,2,3,4",
    ] {
        assert_eq!(parse_address(&to_chars(text)), None);
    }
}

#[test]
fn octet_is_a_canonical_numeral_up_to_255() {
    assert_eq!(parse_octet(&to_chars("0")), Some(0));
    assert_eq!(parse_octet(&to_chars("9")), Some(9));
    assert_eq!(parse_octet(&to_chars("10")), Some(10));
    assert_eq!(parse_octet(&to_chars("255")), Some(255));
    assert_eq!(parse_octet(&to_chars("256")), None);
    assert_eq!(parse_octet(&to_chars("00")), None);
    assert_eq!(parse_octet(&to_chars("010")), None);
    assert_eq!(parse_octet(&to_chars("")), None);
    assert_eq!(parse_octet(&to_chars("1a")), None);
    assert_eq!(parse_octet(&to_chars("1000")), None);
    assert_eq!(parse_octet(&to_chars("+1")), None);
}
