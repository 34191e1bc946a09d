use rv32e_16b::parse::parse_u32;

#[test]
fn parses_decimal_and_hex() {
    assert_eq!(parse_u32("10"), Some(10));
    assert_eq!(parse_u32("0x1000"), Some(0x1000));
    assert_eq!(parse_u32("0XfF"), Some(255));
    assert_eq!(parse_u32("+7"), Some(7));
    assert_eq!(parse_u32("0x+A"), Some(10));
    assert_eq!(parse_u32("4294967295"), Some(u32::MAX));
    assert_eq!(parse_u32("0xFFFFFFFF"), Some(u32::MAX));
    assert_eq!(parse_u32("0"), Some(0));
}

#[test]
fn refuses_malformed_numbers() {
    assert_eq!(parse_u32(""), None);
    assert_eq!(parse_u32("0x"), None);
    assert_eq!(parse_u32("+"), None);
    assert_eq!(parse_u32("-1"), None);
    assert_eq!(parse_u32("12a"), None);
    assert_eq!(parse_u32("4294967296"), None);
    assert_eq!(parse_u32("0x100000000"), None);
    assert_eq!(parse_u32("99999999999x"), None);
}

#[test]
fn agrees_with_std_parsing() {
    for s in ["0", "1", "65535", "+12", "007", "4294967295", "4294967296", "1_0", " 1", "ab"] {
        assert_eq!(parse_u32(s), s.parse::<u32>().ok(), "{}", s);
    }
    for s in ["ff", "FF", "+a", "100000000", "fffffffff", "g", ""] {
        let with_prefix = format!("0x{}", s);
        assert_eq!(parse_u32(&with_prefix), u32::from_str_radix(s, 16).ok(), "{}", s);
    }
}
