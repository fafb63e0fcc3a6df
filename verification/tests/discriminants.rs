use facet_wire::discriminant::get_discriminant_value_from_str;

#[test]
fn test_decimal_discriminants() {
    assert_eq!(get_discriminant_value_from_str("7"), 7);
    assert_eq!(get_discriminant_value_from_str("10"), 10);
    assert_eq!(get_discriminant_value_from_str("123_456"), 123456);
    assert_eq!(get_discriminant_value_from_str(" 42 "), 42);
}

#[test]
fn test_hex_discriminants() {
    assert_eq!(get_discriminant_value_from_str("0x01"), 1);
    assert_eq!(get_discriminant_value_from_str("0x7F"), 127);
    assert_eq!(get_discriminant_value_from_str("0x80"), 128);
    assert_eq!(get_discriminant_value_from_str("0x10"), 16);
    assert_eq!(get_discriminant_value_from_str("0xfeed"), 0xfeed);
    assert_eq!(get_discriminant_value_from_str("0xBEEF"), 0xBEEF);
    assert_eq!(get_discriminant_value_from_str("0xBE_EF"), 0xBEEF);
    assert_eq!(get_discriminant_value_from_str("0X1A"), 26);
}

#[test]
fn test_binary_discriminants() {
    assert_eq!(get_discriminant_value_from_str("0b0000_0000"), 0);
    assert_eq!(get_discriminant_value_from_str("0b0000_0001"), 1);
    assert_eq!(get_discriminant_value_from_str("0b0000_0010"), 2);
    assert_eq!(get_discriminant_value_from_str("0b0000_0100"), 4);
    assert_eq!(get_discriminant_value_from_str("0b0000_0111"), 7);
    assert_eq!(get_discriminant_value_from_str("0B1011"), 11);
}

#[test]
fn test_octal_discriminants() {
    assert_eq!(get_discriminant_value_from_str("0o77"), 63);
    assert_eq!(get_discriminant_value_from_str("0o077"), 63);
    assert_eq!(get_discriminant_value_from_str("0o123"), 83);
    assert_eq!(get_discriminant_value_from_str("0o1_234"), 668);
    assert_eq!(get_discriminant_value_from_str("0O345"), 229);
}

#[test]
fn test_mixed_notations() {
    assert_eq!(get_discriminant_value_from_str("1"), 1);
    assert_eq!(get_discriminant_value_from_str("0xA"), 10);
    assert_eq!(get_discriminant_value_from_str("0b1111"), 15);
    assert_eq!(get_discriminant_value_from_str("0o77"), 63);
}

#[test]
fn test_negative_and_signed_literals() {
    assert_eq!(get_discriminant_value_from_str("-42"), -42);
    assert_eq!(get_discriminant_value_from_str("+42"), 42);
    assert_eq!(get_discriminant_value_from_str("-123_456"), -123456);
    assert_eq!(get_discriminant_value_from_str(" -1 "), -1);
}

#[test]
fn test_extreme_discriminants() {
    assert_eq!(get_discriminant_value_from_str("9223372036854775807"), i64::MAX);
    assert_eq!(get_discriminant_value_from_str("-9223372036854775808"), i64::MIN);
    assert_eq!(get_discriminant_value_from_str("0x7FFF_FFFF_FFFF_FFFF"), i64::MAX);
    assert_eq!(get_discriminant_value_from_str("0"), 0);
}

#[test]
fn test_strip_underscores() {
    assert_eq!(facet_wire::discriminant::strip_underscores("1_2_3"), "123");
    assert_eq!(facet_wire::discriminant::strip_underscores("abc"), "abc");
    assert_eq!(facet_wire::discriminant::strip_underscores("_"), "");
    assert_eq!(facet_wire::discriminant::strip_underscores(""), "");
}
