use repro::decimal::{decimal_text, parse_decimal};

#[test]
fn decimal_text_of_numbers() {
    assert_eq!(decimal_text(0), b"0".to_vec());
    assert_eq!(decimal_text(7), b"7".to_vec());
    assert_eq!(decimal_text(10), b"10".to_vec());
    assert_eq!(decimal_text(90210), b"90210".to_vec());
    assert_eq!(decimal_text(u32::MAX), b"4294967295".to_vec());
}

#[test]
fn parse_decimal_values() {
    assert_eq!(parse_decimal(&b"0".to_vec()), Some(0));
    assert_eq!(parse_decimal(&b"12345".to_vec()), Some(12345));
    assert_eq!(parse_decimal(&b"007".to_vec()), Some(7));
    assert_eq!(parse_decimal(&b"4294967295".to_vec()), Some(u32::MAX));
}

#[test]
fn parse_decimal_rejects() {
    assert_eq!(parse_decimal(&Vec::new()), None);
    assert_eq!(parse_decimal(&b"12a".to_vec()), None);
    assert_eq!(parse_decimal(&b"-1".to_vec()), None);
    assert_eq!(parse_decimal(&b"4294967296".to_vec()), None);
    assert_eq!(parse_decimal(&b"99999999999x".to_vec()), None);
}

#[test]
fn decimal_round_trip() {
    for n in [0u32, 1, 9, 10, 99, 100, 65535, 1234567, u32::MAX] {
        assert_eq!(parse_decimal(&decimal_text(n)), Some(n));
    }
}
