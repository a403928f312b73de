use asset_codec::errors::ParseError;
use asset_codec::wide::WideUint;

fn max_value() -> WideUint {
    WideUint::parse_decimal_digits(&"9".repeat(90)).unwrap()
}

#[test]
fn addition_is_exact() {
    let a = WideUint::from_u64(u64::MAX);
    let b = WideUint::from_u64(1);
    let c = a.checked_add(&b).unwrap();
    assert_eq!(c.to_decimal_string(), "18446744073709551616");
}

#[test]
fn addition_overflow_is_reported() {
    let one = WideUint::from_u64(1);
    assert!(max_value().checked_add(&one).is_none());
}

#[test]
fn multiplying_the_maximum_by_ten_overflows() {
    let ten = WideUint::from_u64(10);
    assert!(max_value().checked_mul(&ten).is_none());
}

#[test]
fn multiplication_is_exact() {
    let a = WideUint::parse_decimal_digits("123456789012345678901234567890").unwrap();
    let b = WideUint::parse_decimal_digits("987654321098765432109876543210").unwrap();
    let c = a.checked_mul(&b).unwrap();
    assert_eq!(
        c.to_decimal_string(),
        "121932631137021795226185032733622923332237463801111263526900"
    );
}

#[test]
fn powers_of_ten() {
    assert_eq!(WideUint::pow10(0).unwrap().to_decimal_string(), "0".repeat(0) + "1");
    assert_eq!(WideUint::pow10(3).unwrap().to_decimal_string(), "1000");
    let p89 = WideUint::pow10(89).unwrap().to_decimal_string();
    assert_eq!(p89.len(), 90);
    assert!(WideUint::pow10(90).is_none());
    assert!(WideUint::pow10(200).is_none());
}

#[test]
fn digit_parsing_accepts_only_digits() {
    assert_eq!(WideUint::parse_decimal_digits(""), Err(ParseError::InvalidFormat));
    assert_eq!(WideUint::parse_decimal_digits("12a"), Err(ParseError::InvalidFormat));
    assert_eq!(WideUint::parse_decimal_digits(" 1"), Err(ParseError::InvalidFormat));
    let nines = "9".repeat(91);
    assert_eq!(WideUint::parse_decimal_digits(&nines), Err(ParseError::Overflow));
}

#[test]
fn digit_strings_are_canonical() {
    assert_eq!(WideUint::from_u64(0).to_decimal_string(), "0");
    assert_eq!(WideUint::parse_decimal_digits("000123").unwrap().to_decimal_string(), "123");
    assert_eq!(max_value().to_decimal_string(), "9".repeat(90));
}

#[test]
fn narrowing_checks_the_range() {
    let big = WideUint::parse_decimal_digits("18446744073709551616").unwrap();
    assert_eq!(big.to_u64(), None);
    assert_eq!(big.to_u128(), Some(18446744073709551616u128));
    assert_eq!(WideUint::from_u64(u64::MAX).to_u64(), Some(u64::MAX));
    assert_eq!(WideUint::from_u128(u128::MAX).to_u128(), Some(u128::MAX));
    let beyond = WideUint::parse_decimal_digits("340282366920938463463374607431768211456")
        .unwrap();
    assert_eq!(beyond.to_u128(), None);
}

#[test]
fn zero_detection() {
    assert!(WideUint::zero().is_zero());
    assert!(!WideUint::from_u64(1).is_zero());
}
