use asset_codec::codec::{
    format_decimal, format_fixed, format_price, format_price_raw, format_token_amount,
    format_token_price, format_usd_amount, format_with_decimals, parse_token_amount,
    parse_decimal, parse_usd_value, to_signed_decimal_string,
};
use asset_codec::errors::ParseError;
use asset_codec::wide::WideUint;

fn w(x: u64) -> WideUint {
    WideUint::from_u64(x)
}

#[test]
fn truncates_instead_of_rounding() {
    let a = parse_token_amount("1.239", 2).unwrap();
    let b = parse_token_amount("1.23", 2).unwrap();
    assert_eq!(a.to_decimal_string(), "123");
    assert_eq!(a, b);
}

#[test]
fn pads_purely_fractional_values() {
    assert_eq!(format_decimal(&w(5), 3), "0.005");
}

#[test]
fn trims_trailing_fractional_zeros() {
    assert_eq!(format_decimal(&w(1500), 3), "1.5");
}

#[test]
fn zero_is_canonical_at_every_scale() {
    assert_eq!(format_decimal(&w(0), 0), "0");
    assert_eq!(format_decimal(&w(0), 7), "0");
    assert_eq!(format_decimal(&w(0), 18), "0");
    assert_eq!(format_usd_amount(&w(0)), "0");
}

#[test]
fn signed_zero_has_no_sign() {
    assert_eq!(format_price(&w(0), true, 5), "0");
    assert_eq!(format_price(&w(0), false, 5), "0");
}

#[test]
fn signed_formatting_prepends_the_sign() {
    assert_eq!(format_price(&w(1500), true, 3), "-1.5");
    assert_eq!(format_price(&w(1500), false, 3), "1.5");
    assert_eq!(format_price(&w(5), true, 0), "-5");
}

#[test]
fn round_trip_exact_values() {
    for d in 0u8..=18 {
        for v in [0u64, 1, 5, 9, 10, 999, 1500, 123_456_789] {
            let text = format_decimal(&w(v), d);
            let back = parse_token_amount(&text, d).unwrap();
            assert_eq!(back.to_decimal_string(), w(v).to_decimal_string());
        }
    }
}

#[test]
fn padded_formatting_keeps_fractional_zeros() {
    assert_eq!(format_token_amount(&w(1500), 18), "0.000000000000001500");
    assert_eq!(format_usd_amount(&w(1500)), "0.0000000000000015");
    assert_eq!(format_token_amount(&w(1500), 3), "1.5");
    assert_eq!(format_with_decimals(&w(1500), 3), "1.5");
    assert_eq!(format_token_amount(&w(7), 0), "7");
}

#[test]
fn fixed_formatting_never_trims() {
    assert_eq!(format_fixed(&w(1500), 3), "1.500");
    assert_eq!(format_fixed(&w(5), 3), "0.005");
    assert_eq!(format_fixed(&w(0), 3), "0.000");
    assert_eq!(format_fixed(&w(42), 0), "42");
}

#[test]
fn raw_price_formatting_is_fixed_width() {
    assert_eq!(format_price_raw(5, 3), "0.005");
    assert_eq!(format_price_raw(1500, 3), "1.500");
    assert_eq!(format_price_raw(-1500, 3), "-1.500");
    assert_eq!(format_price_raw(0, 3), "0.000");
    assert_eq!(format_price_raw(-7, 0), "-7");
}

#[test]
fn token_price_pair_matches_unit_formatting() {
    assert_eq!(format_token_price(&w(1500), false, 3), ("1.500".to_string(), "1500".to_string()));
    assert_eq!(format_token_price(&w(5), true, 2), ("-0.05".to_string(), "-5".to_string()));
    assert_eq!(format_token_price(&w(5), false, 0), ("5.0".to_string(), "5".to_string()));
    assert_eq!(format_token_price(&w(5), false, 200), ("5".to_string(), "5".to_string()));
}

#[test]
fn signed_digit_strings() {
    assert_eq!(to_signed_decimal_string(&w(123), true), "-123");
    assert_eq!(to_signed_decimal_string(&w(123), false), "123");
    assert_eq!(to_signed_decimal_string(&w(0), false), "0");
}

#[test]
fn malformed_inputs_are_invalid_format() {
    assert_eq!(parse_token_amount("", 2), Err(ParseError::InvalidFormat));
    assert_eq!(parse_token_amount("1.2.3", 2), Err(ParseError::InvalidFormat));
    assert_eq!(parse_token_amount("abc", 2), Err(ParseError::InvalidFormat));
    assert_eq!(parse_token_amount("1.", 2), Err(ParseError::InvalidFormat));
    assert_eq!(parse_token_amount(".5", 2), Err(ParseError::InvalidFormat));
    assert_eq!(parse_token_amount("-1", 2), Err(ParseError::InvalidFormat));
}

#[test]
fn fraction_truncated_to_zero_digits_is_invalid() {
    assert_eq!(parse_token_amount("1.5", 0), Err(ParseError::InvalidFormat));
}

#[test]
fn truncated_tail_is_dropped_before_validation() {
    let a = parse_token_amount("1.23x9", 2).unwrap();
    assert_eq!(a.to_decimal_string(), "123");
}

#[test]
fn scaling_beyond_the_width_overflows() {
    assert_eq!(parse_token_amount("1", 200), Err(ParseError::Overflow));
    let ninety_one_nines = "9".repeat(91);
    assert_eq!(parse_token_amount(&ninety_one_nines, 0), Err(ParseError::Overflow));
}

#[test]
fn scaled_amounts_carry_their_scale() {
    let a = parse_decimal("1.239", 2).unwrap();
    assert_eq!(a.decimals, 2);
    assert_eq!(a.magnitude.to_decimal_string(), "123");
    assert_eq!(parse_decimal("x", 2), Err(ParseError::InvalidFormat));
}

#[test]
fn usd_parsing_uses_eighteen_decimals() {
    let v = parse_usd_value("1.5").unwrap();
    assert_eq!(v.to_decimal_string(), "1500000000000000000");
    assert_eq!(format_usd_amount(&v), "1.5");
}
