use asset_codec::batch::{
    build_conversion_results, parse_token_batch, usd_batch_from_raw, AssetConversionData,
    ConversionDirection, SignedScaledAmount, MAX_BATCH_SIZE,
};
use asset_codec::errors::{BatchError, ParseError};
use asset_codec::wide::WideUint;

fn strings(v: &[&str]) -> Vec<String> {
    v.iter().map(|s| s.to_string()).collect()
}

#[test]
fn a_full_batch_succeeds() {
    let amounts = strings(&["1", "2", "3", "4", "5", "6", "7", "8", "9", "10"]);
    let decimals = vec![2u8; 10];
    let parsed = parse_token_batch(&amounts, &decimals).unwrap();
    assert_eq!(parsed.len(), 10);
    assert_eq!(parsed[0].to_decimal_string(), "100");
    assert_eq!(parsed[9].to_decimal_string(), "1000");
}

#[test]
fn an_oversized_batch_is_rejected_before_parsing() {
    let amounts = strings(&[
        "1", "2", "3", "4", "5", "6", "7", "8", "9", "10", "11",
    ]);
    let decimals = vec![2u8; 11];
    assert_eq!(amounts.len(), MAX_BATCH_SIZE + 1);
    assert_eq!(parse_token_batch(&amounts, &decimals), Err(BatchError::BatchTooLarge));
}

#[test]
fn the_first_bad_element_aborts_the_batch() {
    let amounts = strings(&["1", "2", "bad", "4", "5"]);
    let decimals = vec![2u8; 5];
    assert_eq!(
        parse_token_batch(&amounts, &decimals),
        Err(BatchError::Element { index: 2, error: ParseError::InvalidFormat })
    );
}

#[test]
fn an_empty_batch_is_a_valid_no_op() {
    let parsed = parse_token_batch(&vec![], &vec![]).unwrap();
    assert!(parsed.is_empty());
    let raw = usd_batch_from_raw(&vec![]).unwrap();
    assert!(raw.is_empty());
}

#[test]
fn raw_usd_batches_respect_the_bound() {
    let raw: Vec<u128> = (0..11).collect();
    assert_eq!(usd_batch_from_raw(&raw), Err(BatchError::BatchTooLarge));
    let raw: Vec<u128> = vec![1_500_000_000_000_000_000];
    let v = usd_batch_from_raw(&raw).unwrap();
    assert_eq!(v[0].to_decimal_string(), "1500000000000000000");
}

#[test]
fn conversion_results_echo_order_and_format_both_directions() {
    let inputs = strings(&["1.5"]);
    let data = AssetConversionData {
        symbols: strings(&["ETH"]),
        amounts: vec![WideUint::from_u64(1500)],
        prices: vec![SignedScaledAmount {
            magnitude: WideUint::from_u64(2500),
            decimals: 2,
            negative: false,
        }],
        token_decimals: vec![3],
        last_updated_times: vec![42],
    };
    let to_token = build_conversion_results(&inputs, &data, ConversionDirection::UsdToToken);
    assert_eq!(to_token.len(), 1);
    assert_eq!(to_token[0].symbol, "ETH");
    assert_eq!(to_token[0].input, "1.5");
    assert_eq!(to_token[0].output, "1.5");
    assert_eq!(to_token[0].price, "25");
    assert_eq!(to_token[0].price_decimals, 2);
    assert_eq!(to_token[0].token_decimals, 3);
    assert_eq!(to_token[0].last_updated_time, 42);
    assert_eq!(to_token[0].raw.amount, "1500");
    assert_eq!(to_token[0].raw.price, "2500");

    let to_usd = build_conversion_results(&inputs, &data, ConversionDirection::TokenToUsd);
    assert_eq!(to_usd[0].output, "0.0000000000000015");
}

#[test]
fn negative_prices_carry_their_sign() {
    let inputs = strings(&["2"]);
    let data = AssetConversionData {
        symbols: strings(&["OIL"]),
        amounts: vec![WideUint::from_u64(2_000_000)],
        prices: vec![SignedScaledAmount {
            magnitude: WideUint::from_u64(3750),
            decimals: 3,
            negative: true,
        }],
        token_decimals: vec![6],
        last_updated_times: vec![7],
    };
    let out = build_conversion_results(&inputs, &data, ConversionDirection::UsdToToken);
    assert_eq!(out[0].output, "2");
    assert_eq!(out[0].price, "-3.75");
    assert_eq!(out[0].raw.price, "-3750");
}
