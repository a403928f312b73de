use asset_codec::access::{
    auth_guard, create_derivation_path, get_ecdsa_key_name, validate_add_asset_args, AddAssetArgs,
};
use asset_codec::batch::SignedScaledAmount;
use asset_codec::errors::{AssetArgsError, RangeError};
use asset_codec::results::{
    build_asset_list, build_assets_with_prices, build_price_feed_details, build_price_info,
    build_token_amount_result, build_token_price_result, build_token_price_result_symbol,
    build_usd_value_result, wide_to_i128,
};
use asset_codec::wide::WideUint;

fn w(x: u64) -> WideUint {
    WideUint::from_u64(x)
}

fn signed(mag: u64, decimals: u8, negative: bool) -> SignedScaledAmount {
    SignedScaledAmount { magnitude: w(mag), decimals, negative }
}

#[test]
fn anonymous_callers_are_rejected() {
    assert_eq!(
        auth_guard(&vec![4]),
        Err("Calls with the anonymous principal are not allowed.".to_string())
    );
    assert_eq!(auth_guard(&vec![1, 2, 3]), Ok(()));
    assert_eq!(auth_guard(&vec![]), Ok(()));
}

#[test]
fn key_names_follow_the_network() {
    assert_eq!(get_ecdsa_key_name("local"), "dfx_test_key");
    assert_eq!(get_ecdsa_key_name("ic"), "key_1");
    assert_eq!(get_ecdsa_key_name("playground"), "key_1");
}

#[test]
fn derivation_paths_carry_the_schema_tag() {
    let p = create_derivation_path(&vec![9, 8, 7]);
    assert_eq!(p, vec![vec![1u8], vec![9, 8, 7]]);
}

#[test]
fn asset_arguments_are_checked() {
    let good = AddAssetArgs {
        asset_address: "0x1".into(),
        price_feed: "0x2".into(),
        token_decimals: 8,
        stale_price_threshold: 60,
        symbol: "ETH".into(),
    };
    assert_eq!(validate_add_asset_args(&good), Ok(()));
    let mut empty = good.clone();
    empty.symbol = String::new();
    assert_eq!(validate_add_asset_args(&empty), Err(AssetArgsError::EmptySymbol));
    let mut zero = good.clone();
    zero.stale_price_threshold = 0;
    assert_eq!(validate_add_asset_args(&zero), Err(AssetArgsError::ZeroThreshold));
}

#[test]
fn asset_lists_pair_addresses_and_symbols() {
    let out = build_asset_list(
        &vec!["0xa".to_string(), "0xb".to_string()],
        &vec!["A".to_string(), "B".to_string()],
    );
    assert_eq!(out.len(), 2);
    assert_eq!(out[1].address, "0xb");
    assert_eq!(out[1].symbol, "B");
}

#[test]
fn priced_asset_lists_format_each_entry() {
    assert!(build_assets_with_prices(&vec![], &vec![], &vec![], &vec![]).is_none());
    let out = build_assets_with_prices(
        &vec!["0xa".to_string()],
        &vec!["A".to_string()],
        &vec![signed(1500, 3, false)],
        &vec!["12345".to_string()],
    )
    .unwrap();
    assert_eq!(out[0].price, "1.500");
    assert_eq!(out[0].raw_price, "1500");
    assert_eq!(out[0].decimals, 3);
    assert_eq!(out[0].last_updated, "12345");
}

#[test]
fn narrowing_to_i128_reports_out_of_range() {
    assert_eq!(wide_to_i128(&w(5), true), Ok(-5));
    assert_eq!(wide_to_i128(&w(5), false), Ok(5));
    let beyond = WideUint::parse_decimal_digits("170141183460469231731687303715884105728")
        .unwrap();
    assert_eq!(wide_to_i128(&beyond, false), Err(RangeError::OutOfRange));
    assert_eq!(wide_to_i128(&beyond, true), Ok(i128::MIN));
}

#[test]
fn price_feed_details_narrow_every_field() {
    let d = build_price_feed_details(&w(77), &w(2500), true, &w(100), &w(200), &w(78)).unwrap();
    assert_eq!(d.round_id, "77");
    assert_eq!(d.answer, -2500);
    assert_eq!(d.started_at, 100);
    assert_eq!(d.updated_at, 200);
    assert_eq!(d.answered_in_round, "78");
    let too_big = WideUint::parse_decimal_digits("18446744073709551616").unwrap();
    assert_eq!(
        build_price_feed_details(&w(1), &w(1), false, &too_big, &w(1), &w(1)),
        Err(RangeError::OutOfRange)
    );
}

#[test]
fn token_price_results_format_and_narrow() {
    let t = build_token_price_result(&signed(2500, 2, true)).unwrap();
    assert_eq!(t.price, "-25.00");
    assert_eq!(t.decimals, 2);
    assert_eq!(t.raw_price, -2500);
    let s = build_token_price_result_symbol(&signed(2500, 2, false)).unwrap();
    assert_eq!(s.price, "25.00");
    assert_eq!(s.raw_price, 2500);
    let beyond = SignedScaledAmount {
        magnitude: WideUint::parse_decimal_digits("170141183460469231731687303715884105728")
            .unwrap(),
        decimals: 2,
        negative: false,
    };
    assert_eq!(build_token_price_result(&beyond), Err(RangeError::OutOfRange));
}

#[test]
fn token_amounts_and_usd_values_are_assembled() {
    let t = build_token_amount_result(&w(1500), 3);
    assert_eq!(t.amount, "1.5");
    assert_eq!(t.raw_amount, "1500");
    let u = build_usd_value_result(
        &WideUint::parse_decimal_digits("1500000000000000000").unwrap(),
        "0xa".to_string(),
        "1.5".to_string(),
    );
    assert_eq!(u.usd_value, "1.5");
    assert_eq!(u.raw_result, "1500000000000000000");
    assert_eq!(u.asset_address, "0xa");
    assert_eq!(u.token_amount, "1.5");
}

#[test]
fn price_info_uses_plain_fixed_formatting() {
    let p = build_price_info(&w(12345), 8);
    assert_eq!(p.raw_price, "12345");
    assert_eq!(p.decimals, 8);
    assert_eq!(p.formatted_price, "0.00012345");
}
