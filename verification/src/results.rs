//! Response builders: the pure halves of the query entry points.
//!
//! Each builder takes the plain values obtained from the external registry
//! call, narrows and formats them, and assembles the response structure.
//! Narrowing failures are `RangeError::OutOfRange`, never a panic.
use vstd::prelude::*;
use crate::codec::{
    spec_format, spec_format_padded, spec_format_fixed, spec_format_units, spec_signed_digits,
    format_usd_amount, format_with_decimals, format_fixed, format_price_raw, format_token_price,
};
use crate::digits::dec_digits;
use crate::errors::RangeError;
use crate::wide::WideUint;
use crate::batch::SignedScaledAmount;

verus! {

/// One listed asset: address text and symbol.
#[derive(Clone, Debug, PartialEq, Eq)]
pub struct AssetInfo {
    pub address: String,
    pub symbol: String,
}

/// One listed asset with its latest price.
#[derive(Clone, Debug, PartialEq, Eq)]
pub struct AssetWithPrice {
    pub address: String,
    pub symbol: String,
    pub price: String,
    pub raw_price: String,
    pub decimals: u8,
    pub last_updated: String,
}

/// Asset metadata looked up by symbol.
#[derive(Clone, Debug, PartialEq, Eq)]
pub struct AssetInfoSymbol {
    pub asset_address: String,
    pub original_symbol: String,
    pub price_feed: String,
    pub token_decimals: u8,
    pub stale_price_threshold: u64,
}

/// One price-feed round, narrowed to caller-sized integers.
#[derive(Clone, Debug, PartialEq, Eq)]
pub struct PriceFeedDetails {
    pub round_id: String,
    pub answer: i128,
    pub started_at: u64,
    pub updated_at: u64,
    pub answered_in_round: String,
}

/// A token amount bought for a USD value.
#[derive(Clone, Debug, PartialEq, Eq)]
pub struct TokenAmountResult {
    pub amount: String,
    pub raw_amount: String,
}

/// A formatted token price.
#[derive(Clone, Debug, PartialEq, Eq)]
pub struct TokenPriceResult {
    pub price: String,
    pub decimals: u8,
    pub raw_price: i128,
}

/// A formatted token price, looked up by symbol.
#[derive(Clone, Debug, PartialEq, Eq)]
pub struct TokenPriceResultSymbol {
    pub price: String,
    pub decimals: u8,
    pub raw_price: i128,
}

/// The USD value of a token amount.
#[derive(Clone, Debug, PartialEq, Eq)]
pub struct UsdValueResult {
    pub usd_value: String,
    pub raw_result: String,
    pub asset_address: String,
    pub token_amount: String,
}

/// A raw price with its plainly formatted rendering.
#[derive(Clone, Debug, PartialEq, Eq)]
pub struct PriceInfo {
    pub raw_price: String,
    pub decimals: u8,
    pub formatted_price: String,
}

/// Narrow a signed wide value to `i128`; out-of-range values are reported,
/// not truncated.
pub fn wide_to_i128(magnitude: &WideUint, negative: bool) -> (r: Result<i128, RangeError>)
    requires
        magnitude.wf(),
    ensures
        match r {
            Ok(v) => v as int == if negative {
                -magnitude.value()
            } else {
                magnitude.value()
            },
            Err(e) => e == RangeError::OutOfRange && (if negative {
                magnitude.value() > 170_141_183_460_469_231_731_687_303_715_884_105_728int
            } else {
                magnitude.value() > i128::MAX
            }),
        },
{
    let m = match magnitude.to_u128() {
        Some(v) => v,
        None => {
            return Err(RangeError::OutOfRange);
        },
    };
    if negative {
        if m > 170_141_183_460_469_231_731_687_303_715_884_105_728u128 {
            Err(RangeError::OutOfRange)
        } else if m == 170_141_183_460_469_231_731_687_303_715_884_105_728u128 {
            Ok(i128::MIN)
        } else {
            Ok(-(m as i128))
        }
    } else {
        if m > i128::MAX as u128 {
            Err(RangeError::OutOfRange)
        } else {
            Ok(m as i128)
        }
    }
}

/// Pair each asset address with its symbol, in order.
pub fn build_asset_list(addresses: &Vec<String>, symbols: &Vec<String>) -> (r: Vec<AssetInfo>)
    requires
        addresses@.len() == symbols@.len(),
    ensures
        r@.len() == addresses@.len(),
        forall|i: int|
            0 <= i < r@.len() ==> (#[trigger] r@[i]).address@ == addresses@[i]@ && r@[i].symbol@
                == symbols@[i]@,
{
    let mut out: Vec<AssetInfo> = Vec::new();
    let mut i: usize = 0;
    while i < addresses.len()
        invariant
            0 <= i <= addresses@.len(),
            addresses@.len() == symbols@.len(),
            out@.len() == i,
            forall|k: int|
                0 <= k < i ==> (#[trigger] out@[k]).address@ == addresses@[k]@ && out@[k].symbol@
                    == symbols@[k]@,
        decreases addresses@.len() - i,
    {
        out.push(
            AssetInfo { address: addresses[i].clone(), symbol: symbols[i].clone() },
        );
        i += 1;
    }
    out
}

/// Assemble the priced asset list; an empty registry answer yields `None`,
/// which the caller reports as "no assets found".
pub fn build_assets_with_prices(
    addresses: &Vec<String>,
    symbols: &Vec<String>,
    prices: &Vec<SignedScaledAmount>,
    last_updated: &Vec<String>,
) -> (r: Option<Vec<AssetWithPrice>>)
    requires
        addresses@.len() == symbols@.len(),
        addresses@.len() == prices@.len(),
        addresses@.len() == last_updated@.len(),
        forall|i: int| 0 <= i < prices@.len() ==> (#[trigger] prices@[i]).wf(),
    ensures
        match r {
            None => addresses@.len() == 0,
            Some(v) => {
                &&& addresses@.len() > 0
                &&& v@.len() == addresses@.len()
                &&& forall|i: int|
                    0 <= i < v@.len() ==> {
                        let e = #[trigger] v@[i];
                        let p = prices@[i];
                        let body = if p.decimals <= 77 {
                            spec_format_units(p.magnitude.value() as nat, p.decimals as nat)
                        } else {
                            dec_digits(p.magnitude.value() as nat)
                        };
                        &&& e.address@ == addresses@[i]@
                        &&& e.symbol@ == symbols@[i]@
                        &&& e.price@ == (if p.negative {
                            seq!['-'] + body
                        } else {
                            body
                        })
                        &&& e.raw_price@ == spec_signed_digits(
                            p.magnitude.value() as nat,
                            p.negative,
                        )
                        &&& e.decimals == p.decimals
                        &&& e.last_updated@ == last_updated@[i]@
                    }
            },
        },
{
    if addresses.len() == 0 {
        return None;
    }
    let mut out: Vec<AssetWithPrice> = Vec::new();
    let mut i: usize = 0;
    while i < addresses.len()
        invariant
            0 <= i <= addresses@.len(),
            addresses@.len() == symbols@.len(),
            addresses@.len() == prices@.len(),
            addresses@.len() == last_updated@.len(),
            forall|k: int| 0 <= k < prices@.len() ==> (#[trigger] prices@[k]).wf(),
            out@.len() == i,
            forall|k: int|
                0 <= k < i ==> {
                    let e = #[trigger] out@[k];
                    let p = prices@[k];
                    let body = if p.decimals <= 77 {
                        spec_format_units(p.magnitude.value() as nat, p.decimals as nat)
                    } else {
                        dec_digits(p.magnitude.value() as nat)
                    };
                    &&& e.address@ == addresses@[k]@
                    &&& e.symbol@ == symbols@[k]@
                    &&& e.price@ == (if p.negative {
                        seq!['-'] + body
                    } else {
                        body
                    })
                    &&& e.raw_price@ == spec_signed_digits(p.magnitude.value() as nat, p.negative)
                    &&& e.decimals == p.decimals
                    &&& e.last_updated@ == last_updated@[k]@
                },
        decreases addresses@.len() - i,
    {
        let p = &prices[i];
        let (price, raw_price) = format_token_price(&p.magnitude, p.negative, p.decimals);
        out.push(
            AssetWithPrice {
                address: addresses[i].clone(),
                symbol: symbols[i].clone(),
                price,
                raw_price,
                decimals: p.decimals,
                last_updated: last_updated[i].clone(),
            },
        );
        i += 1;
    }
    Some(out)
}

/// Narrow one price-feed round to the caller's integer sizes.
pub fn build_price_feed_details(
    round_id: &WideUint,
    answer_magnitude: &WideUint,
    answer_negative: bool,
    started_at: &WideUint,
    updated_at: &WideUint,
    answered_in_round: &WideUint,
) -> (r: Result<PriceFeedDetails, RangeError>)
    requires
        round_id.wf(),
        answer_magnitude.wf(),
        started_at.wf(),
        updated_at.wf(),
        answered_in_round.wf(),
    ensures
        match r {
            Ok(d) => {
                &&& d.round_id@ == dec_digits(round_id.value() as nat)
                &&& d.answer as int == (if answer_negative {
                    -answer_magnitude.value()
                } else {
                    answer_magnitude.value()
                })
                &&& d.started_at == started_at.value()
                &&& d.updated_at == updated_at.value()
                &&& d.answered_in_round@ == dec_digits(answered_in_round.value() as nat)
            },
            Err(e) => e == RangeError::OutOfRange && (started_at.value() > u64::MAX
                || updated_at.value() > u64::MAX || (if answer_negative {
                answer_magnitude.value() > 170_141_183_460_469_231_731_687_303_715_884_105_728int
            } else {
                answer_magnitude.value() > i128::MAX
            })),
        },
{
    let started = match started_at.to_u64() {
        Some(v) => v,
        None => {
            return Err(RangeError::OutOfRange);
        },
    };
    let updated = match updated_at.to_u64() {
        Some(v) => v,
        None => {
            return Err(RangeError::OutOfRange);
        },
    };
    let answer = match wide_to_i128(answer_magnitude, answer_negative) {
        Ok(v) => v,
        Err(e) => {
            return Err(e);
        },
    };
    Ok(
        PriceFeedDetails {
            round_id: round_id.to_decimal_string(),
            answer,
            started_at: started,
            updated_at: updated,
            answered_in_round: answered_in_round.to_decimal_string(),
        },
    )
}

/// Narrow and format one token price. The most negative `i128` magnitude is
/// excluded: its formatting has no `i128` form.
pub fn build_token_price_result(price: &SignedScaledAmount) -> (r: Result<
    TokenPriceResult,
    RangeError,
>)
    requires
        price.wf(),
        !(price.negative && price.magnitude.value()
            == 170_141_183_460_469_231_731_687_303_715_884_105_728int),
    ensures
        match r {
            Ok(t) => {
                &&& t.raw_price as int == (if price.negative {
                    -price.magnitude.value()
                } else {
                    price.magnitude.value()
                })
                &&& t.decimals == price.decimals
                &&& t.price@ == (if price.negative {
                    seq!['-'] + spec_format_fixed(
                        price.magnitude.value() as nat,
                        price.decimals as nat,
                    )
                } else {
                    spec_format_fixed(price.magnitude.value() as nat, price.decimals as nat)
                })
            },
            Err(e) => e == RangeError::OutOfRange && price.magnitude.value() > i128::MAX,
        },
{
    let raw = match wide_to_i128(&price.magnitude, price.negative) {
        Ok(v) => v,
        Err(e) => {
            return Err(e);
        },
    };
    proof {
        price.magnitude.lemma_value_range();
        if raw == i128::MIN {
            assert(price.negative);
            assert(price.magnitude.value()
                == 170_141_183_460_469_231_731_687_303_715_884_105_728int);
            assert(false);
        }
    }
    let formatted = format_price_raw(raw, price.decimals);
    Ok(TokenPriceResult { price: formatted, decimals: price.decimals, raw_price: raw })
}

/// As `build_token_price_result`, for the lookup-by-symbol response.
pub fn build_token_price_result_symbol(price: &SignedScaledAmount) -> (r: Result<
    TokenPriceResultSymbol,
    RangeError,
>)
    requires
        price.wf(),
        !(price.negative && price.magnitude.value()
            == 170_141_183_460_469_231_731_687_303_715_884_105_728int),
    ensures
        match r {
            Ok(t) => {
                &&& t.raw_price as int == (if price.negative {
                    -price.magnitude.value()
                } else {
                    price.magnitude.value()
                })
                &&& t.decimals == price.decimals
                &&& t.price@ == (if price.negative {
                    seq!['-'] + spec_format_fixed(
                        price.magnitude.value() as nat,
                        price.decimals as nat,
                    )
                } else {
                    spec_format_fixed(price.magnitude.value() as nat, price.decimals as nat)
                })
            },
            Err(e) => e == RangeError::OutOfRange && price.magnitude.value() > i128::MAX,
        },
{
    match build_token_price_result(price) {
        Ok(t) => Ok(
            TokenPriceResultSymbol { price: t.price, decimals: t.decimals, raw_price: t.raw_price },
        ),
        Err(e) => Err(e),
    }
}

/// Format the token amount a USD value buys.
pub fn build_token_amount_result(amount: &WideUint, decimals: u8) -> (r: TokenAmountResult)
    requires
        amount.wf(),
    ensures
        r.amount@ == spec_format_padded(amount.value() as nat, decimals as nat),
        r.raw_amount@ == dec_digits(amount.value() as nat),
{
    TokenAmountResult {
        amount: format_with_decimals(amount, decimals),
        raw_amount: amount.to_decimal_string(),
    }
}

/// Format the USD value of a token amount, echoing the request fields.
pub fn build_usd_value_result(
    usd_value: &WideUint,
    asset_address: String,
    token_amount: String,
) -> (r: UsdValueResult)
    requires
        usd_value.wf(),
    ensures
        r.usd_value@ == spec_format(usd_value.value() as nat, 18),
        r.raw_result@ == dec_digits(usd_value.value() as nat),
        r.asset_address@ == asset_address@,
        r.token_amount@ == token_amount@,
{
    UsdValueResult {
        usd_value: format_usd_amount(usd_value),
        raw_result: usd_value.to_decimal_string(),
        asset_address,
        token_amount,
    }
}

/// Format one safely fetched price with a plain fixed-point rendering.
pub fn build_price_info(raw_price: &WideUint, decimals: u8) -> (r: PriceInfo)
    requires
        raw_price.wf(),
    ensures
        r.raw_price@ == dec_digits(raw_price.value() as nat),
        r.decimals == decimals,
        r.formatted_price@ == spec_format_fixed(raw_price.value() as nat, decimals as nat),
{
    PriceInfo {
        raw_price: raw_price.to_decimal_string(),
        decimals,
        formatted_price: format_fixed(raw_price, decimals),
    }
}

} // verus!
