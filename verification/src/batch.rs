//! Bounded, fail-fast batch conversion.
//!
//! A batch is at most `MAX_BATCH_SIZE` entries and succeeds or fails as a
//! unit: the first malformed entry aborts the whole batch with its position,
//! and no partial results are ever returned. An empty batch is a valid no-op
//! that yields an empty result.
use vstd::prelude::*;
use crate::codec::{
    spec_parse, spec_format, spec_format_padded, spec_format_signed, spec_signed_digits,
    parse_token_amount, format_usd_amount, format_token_amount, format_price,
    to_signed_decimal_string,
};
use crate::digits::dec_digits;
use crate::errors::{BatchError, ParseError};
use crate::wide::WideUint;

verus! {

/// Largest number of entries one conversion call accepts; the bound caps the
/// cost of the remote registry call this data is paired with.
pub const MAX_BATCH_SIZE: usize = 10;

/// Which way a batch converts.
#[derive(Clone, Copy, Debug, PartialEq, Eq)]
pub enum ConversionDirection {
    UsdToToken,
    TokenToUsd,
}

/// Raw integer strings echoed alongside a formatted conversion entry.
#[derive(Clone, Debug, PartialEq, Eq)]
pub struct RawConversionData {
    pub amount: String,
    pub price: String,
}

/// One formatted entry of a conversion response.
#[derive(Clone, Debug, PartialEq, Eq)]
pub struct ConversionResult {
    pub symbol: String,
    pub input: String,
    pub output: String,
    pub price: String,
    pub price_decimals: u8,
    pub token_decimals: u8,
    pub last_updated_time: u64,
    pub raw: RawConversionData,
}

/// A signed scaled amount, as price feeds deliver them. Canonical zero has
/// no sign.
#[derive(Clone, Debug, PartialEq, Eq)]
pub struct SignedScaledAmount {
    pub magnitude: WideUint,
    pub decimals: u8,
    pub negative: bool,
}

impl SignedScaledAmount {
    pub open spec fn wf(&self) -> bool {
        self.magnitude.wf() && (self.negative ==> self.magnitude.value() > 0)
    }
}

/// Per-asset conversion data as the external collaborator returns it:
/// parallel arrays, aligned index for index with the request.
pub struct AssetConversionData {
    pub symbols: Vec<String>,
    pub amounts: Vec<WideUint>,
    pub prices: Vec<SignedScaledAmount>,
    pub token_decimals: Vec<u8>,
    pub last_updated_times: Vec<u64>,
}

impl AssetConversionData {
    pub open spec fn wf(&self) -> bool {
        &&& self.amounts@.len() == self.symbols@.len()
        &&& self.prices@.len() == self.symbols@.len()
        &&& self.token_decimals@.len() == self.symbols@.len()
        &&& self.last_updated_times@.len() == self.symbols@.len()
        &&& forall|i: int| 0 <= i < self.amounts@.len() ==> (#[trigger] self.amounts@[i]).wf()
        &&& forall|i: int| 0 <= i < self.prices@.len() ==> (#[trigger] self.prices@[i]).wf()
    }
}

/// Parse every entry of a token-amount batch, each at its asset's decimals.
/// Fails fast: the first malformed entry aborts the batch with its index,
/// and an oversized batch is rejected before any entry is parsed.
pub fn parse_token_batch(amounts: &Vec<String>, decimals: &Vec<u8>) -> (r: Result<
    Vec<WideUint>,
    BatchError,
>)
    requires
        amounts@.len() == decimals@.len(),
    ensures
        match r {
            Ok(v) => {
                &&& amounts@.len() <= MAX_BATCH_SIZE
                &&& v@.len() == amounts@.len()
                &&& forall|i: int|
                    0 <= i < v@.len() ==> (#[trigger] v@[i]).wf() && spec_parse(
                        amounts@[i]@,
                        decimals@[i] as nat,
                    ) == Ok::<int, ParseError>(v@[i].value())
            },
            Err(BatchError::BatchTooLarge) => amounts@.len() > MAX_BATCH_SIZE,
            Err(BatchError::Element { index, error }) => {
                &&& amounts@.len() <= MAX_BATCH_SIZE
                &&& index < amounts@.len()
                &&& spec_parse(amounts@[index as int]@, decimals@[index as int] as nat)
                    == Err::<int, ParseError>(error)
                &&& forall|j: int|
                    0 <= j < index ==> spec_parse(
                        #[trigger] amounts@[j]@,
                        decimals@[j] as nat,
                    ) is Ok
            },
        },
{
    if amounts.len() > MAX_BATCH_SIZE {
        return Err(BatchError::BatchTooLarge);
    }
    let mut out: Vec<WideUint> = Vec::new();
    let mut i: usize = 0;
    while i < amounts.len()
        invariant
            0 <= i <= amounts@.len() <= MAX_BATCH_SIZE,
            amounts@.len() == decimals@.len(),
            out@.len() == i,
            forall|j: int|
                0 <= j < i ==> (#[trigger] out@[j]).wf() && spec_parse(
                    amounts@[j]@,
                    decimals@[j] as nat,
                ) == Ok::<int, ParseError>(out@[j].value()),
        decreases amounts@.len() - i,
    {
        match parse_token_amount(amounts[i].as_str(), decimals[i]) {
            Ok(w) => {
                out.push(w);
            },
            Err(e) => {
                proof {
                    assert forall|j: int| 0 <= j < i implies spec_parse(
                        #[trigger] amounts@[j]@,
                        decimals@[j] as nat,
                    ) is Ok by {
                        assert(out@[j].wf());
                    }
                }
                return Err(BatchError::Element { index: i, error: e });
            },
        }
        i += 1;
    }
    Ok(out)
}

/// Admit a batch of USD amounts already scaled to raw integers by the
/// lower-precision entry path, enforcing the batch bound before any
/// external call is made.
pub fn usd_batch_from_raw(raw: &Vec<u128>) -> (r: Result<Vec<WideUint>, BatchError>)
    ensures
        match r {
            Ok(v) => {
                &&& raw@.len() <= MAX_BATCH_SIZE
                &&& v@.len() == raw@.len()
                &&& forall|i: int|
                    0 <= i < v@.len() ==> (#[trigger] v@[i]).wf() && v@[i].value() == raw@[i]
            },
            Err(e) => e == BatchError::BatchTooLarge && raw@.len() > MAX_BATCH_SIZE,
        },
{
    if raw.len() > MAX_BATCH_SIZE {
        return Err(BatchError::BatchTooLarge);
    }
    let mut out: Vec<WideUint> = Vec::new();
    let mut i: usize = 0;
    while i < raw.len()
        invariant
            0 <= i <= raw@.len() <= MAX_BATCH_SIZE,
            out@.len() == i,
            forall|j: int| 0 <= j < i ==> (#[trigger] out@[j]).wf() && out@[j].value() == raw@[j],
        decreases raw@.len() - i,
    {
        out.push(WideUint::from_u128(raw[i]));
        i += 1;
    }
    Ok(out)
}

/// Assemble the response entries from the request inputs and the external
/// collaborator's aligned result arrays. Output order matches input order
/// exactly; formatting depends on the conversion direction.
pub fn build_conversion_results(
    inputs: &Vec<String>,
    data: &AssetConversionData,
    direction: ConversionDirection,
) -> (r: Vec<ConversionResult>)
    requires
        data.wf(),
        inputs@.len() == data.symbols@.len(),
    ensures
        r@.len() == inputs@.len(),
        forall|i: int|
            0 <= i < r@.len() ==> {
                let e = #[trigger] r@[i];
                let p = data.prices@[i];
                &&& e.symbol@ == data.symbols@[i]@
                &&& e.input@ == inputs@[i]@
                &&& e.output@ == (match direction {
                    ConversionDirection::UsdToToken => spec_format_padded(
                        data.amounts@[i].value() as nat,
                        data.token_decimals@[i] as nat,
                    ),
                    ConversionDirection::TokenToUsd => spec_format(
                        data.amounts@[i].value() as nat,
                        18,
                    ),
                })
                &&& e.price@ == spec_format_signed(
                    p.magnitude.value() as nat,
                    p.decimals as nat,
                    p.negative,
                )
                &&& e.price_decimals == p.decimals
                &&& e.token_decimals == data.token_decimals@[i]
                &&& e.last_updated_time == data.last_updated_times@[i]
                &&& e.raw.amount@ == dec_digits(data.amounts@[i].value() as nat)
                &&& e.raw.price@ == spec_signed_digits(p.magnitude.value() as nat, p.negative)
            },
{
    let n = inputs.len();
    let mut out: Vec<ConversionResult> = Vec::new();
    let mut i: usize = 0;
    while i < n
        invariant
            0 <= i <= n,
            n == inputs@.len(),
            data.wf(),
            inputs@.len() == data.symbols@.len(),
            out@.len() == i,
            forall|k: int|
                0 <= k < i ==> {
                    let e = #[trigger] out@[k];
                    let p = data.prices@[k];
                    &&& e.symbol@ == data.symbols@[k]@
                    &&& e.input@ == inputs@[k]@
                    &&& e.output@ == (match direction {
                        ConversionDirection::UsdToToken => spec_format_padded(
                            data.amounts@[k].value() as nat,
                            data.token_decimals@[k] as nat,
                        ),
                        ConversionDirection::TokenToUsd => spec_format(
                            data.amounts@[k].value() as nat,
                            18,
                        ),
                    })
                    &&& e.price@ == spec_format_signed(
                        p.magnitude.value() as nat,
                        p.decimals as nat,
                        p.negative,
                    )
                    &&& e.price_decimals == p.decimals
                    &&& e.token_decimals == data.token_decimals@[k]
                    &&& e.last_updated_time == data.last_updated_times@[k]
                    &&& e.raw.amount@ == dec_digits(data.amounts@[k].value() as nat)
                    &&& e.raw.price@ == spec_signed_digits(p.magnitude.value() as nat, p.negative)
                },
        decreases n - i,
    {
        let amount = &data.amounts[i];
        let price = &data.prices[i];
        let token_dec = data.token_decimals[i];
        let output = match direction {
            ConversionDirection::UsdToToken => format_token_amount(amount, token_dec),
            ConversionDirection::TokenToUsd => format_usd_amount(amount),
        };
        let entry = ConversionResult {
            symbol: data.symbols[i].clone(),
            input: inputs[i].clone(),
            output,
            price: format_price(&price.magnitude, price.negative, price.decimals),
            price_decimals: price.decimals,
            token_decimals: token_dec,
            last_updated_time: data.last_updated_times[i],
            raw: RawConversionData {
                amount: amount.to_decimal_string(),
                price: to_signed_decimal_string(&price.magnitude, price.negative),
            },
        };
        out.push(entry);
        i += 1;
    }
    out
}

} // verus!
