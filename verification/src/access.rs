//! Caller checks, key selection, and asset-registration argument checks:
//! the decision logic of the management entry points, over plain values.
use vstd::prelude::*;
use crate::errors::AssetArgsError;

verus! {

/// Arguments of an asset registration request.
#[derive(Clone, Debug, PartialEq, Eq)]
pub struct AddAssetArgs {
    pub asset_address: String,
    pub price_feed: String,
    pub token_decimals: u8,
    pub stale_price_threshold: u64,
    pub symbol: String,
}

/// Arguments of an asset removal request.
#[derive(Clone, Debug, PartialEq, Eq)]
pub struct RemoveAssetArgs {
    pub asset_address: String,
}

/// Reject the anonymous caller, whose principal is the single byte `4`.
pub fn auth_guard(caller_bytes: &Vec<u8>) -> (r: Result<(), String>)
    ensures
        r is Ok <==> caller_bytes@ != seq![4u8],
        r is Err ==> r->Err_0@ == "Calls with the anonymous principal are not allowed."@,
{
    if caller_bytes.len() == 1 && caller_bytes[0] == 4 {
        proof {
            assert(caller_bytes@ =~= seq![4u8]);
        }
        let mut m = String::new();
        m.append("Calls with the anonymous principal are not allowed.");
        proof {
            assert(m@ =~= "Calls with the anonymous principal are not allowed."@);
        }
        Err(m)
    } else {
        proof {
            if caller_bytes@ == seq![4u8] {
                assert(caller_bytes@.len() == 1);
                assert(caller_bytes@[0] == 4u8);
                assert(false);
            }
        }
        Ok(())
    }
}

/// The signing key name for a deployment network: the test key locally,
/// the production key everywhere else.
pub fn get_ecdsa_key_name(network: &str) -> (r: String)
    ensures
        network@ == "local"@ ==> r@ == "dfx_test_key"@,
        network@ != "local"@ ==> r@ == "key_1"@,
{
    let local = str_lit_to_string("local");
    let given = str_lit_to_string(network);
    if given == local {
        str_lit_to_string("dfx_test_key")
    } else {
        str_lit_to_string("key_1")
    }
}

/// Copy a borrowed string slice into an owned string.
fn str_lit_to_string(s: &str) -> (r: String)
    ensures
        r@ == s@,
{
    s.to_owned()
}

/// The two-part derivation path of a caller's signing key: a schema tag
/// byte, then the caller's principal bytes.
pub fn create_derivation_path(principal_bytes: &Vec<u8>) -> (r: Vec<Vec<u8>>)
    ensures
        r@.len() == 2,
        r@[0]@ == seq![1u8],
        r@[1]@ == principal_bytes@,
{
    let mut schema: Vec<u8> = Vec::new();
    schema.push(1);
    proof {
        assert(schema@ =~= seq![1u8]);
    }
    let mut out: Vec<Vec<u8>> = Vec::new();
    out.push(schema);
    out.push(principal_bytes.clone());
    out
}

/// Validate asset registration arguments: the symbol must be non-empty and
/// the stale-price threshold positive.
pub fn validate_add_asset_args(args: &AddAssetArgs) -> (r: Result<(), AssetArgsError>)
    ensures
        match r {
            Ok(()) => args.symbol@.len() > 0 && args.stale_price_threshold != 0,
            Err(AssetArgsError::EmptySymbol) => args.symbol@.len() == 0,
            Err(AssetArgsError::ZeroThreshold) => args.symbol@.len() > 0
                && args.stale_price_threshold == 0,
        },
{
    if args.symbol.as_str().unicode_len() == 0 {
        Err(AssetArgsError::EmptySymbol)
    } else if args.stale_price_threshold == 0 {
        Err(AssetArgsError::ZeroThreshold)
    } else {
        Ok(())
    }
}

} // verus!
