use asset_codec::address::{
    get_correct_address, validate_and_normalize_address, validate_eth_address,
};
use asset_codec::errors::AddressError;

// The checksummed example address of the checksum specification.
const CHECKSUMMED: &str = "0x5aAeb6053F3E94C9b9A09f33669435E7Ef1BeAed";
const LOWERCASE: &str = "0x5aaeb6053f3e94c9b9a09f33669435e7ef1beaed";

#[test]
fn a_correctly_checksummed_address_passes_strict_validation() {
    let a = validate_eth_address(CHECKSUMMED).unwrap();
    assert_eq!(a.text, LOWERCASE);
}

#[test]
fn a_wrongly_cased_address_fails_with_a_lowercase_suggestion() {
    // Same address with two letters' cases swapped: the checksum no longer
    // matches, so strict validation must reject and suggest lowercase.
    let wrong = "0x5Aaeb6053F3E94C9b9A09f33669435E7Ef1BeAed";
    match validate_eth_address(wrong) {
        Err(AddressError::ChecksumMismatch { suggestion }) => {
            assert_eq!(suggestion, LOWERCASE);
        }
        other => panic!("expected a checksum mismatch, got {other:?}"),
    }
}

#[test]
fn mixed_case_hex_passes_or_suggests_lowercase() {
    let input = "0xABCDEFabcdef0123456789ABCDEFabcdef012345";
    match validate_eth_address(input) {
        Ok(a) => assert_eq!(a.text, input.to_lowercase()),
        Err(AddressError::ChecksumMismatch { suggestion }) => {
            assert_eq!(suggestion, input.to_lowercase());
        }
        other => panic!("expected pass or checksum mismatch, got {other:?}"),
    }
}

#[test]
fn single_case_hex_is_always_accepted() {
    let lower = validate_eth_address(LOWERCASE).unwrap();
    assert_eq!(lower.text, LOWERCASE);
    let upper = "0x5AAEB6053F3E94C9B9A09F33669435E7EF1BEAED";
    let a = validate_eth_address(upper).unwrap();
    assert_eq!(a.text, LOWERCASE);
}

#[test]
fn wrong_lengths_fail_with_the_length_seen() {
    let short = &CHECKSUMMED[..41];
    assert_eq!(validate_eth_address(short), Err(AddressError::BadLength { len: 41 }));
    let long = format!("{CHECKSUMMED}0");
    assert_eq!(validate_eth_address(&long), Err(AddressError::BadLength { len: 43 }));
    assert_eq!(
        get_correct_address(short),
        Err("Address must be 42 characters long, got 41".to_string())
    );
}

#[test]
fn malformed_addresses_are_classified() {
    assert_eq!(validate_and_normalize_address(""), Err(AddressError::Empty));
    assert_eq!(validate_and_normalize_address("   "), Err(AddressError::Empty));
    assert_eq!(validate_and_normalize_address("abc"), Err(AddressError::MissingPrefix));
    let bad_hex = "0xZZaeb6053f3e94c9b9a09f33669435e7ef1beaed";
    assert_eq!(validate_and_normalize_address(bad_hex), Err(AddressError::InvalidHex));
}

#[test]
fn normalization_tolerates_whitespace_and_bad_checksums() {
    let padded = format!("  {CHECKSUMMED}\n");
    let a = validate_and_normalize_address(&padded).unwrap();
    assert_eq!(a.text, LOWERCASE);
    // A wrongly cased input is normalized, not rejected.
    let wrong = "0x5Aaeb6053F3E94C9b9A09f33669435E7Ef1BeAed";
    let b = validate_and_normalize_address(wrong).unwrap();
    assert_eq!(b.text, LOWERCASE);
}

#[test]
fn get_correct_address_returns_the_lowercase_text() {
    assert_eq!(get_correct_address(CHECKSUMMED), Ok(LOWERCASE.to_string()));
    assert_eq!(get_correct_address(LOWERCASE), Ok(LOWERCASE.to_string()));
    assert_eq!(
        get_correct_address(""),
        Err("Address cannot be empty".to_string())
    );
    assert_eq!(
        get_correct_address("q"),
        Err("Address must start with '0x'".to_string())
    );
}
