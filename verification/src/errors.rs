//! Typed error values of the codec.
//!
//! Every failure of the core is a classified, recoverable result; nothing in
//! this crate panics. The surrounding program turns these values into the
//! message strings of its remote-procedure interface.
use vstd::prelude::*;

verus! {

/// Failure of decimal parsing.
#[derive(Clone, Copy, Debug, PartialEq, Eq)]
pub enum ParseError {
    /// Malformed decimal text: empty, more than one separator, or a
    /// non-digit character.
    InvalidFormat,
    /// A checked arithmetic step exceeded the wide-integer width.
    Overflow,
}

/// Failure of a whole conversion batch.
#[derive(Clone, Copy, Debug, PartialEq, Eq)]
pub enum BatchError {
    /// More entries than the per-call bound allows.
    BatchTooLarge,
    /// The first malformed entry, with its position; the batch yields no
    /// partial results.
    Element { index: usize, error: ParseError },
}

/// Failure of narrowing an externally supplied value into a smaller integer
/// type expected by the caller.
#[derive(Clone, Copy, Debug, PartialEq, Eq)]
pub enum RangeError {
    /// The value does not fit the requested target type.
    OutOfRange,
}

/// Failure of address text validation.
#[derive(Clone, Debug, PartialEq, Eq)]
pub enum AddressError {
    /// The trimmed input was empty.
    Empty,
    /// The input does not start with `0x`.
    MissingPrefix,
    /// The input is not exactly 42 characters long; carries the length seen.
    BadLength { len: usize },
    /// A character after the prefix is not a hexadecimal digit.
    InvalidHex,
    /// The mixed-case input failed the checksum; carries the all-lowercase
    /// form as a suggested correction, which is not applied automatically.
    ChecksumMismatch { suggestion: String },
}

/// Failure of validating the arguments of an asset registration request.
#[derive(Clone, Copy, Debug, PartialEq, Eq)]
pub enum AssetArgsError {
    /// The symbol was empty.
    EmptySymbol,
    /// The stale-price threshold was zero.
    ZeroThreshold,
}

} // verus!
