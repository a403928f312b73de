//! Fixed-point decimal codec and batch conversion engine.
//!
//! Token and currency amounts are carried as wide unsigned integers scaled by
//! a per-asset decimal count. This crate provides the arithmetic core —
//! checked wide arithmetic, exact decimal parsing with truncation, canonical
//! decimal formatting (unsigned and signed), bounded fail-fast batch
//! conversion, and address text validation — with machine-checked contracts.
pub mod digits;
pub mod errors;
pub mod wide;
pub mod codec;
pub mod batch;
pub mod address;
pub mod results;
pub mod laws;
pub mod access;

use vstd::prelude::*;

verus! {

} // verus!
