//! The errors that the engine reports.

use vstd::prelude::*;

verus! {

/// The radix handed to a constructor lies outside `[2, 2^16]`.
#[derive(Debug, Clone, Copy, PartialEq, Eq, Structural)]
pub struct InvalidRadix(pub u32);

/// Why a numeral string was refused.
#[derive(Debug, Clone, Copy, PartialEq, Eq, Structural)]
pub enum NumeralStringError {
    /// At least one numeral is not below the radix.
    InvalidForRadix(u32),
    /// The string has fewer numerals than the radix needs.
    TooShort { ns_len: usize, min_len: usize },
    /// The string has more numerals than the mode allows.
    TooLong { ns_len: usize, max_len: usize },
}

} // verus!
