//! The ways in which a conversion between coordinates and codes can fail.

use vstd::prelude::*;

verus! {

/// Why a coordinate could not be encoded or a code could not be decoded.
#[derive(Debug, Clone, Copy, PartialEq, Eq)]
pub enum Error {
    /// A latitude or longitude was NaN or infinite.
    NonFiniteInput,
    /// The code holds no symbol once its separators are removed.
    InvalidPin,
    /// The code holds a character that is not in the symbol grid.
    InvalidChar(char),
}

} // verus!
