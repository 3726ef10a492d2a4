//! The library's error type: one sum over everything its callers can be
//! handed. Upstream failures (RPC, gRPC, HTTP) are reported by the process
//! around the library and enter it only as absent values, so the variants
//! here cover what the library itself can reject.

use vstd::prelude::*;

verus! {

use vstd::string::StringExecFns;

/// Everything this library can fail with.
#[derive(PartialEq, Eq, Structural, Clone, Copy, Debug)]
pub enum GravityError {
    /// The token-price document is not a JSON object of string values.
    InvalidPriceDocument,
    /// A price entry's value is not a decimal integer in range.
    InvalidPriceValue,
    /// A price was asked for a token the price table does not hold.
    TokenPriceNotFound,
}

impl GravityError {
    /// A short human-readable account of the error.
    pub fn describe(&self) -> (r: String)
        ensures
            r@ == self.spec_describe(),
    {
        match self {
            GravityError::InvalidPriceDocument => String::from_str(
                "token price configuration is not a JSON object of string values",
            ),
            GravityError::InvalidPriceValue => String::from_str(
                "token price is not a decimal integer in range",
            ),
            GravityError::TokenPriceNotFound => String::from_str(
                "cannot find token price in map",
            ),
        }
    }

    /// The text `describe` yields.
    pub open spec fn spec_describe(&self) -> Seq<char> {
        match self {
            GravityError::InvalidPriceDocument => (
            "token price configuration is not a JSON object of string values")@,
            GravityError::InvalidPriceValue => ("token price is not a decimal integer in range")@,
            GravityError::TokenPriceNotFound => ("cannot find token price in map")@,
        }
    }
}

} // verus!
