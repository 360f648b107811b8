//! Ad fraud detection and brand safety: the rules, text matching, batching
//! and report tallies behind the engine, each with its contract.
use vstd::prelude::*;

pub mod text;
pub mod bid_stream;
pub mod detection;
pub mod brand_safety;
pub mod viewability;
pub mod ml;
pub mod reporting;

verus! {

/// The currency in which a floor price is quoted when a request names none.
pub fn default_currency() -> (r: String)
    ensures
        r@ == "USD"@,
{
    String::from_str("USD")
}

} // verus!
