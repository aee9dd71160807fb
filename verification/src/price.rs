//! The reference price: where it comes from, and how it is read from the
//! answer of the price service.

use crate::decimal::{Price, PriceView};
use crate::json::{member, member_of, parse_json, parsed};
use crate::record::{price_of, read_price};
use vstd::prelude::*;

verus! {

/// Where the reference price comes from.
#[derive(Debug, PartialEq, Eq)]
pub enum PriceSource {
    /// It is asked of the price service, and without an answer there is no
    /// reference price.
    Remote,
    /// It is the given price, and the service is not asked.
    Fixed(Price),
}

/// Why the price service gave no reference price.
#[derive(Debug, Clone, Copy, PartialEq, Eq)]
pub enum FetchError {
    /// The request failed, or the answer could not be received.
    Network,
    /// The answer is no JSON document.
    InvalidAnswer,
    /// The answer holds no number at `records.underlyingValue`, or one that
    /// is no price.
    MissingPrice,
}

/// The reference price that an answer of the price service states: the
/// price at `underlyingValue` in the member `records` of the answer.
pub open spec fn stated_price(answer: Seq<char>) -> Result<PriceView, FetchError> {
    match parsed(answer) {
        Err(_) => Err(FetchError::InvalidAnswer),
        Ok(doc) => match member(doc, "records"@) {
            None => Err(FetchError::MissingPrice),
            Some(records) => match member(records, "underlyingValue"@) {
                None => Err(FetchError::MissingPrice),
                Some(stated) => match price_of(stated) {
                    Some(price) => Ok(price),
                    None => Err(FetchError::MissingPrice),
                },
            },
        },
    }
}

/// Reads the reference price from an answer of the price service: the
/// number at `records.underlyingValue`, without rounding.
pub fn price_from_answer(answer: &str) -> (price: Result<Price, FetchError>)
    ensures
        match stated_price(answer@) {
            Ok(stated) => price is Ok && price->Ok_0@ == stated,
            Err(reason) => price == Err::<Price, FetchError>(reason),
        },
{
    let doc = match parse_json(answer) {
        Ok(doc) => doc,
        Err(_) => {
            return Err(FetchError::InvalidAnswer);
        },
    };
    let stated = match member_of(&doc, "records") {
        Some(records) => member_of(records, "underlyingValue"),
        None => None,
    };
    match stated {
        Some(value) => match read_price(value) {
            Some(price) => Ok(price),
            None => Err(FetchError::MissingPrice),
        },
        None => Err(FetchError::MissingPrice),
    }
}

impl PriceSource {
    /// Whether the price service has to be asked.
    pub fn needs_answer(&self) -> (asked: bool)
        ensures
            asked == (*self is Remote),
    {
        match self {
            PriceSource::Remote => true,
            PriceSource::Fixed(_) => false,
        }
    }

    /// The reference price, given what came of asking the price service. A
    /// fixed price stands whatever came of it; a remote one is what was
    /// fetched, or fails as the fetch did.
    pub fn settle(&self, fetched: Result<Price, FetchError>) -> (price: Result<Price, FetchError>)
        ensures
            match *self {
                PriceSource::Fixed(fixed) => price is Ok && price->Ok_0@ == fixed@,
                PriceSource::Remote => price == fetched,
            },
    {
        match self {
            PriceSource::Fixed(fixed) => Ok(fixed.clone()),
            PriceSource::Remote => fetched,
        }
    }
}

} // verus!
