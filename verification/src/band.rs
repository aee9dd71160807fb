//! The band of strike prices around a reference price.

use crate::decimal::{amount_at_most, price_le, Price, PriceView};
use vstd::prelude::*;

verus! {

/// The strike prices that lie no further than `radius` price steps from
/// `reference_price`, both ends included.
#[derive(Debug, PartialEq, Eq)]
pub struct StrikeBand {
    pub reference_price: Price,
    pub radius: u64,
}

/// The mathematical value of a [`StrikeBand`].
pub struct BandView {
    pub reference_price: PriceView,
    pub radius: u64,
}

impl View for StrikeBand {
    type V = BandView;

    open spec fn view(&self) -> BandView {
        BandView { reference_price: self.reference_price@, radius: self.radius }
    }
}

impl BandView {
    /// The lowest strike price of the band: the reference price less the
    /// radius.
    pub open spec fn low(self) -> PriceView {
        PriceView {
            steps: self.reference_price.steps - self.radius,
            beyond: self.reference_price.beyond,
        }
    }

    /// The highest strike price of the band: the reference price and the
    /// radius.
    pub open spec fn high(self) -> PriceView {
        PriceView {
            steps: self.reference_price.steps + self.radius,
            beyond: self.reference_price.beyond,
        }
    }

    /// A strike price is admitted when it is present and lies between `low`
    /// and `high`, both included.
    pub open spec fn admits(self, strike_price: Option<PriceView>) -> bool {
        match strike_price {
            Some(strike) => price_le(self.low(), strike) && price_le(strike, self.high()),
            None => false,
        }
    }
}

impl Clone for StrikeBand {
    fn clone(&self) -> (copy: Self)
        ensures
            copy@ == self@,
    {
        StrikeBand { reference_price: self.reference_price.clone(), radius: self.radius }
    }
}

impl StrikeBand {
    /// The band of the given radius around a reference price.
    pub fn around(reference_price: Price, radius: u64) -> (band: Self)
        ensures
            band@ == (BandView { reference_price: reference_price@, radius }),
    {
        StrikeBand { reference_price, radius }
    }

    /// Decides whether the band admits a strike price.
    pub fn contains(&self, strike_price: &Option<Price>) -> (inside: bool)
        ensures
            inside == self@.admits(
                match *strike_price {
                    Some(strike) => Some(strike@),
                    None => None,
                },
            ),
    {
        match strike_price {
            Some(strike) => {
                let low: i128 = self.reference_price.steps as i128 - self.radius as i128;
                let high: i128 = self.reference_price.steps as i128 + self.radius as i128;
                amount_at_most(
                    low,
                    &self.reference_price.beyond,
                    strike.steps as i128,
                    &strike.beyond,
                ) && amount_at_most(
                    strike.steps as i128,
                    &strike.beyond,
                    high,
                    &self.reference_price.beyond,
                )
            },
            None => false,
        }
    }
}

} // verus!
