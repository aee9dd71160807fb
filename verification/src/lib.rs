//! Selection of option-chain records: a name rule, an expiry window of three
//! calendar months and a strike band around a reference price, with the
//! result in ascending order of expiry.

pub mod band;
pub mod calendar;
pub mod decimal;
pub mod document;
pub mod exact;
pub mod filter;
pub mod json;
pub mod laws;
pub mod loader;
pub mod names;
pub mod order;
pub mod pipeline;
pub mod price;
pub mod record;
pub mod window;
