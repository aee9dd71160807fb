//! One instrument entry of the loaded collection.

use crate::decimal::{numeral_price, price_of_text, Price, PriceView};
use crate::json::{copy_of, integer_of, json_of, member, member_of, numeral_of, text_of, Json};
use vstd::prelude::*;

verus! {

/// An entry, and what the selection reads of it.
///
/// `expiry` is in milliseconds since the Unix epoch. `strike_price` is the
/// strike price as the entry writes it, without rounding. `entry` is the
/// entry as it was loaded, with all its fields: the selection never reads it
/// and hands it on untouched.
#[derive(Debug, PartialEq, Eq)]
pub struct Record {
    pub name: String,
    pub expiry: Option<i64>,
    pub strike_price: Option<Price>,
    pub entry: serde_json::Value,
}

/// The mathematical value of a [`Record`].
pub struct RecordView {
    pub name: Seq<char>,
    pub expiry: Option<i64>,
    pub strike_price: Option<PriceView>,
    pub entry: Json,
}

impl View for Record {
    type V = RecordView;

    open spec fn view(&self) -> RecordView {
        RecordView {
            name: self.name@,
            expiry: self.expiry,
            strike_price: match self.strike_price {
                Some(price) => Some(price@),
                None => None,
            },
            entry: json_of(self.entry),
        }
    }
}

impl Clone for Record {
    fn clone(&self) -> (copy: Self)
        ensures
            copy@ == self@,
    {
        Record {
            name: self.name.clone(),
            expiry: self.expiry,
            strike_price: match &self.strike_price {
                Some(price) => Some(price.clone()),
                None => None,
            },
            entry: copy_of(&self.entry),
        }
    }
}

/// The values of a sequence of records, in the same order.
pub open spec fn views(records: Seq<Record>) -> Seq<RecordView> {
    records.map_values(|r: Record| r@)
}

/// The price that a document states: that of its numeral where it is a
/// number, and none for any other document.
pub open spec fn price_of(doc: Json) -> Option<PriceView> {
    match doc {
        Json::Number(number) => numeral_price(number.numeral),
        _ => None,
    }
}

/// The name of an entry: its member `name` where that is a text, and the
/// empty name else.
pub open spec fn name_of(entry: Json) -> Seq<char> {
    match member(entry, "name"@) {
        Some(Json::Text(text)) => text,
        _ => Seq::empty(),
    }
}

/// The expiry of an entry: its member `expiry` where that is an integer of
/// 64 bits, and none else.
pub open spec fn expiry_of(entry: Json) -> Option<i64> {
    match member(entry, "expiry"@) {
        Some(Json::Number(number)) => number.integer,
        _ => None,
    }
}

/// The strike price of an entry: the price that its member `strike_price`
/// states, and none where it has no such member.
pub open spec fn strike_price_of(entry: Json) -> Option<PriceView> {
    match member(entry, "strike_price"@) {
        Some(stated) => price_of(stated),
        None => None,
    }
}

/// What an entry is read as.
pub open spec fn record_of(entry: Json) -> RecordView {
    RecordView {
        name: name_of(entry),
        expiry: expiry_of(entry),
        strike_price: strike_price_of(entry),
        entry,
    }
}

/// Reads the price that a value states.
pub fn read_price(value: &serde_json::Value) -> (price: Option<Price>)
    ensures
        match price_of(json_of(*value)) {
            Some(stated) => price is Some && price->0@ == stated,
            None => price is None,
        },
{
    match numeral_of(value) {
        Some(numeral) => price_of_text(numeral.as_str()),
        None => None,
    }
}

impl Record {
    /// Reads an entry. An entry that is no object, or lacks a field, or
    /// holds something else in it than was expected, is read all the same:
    /// the field is then missing from the record, and a missing name is the
    /// empty name.
    pub fn from_entry(entry: serde_json::Value) -> (record: Self)
        ensures
            record@ == record_of(json_of(entry)),
    {
        let name = match member_of(&entry, "name") {
            Some(held) => match text_of(held) {
                Some(text) => text.to_owned(),
                None => String::new(),
            },
            None => String::new(),
        };
        let expiry = match member_of(&entry, "expiry") {
            Some(held) => integer_of(held),
            None => None,
        };
        let strike_price = match member_of(&entry, "strike_price") {
            Some(held) => read_price(held),
            None => None,
        };
        Record { name, expiry, strike_price, entry }
    }
}

} // verus!
