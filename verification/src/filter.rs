//! The selection: which records are admitted, and in what order they leave.

use crate::band::{BandView, StrikeBand};
use crate::calendar::{expiry_window, window_at, Moment, WindowError};
use crate::decimal::{Price, PriceView};
use crate::laws::{
    admitted_expiring_at, law_selected_are_the_admitted, law_selected_in_expiry_order,
};
use crate::names::{names_match, same_name};
use crate::order::{ascending, expiring_at, in_expiry_order, place};
use crate::record::{views, Record, RecordView};
use crate::window::ExpiryWindow;
use vstd::prelude::*;

verus! {

/// What a record is held against: the accepted names, the expiry window and
/// the strike band.
pub struct Rule {
    pub names: Seq<Seq<char>>,
    pub window: ExpiryWindow,
    pub band: BandView,
}

/// A name is accepted when it is one of the accepted names but for the case
/// of ASCII letters.
pub open spec fn name_among(names: Seq<Seq<char>>, name: Seq<char>) -> bool {
    exists|k: int| 0 <= k < names.len() && same_name(#[trigger] names[k], name)
}

impl Rule {
    /// A record is admitted when its name is accepted, its expiry lies in the
    /// window and its strike price lies in the band. A record without expiry
    /// or without strike price is never admitted.
    pub open spec fn admits(self, r: RecordView) -> bool {
        &&& name_among(self.names, r.name)
        &&& self.window.admits(r.expiry)
        &&& self.band.admits(r.strike_price)
    }

    /// `admits`, as a predicate on records.
    pub open spec fn admitted(self) -> spec_fn(RecordView) -> bool {
        |r: RecordView| self.admits(r)
    }
}

/// The result of the selection: the admitted records, in ascending order of
/// expiry, those of equal expiry in the order of the input.
pub open spec fn selected(records: Seq<RecordView>, rule: Rule) -> Seq<RecordView> {
    in_expiry_order(records.filter(rule.admitted()))
}

/// The accepted names as sequences of characters.
pub open spec fn name_list(names: Seq<String>) -> Seq<Seq<char>> {
    names.map_values(|n: String| n@)
}

/// What stays the same from one run of the selection to the next: the
/// accepted names and the radius of the strike band.
#[derive(Debug, PartialEq, Eq)]
pub struct FilterSettings {
    pub accepted_names: Vec<String>,
    pub strike_radius: u64,
}

impl FilterSettings {
    /// The rule that the settings give for a reference price and a window.
    pub open spec fn rule(&self, reference_price: PriceView, window: ExpiryWindow) -> Rule {
        Rule {
            names: name_list(self.accepted_names@),
            window,
            band: BandView { reference_price, radius: self.strike_radius },
        }
    }
}

/// Decides whether a name is one of the accepted names.
pub fn name_accepted(accepted: &Vec<String>, name: &str) -> (found: bool)
    ensures
        found == name_among(name_list(accepted@), name@),
{
    let ghost names = name_list(accepted@);
    let mut k: usize = 0;
    while k < accepted.len()
        invariant
            k <= accepted.len(),
            names == name_list(accepted@),
            forall|j: int| 0 <= j < k ==> !same_name(#[trigger] names[j], name@),
        decreases accepted.len() - k,
    {
        if names_match(accepted[k].as_str(), name) {
            assert(same_name(names[k as int], name@));
            return true;
        }
        k = k + 1;
    }
    false
}

/// Decides whether a record is admitted.
pub fn admits_record(
    record: &Record,
    accepted: &Vec<String>,
    window: &ExpiryWindow,
    band: &StrikeBand,
) -> (admitted: bool)
    ensures
        admitted == (Rule { names: name_list(accepted@), window: *window, band: band@ }).admits(
            record@,
        ),
{
    name_accepted(accepted, record.name.as_str()) && window.contains(record.expiry)
        && band.contains(&record.strike_price)
}

/// Selects from `records` those that the names, the window and the band
/// admit, and returns copies of them in ascending order of expiry, records of
/// equal expiry in the order of the input. No field of a record is changed.
pub fn filter_in_window(
    records: &Vec<Record>,
    accepted: &Vec<String>,
    window: ExpiryWindow,
    band: &StrikeBand,
) -> (kept: Vec<Record>)
    ensures
        views(kept@) == selected(
            views(records@),
            Rule { names: name_list(accepted@), window, band: band@ },
        ),
        ascending(views(kept@)),
        forall|r: RecordView|
            #![trigger views(kept@).contains(r)]
            views(kept@).contains(r) <==> views(records@).contains(r) && (Rule {
                names: name_list(accepted@),
                window,
                band: band@,
            }).admits(r),
        forall|expiry: Option<i64>|
            #![trigger expiring_at(expiry)]
            views(kept@).filter(expiring_at(expiry)) == views(records@).filter(
                admitted_expiring_at(
                    Rule { names: name_list(accepted@), window, band: band@ },
                    expiry,
                ),
            ),
{
    let ghost rule = Rule { names: name_list(accepted@), window, band: band@ };
    let ghost given = views(records@);
    let mut kept: Vec<Record> = Vec::new();
    let mut i: usize = 0;
    proof {
        reveal(Seq::filter);
        assert(given.take(0) =~= Seq::<RecordView>::empty());
    }
    while i < records.len()
        invariant
            i <= records.len(),
            given == views(records@),
            rule == (Rule { names: name_list(accepted@), window, band: band@ }),
            views(kept@) == selected(given.take(i as int), rule),
        decreases records.len() - i,
    {
        proof {
            assert(given.take(i + 1) =~= given.take(i as int).push(given[i as int]));
            given.take(i as int).lemma_filter_push(given[i as int], rule.admitted());
            let chosen = given.take(i as int).filter(rule.admitted());
            assert(chosen.push(given[i as int]).drop_last() =~= chosen);
        }
        if admits_record(&records[i], accepted, &window, band) {
            place(&mut kept, records[i].clone());
        }
        i = i + 1;
    }
    proof {
        assert(given.take(i as int) =~= given);
        law_selected_in_expiry_order(given, rule);
        assert forall|r: RecordView|
            #![trigger views(kept@).contains(r)]
            views(kept@).contains(r) <==> given.contains(r) && rule.admits(r) by {
            law_selected_are_the_admitted(given, rule, r);
        }
    }
    kept
}

/// Selects the records that the settings admit at the moment `now`: the
/// name is an accepted one, the expiry lies in the expiry window of `now`,
/// and the strike price lies no further than the radius from
/// `reference_price`. The window is that of a zone that keeps the offset of
/// `now`; for a zone whose offset changes, make the window with
/// `window_with_offsets` and select with `filter_in_window`. The result is
/// in ascending order of expiry. Fails where `now` has no expiry window, and
/// only there.
pub fn filter_options(
    records: &Vec<Record>,
    reference_price: &Price,
    now: Moment,
    settings: &FilterSettings,
) -> (outcome: Result<Vec<Record>, WindowError>)
    ensures
        match window_at(now) {
            Ok(window) => {
                &&& outcome is Ok
                &&& views(outcome->Ok_0@) == selected(
                    views(records@),
                    settings.rule(reference_price@, window),
                )
            },
            Err(reason) => outcome == Err::<Vec<Record>, WindowError>(reason),
        },
{
    match expiry_window(now) {
        Ok(window) => {
            let band = StrikeBand::around(reference_price.clone(), settings.strike_radius);
            Ok(filter_in_window(records, &settings.accepted_names, window, &band))
        },
        Err(reason) => Err(reason),
    }
}

} // verus!
