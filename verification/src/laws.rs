//! What holds of every selection.

use crate::decimal::fraction_le;
use crate::filter::{name_among, selected, Rule};
use crate::order::{
    ascending, expiring_at, lemma_order_fixes_ascending, lemma_order_keeps_runs,
    lemma_order_sorts,
};
use crate::record::RecordView;
use vstd::prelude::*;

verus! {

/// The records that a rule admits and that expire at a given instant.
pub open spec fn admitted_expiring_at(rule: Rule, expiry: Option<i64>) -> spec_fn(
    RecordView,
) -> bool {
    |r: RecordView| rule.admits(r) && r.expiry == expiry
}

/// Filtering twice is filtering once by both predicates.
proof fn lemma_filter_twice(
    s: Seq<RecordView>,
    first: spec_fn(RecordView) -> bool,
    second: spec_fn(RecordView) -> bool,
    both: spec_fn(RecordView) -> bool,
)
    requires
        forall|r: RecordView| #[trigger] both(r) == (first(r) && second(r)),
    ensures
        s.filter(first).filter(second) == s.filter(both),
    decreases s.len(),
{
    reveal(Seq::filter);
    if s.len() > 0 {
        let front = s.drop_last();
        lemma_filter_twice(front, first, second, both);
        assert(front.push(s.last()) =~= s);
        front.lemma_filter_push(s.last(), first);
        front.lemma_filter_push(s.last(), both);
        front.filter(first).lemma_filter_push(s.last(), second);
    }
}

/// Filtering by a predicate that holds of every element changes nothing.
proof fn lemma_filter_all(s: Seq<RecordView>, pred: spec_fn(RecordView) -> bool)
    requires
        forall|i: int| 0 <= i < s.len() ==> pred(#[trigger] s[i]),
    ensures
        s.filter(pred) == s,
    decreases s.len(),
{
    reveal(Seq::filter);
    if s.len() > 0 {
        let front = s.drop_last();
        assert forall|i: int| 0 <= i < front.len() implies pred(#[trigger] front[i]) by {
            assert(front[i] == s[i]);
        }
        lemma_filter_all(front, pred);
        assert(front.push(s.last()) =~= s);
    }
}

/// A record stands in the result if and only if it stands in the input and
/// the rule admits it, and it stands there as often as among the admitted
/// records of the input. A record without expiry or without strike price is
/// never admitted.
pub proof fn law_selected_are_the_admitted(records: Seq<RecordView>, rule: Rule, r: RecordView)
    ensures
        selected(records, rule).contains(r) <==> records.contains(r) && rule.admits(r),
        selected(records, rule).to_multiset() == records.filter(rule.admitted()).to_multiset(),
        r.expiry is None ==> !rule.admits(r),
        r.strike_price is None ==> !rule.admits(r),
{
    let pred = rule.admitted();
    let chosen = records.filter(pred);
    lemma_order_sorts(chosen);
    vstd::seq_lib::to_multiset_contains(selected(records, rule), r);
    vstd::seq_lib::to_multiset_contains(chosen, r);
    if chosen.contains(r) {
        records.lemma_filter_contains_rev(pred, r);
        let i = choose|i: int| 0 <= i < chosen.len() && chosen[i] == r;
        records.lemma_filter_pred(pred, i);
    }
    if records.contains(r) && rule.admits(r) {
        let i = choose|i: int| 0 <= i < records.len() && records[i] == r;
        assert(pred(records[i]));
        records.lemma_filter_contains(pred, i);
    }
}

/// The result is in ascending order of expiry, and every record in it has
/// an expiry. For every instant, the records of the result that expire at
/// it are the admitted records of the input that expire at it, in the order
/// in which they stand in the input.
pub proof fn law_selected_in_expiry_order(records: Seq<RecordView>, rule: Rule)
    ensures
        ascending(selected(records, rule)),
        forall|i: int, j: int|
            #![trigger selected(records, rule)[i], selected(records, rule)[j]]
            0 <= i <= j < selected(records, rule).len() ==> {
                &&& selected(records, rule)[i].expiry is Some
                &&& selected(records, rule)[j].expiry is Some
                &&& selected(records, rule)[i].expiry->0 <= selected(records, rule)[j].expiry->0
            },
        forall|expiry: Option<i64>|
            #![trigger expiring_at(expiry)]
            selected(records, rule).filter(expiring_at(expiry)) == records.filter(
                admitted_expiring_at(rule, expiry),
            ),
{
    let chosen = records.filter(rule.admitted());
    let kept = selected(records, rule);
    lemma_order_sorts(chosen);
    assert forall|i: int, j: int|
        #![trigger kept[i], kept[j]]
        0 <= i <= j < kept.len() implies {
        &&& kept[i].expiry is Some
        &&& kept[j].expiry is Some
        &&& kept[i].expiry->0 <= kept[j].expiry->0
    } by {
        assert(kept.contains(kept[i]));
        assert(kept.contains(kept[j]));
        law_selected_are_the_admitted(records, rule, kept[i]);
        law_selected_are_the_admitted(records, rule, kept[j]);
    }
    assert forall|expiry: Option<i64>|
        #![trigger expiring_at(expiry)]
        kept.filter(expiring_at(expiry)) == records.filter(
            admitted_expiring_at(rule, expiry),
        ) by {
        lemma_order_keeps_runs(chosen, expiry);
        lemma_filter_twice(
            records,
            rule.admitted(),
            expiring_at(expiry),
            admitted_expiring_at(rule, expiry),
        );
    }
}

/// Selecting from a result by the rule that gave it returns the result
/// unchanged.
pub proof fn law_selection_is_idempotent(records: Seq<RecordView>, rule: Rule)
    ensures
        selected(selected(records, rule), rule) == selected(records, rule),
{
    let kept = selected(records, rule);
    let pred = rule.admitted();
    assert forall|i: int| 0 <= i < kept.len() implies pred(#[trigger] kept[i]) by {
        assert(kept.contains(kept[i]));
        law_selected_are_the_admitted(records, rule, kept[i]);
    }
    lemma_filter_all(kept, pred);
    lemma_order_sorts(records.filter(pred));
    lemma_order_fixes_ascending(kept);
}

/// The window is open where it starts and closed where it ends. Of a record
/// with an accepted name and a strike price in the band: one that expires
/// at the end of the window is admitted; one that expires later is not; one
/// that expires at the start of the window, or earlier, is not.
pub proof fn law_window_edges(rule: Rule, r: RecordView)
    requires
        rule.window.well_formed(),
        name_among(rule.names, r.name),
        rule.band.admits(r.strike_price),
    ensures
        r.expiry == Some(rule.window.end) ==> rule.admits(r),
        r.expiry is Some && r.expiry->0 > rule.window.end ==> !rule.admits(r),
        r.expiry is Some && r.expiry->0 <= rule.window.start ==> !rule.admits(r),
        rule.admits(r) <==> r.expiry is Some && rule.window.start < r.expiry->0
            <= rule.window.end,
{
}

/// The band is closed at both ends, and nothing is rounded. Of a record
/// with an accepted name and an expiry in the window: one whose strike
/// price is the reference price less the radius, or the reference price and
/// the radius, is admitted; one whose strike price has fewer whole steps
/// than the first, or more than the second, is not; and one whose strike
/// price has the whole steps of the second is admitted only where what it
/// holds beyond them is no more than what the reference price holds.
pub proof fn law_band_edges(rule: Rule, r: RecordView)
    requires
        name_among(rule.names, r.name),
        rule.window.admits(r.expiry),
    ensures
        r.strike_price == Some(rule.band.low()) ==> rule.admits(r),
        r.strike_price == Some(rule.band.high()) ==> rule.admits(r),
        r.strike_price is Some && r.strike_price->0.steps < rule.band.low().steps
            ==> !rule.admits(r),
        r.strike_price is Some && r.strike_price->0.steps > rule.band.high().steps
            ==> !rule.admits(r),
        r.strike_price is Some && r.strike_price->0.steps == rule.band.high().steps && rule.band.radius
            > 0 ==> (rule.admits(r) <==> fraction_le(
            r.strike_price->0.beyond,
            rule.band.reference_price.beyond,
        )),
{
    lemma_fraction_le_itself(rule.band.reference_price.beyond);
}

/// A fraction is at most itself.
pub proof fn lemma_fraction_le_itself(a: Seq<u8>)
    ensures
        fraction_le(a, a),
    decreases a.len(),
{
    if a.len() > 0 {
        lemma_fraction_le_itself(a.skip(1));
    }
}

} // verus!
