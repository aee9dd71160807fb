//! The order of the result: ascending by expiry, a missing expiry first, and
//! records of equal expiry in the order in which they came.

use crate::record::{views, Record, RecordView};
use vstd::prelude::*;

verus! {

/// The rank of an expiry: the instant itself, and for a missing expiry a
/// rank below every instant there is.
pub open spec fn rank_of(expiry: Option<i64>) -> int {
    match expiry {
        Some(at) => at as int,
        None => i64::MIN as int - 1,
    }
}

/// The rank by which records are ordered: that of their expiry.
pub open spec fn expiry_rank(r: RecordView) -> int {
    rank_of(r.expiry)
}

/// No record stands before one of lower rank.
pub open spec fn ascending(s: Seq<RecordView>) -> bool {
    forall|i: int, j: int|
        #![trigger s[i], s[j]]
        0 <= i <= j < s.len() ==> expiry_rank(s[i]) <= expiry_rank(s[j])
}

/// The records of one expiry.
pub open spec fn expiring_at(expiry: Option<i64>) -> spec_fn(RecordView) -> bool {
    |r: RecordView| r.expiry == expiry
}

/// Where `r` goes into `s`: behind the last record whose rank is not above
/// its own, or in front where there is no such record.
pub open spec fn slot(s: Seq<RecordView>, r: RecordView) -> int
    decreases s.len(),
{
    if s.len() == 0 {
        0
    } else if expiry_rank(s.last()) <= expiry_rank(r) {
        s.len() as int
    } else {
        slot(s.drop_last(), r)
    }
}

/// The records of `s` in ascending order of rank, each record of `s` put in
/// turn into its slot among those that came before it.
pub open spec fn in_expiry_order(s: Seq<RecordView>) -> Seq<RecordView>
    decreases s.len(),
{
    if s.len() == 0 {
        s
    } else {
        let earlier = in_expiry_order(s.drop_last());
        earlier.insert(slot(earlier, s.last()), s.last())
    }
}

/// What marks the slot: everything from it on ranks above `r`, and what
/// stands just before it does not.
pub open spec fn is_slot(s: Seq<RecordView>, r: RecordView, p: int) -> bool {
    &&& 0 <= p <= s.len()
    &&& forall|i: int| p <= i < s.len() ==> expiry_rank(#[trigger] s[i]) > expiry_rank(r)
    &&& p > 0 ==> expiry_rank(s[p - 1]) <= expiry_rank(r)
}

/// `slot` is the one place with the marks of a slot.
pub proof fn lemma_slot(s: Seq<RecordView>, r: RecordView, p: int)
    ensures
        is_slot(s, r, slot(s, r)),
        is_slot(s, r, p) ==> p == slot(s, r),
    decreases s.len(),
{
    if s.len() > 0 {
        let front = s.drop_last();
        lemma_slot(front, r, p);
        if expiry_rank(s.last()) > expiry_rank(r) {
            let q = slot(front, r);
            assert forall|i: int| q <= i < s.len() implies expiry_rank(#[trigger] s[i])
                > expiry_rank(r) by {
                if i < front.len() {
                    assert(front[i] == s[i]);
                }
            }
            if q > 0 {
                assert(front[q - 1] == s[q - 1]);
            }
            if is_slot(s, r, p) {
                if p == s.len() {
                    assert(s[p - 1] == s.last());
                }
                assert forall|i: int| p <= i < front.len() implies expiry_rank(
                    #[trigger] front[i],
                ) > expiry_rank(r) by {
                    assert(front[i] == s[i]);
                }
                if p > 0 {
                    assert(front[p - 1] == s[p - 1]);
                }
                assert(is_slot(front, r, p));
            }
        } else {
            if is_slot(s, r, p) && p < s.len() {
                assert(expiry_rank(s[s.len() - 1]) > expiry_rank(r));
            }
        }
    }
}

/// Putting a record into its slot keeps an ascending sequence ascending.
proof fn lemma_insert_ascending(s: Seq<RecordView>, r: RecordView)
    requires
        ascending(s),
    ensures
        ascending(s.insert(slot(s, r), r)),
{
    let p = slot(s, r);
    let t = s.insert(p, r);
    lemma_slot(s, r, p);
    assert forall|i: int, j: int|
        #![trigger t[i], t[j]]
        0 <= i <= j < t.len() implies expiry_rank(t[i]) <= expiry_rank(t[j]) by {
        if i < p && j < p {
            assert(t[i] == s[i] && t[j] == s[j]);
        } else if i < p && j == p {
            assert(t[i] == s[i]);
            assert(expiry_rank(s[i]) <= expiry_rank(s[p - 1]));
        } else if i < p {
            assert(t[i] == s[i] && t[j] == s[j - 1]);
        } else if i == p && j > p {
            assert(t[j] == s[j - 1]);
        } else if i > p {
            assert(t[i] == s[i - 1] && t[j] == s[j - 1]);
        }
    }
}

/// The ordered sequence is ascending, holds each record as often as the
/// given one does, and so is as long.
pub proof fn lemma_order_sorts(s: Seq<RecordView>)
    ensures
        ascending(in_expiry_order(s)),
        in_expiry_order(s).to_multiset() == s.to_multiset(),
        in_expiry_order(s).len() == s.len(),
    decreases s.len(),
{
    broadcast use vstd::seq_lib::to_multiset_build, vstd::seq_lib::to_multiset_insert;

    if s.len() > 0 {
        let front = s.drop_last();
        let earlier = in_expiry_order(front);
        lemma_order_sorts(front);
        lemma_slot(earlier, s.last(), 0);
        lemma_insert_ascending(earlier, s.last());
        assert(front.push(s.last()) =~= s);
        assert(earlier.insert(slot(earlier, s.last()), s.last()).to_multiset()
            == earlier.to_multiset().insert(s.last()));
        assert(front.push(s.last()).to_multiset() == front.to_multiset().insert(s.last()));
    }
}

/// Putting a record into its slot adds it behind the records of its own
/// expiry and leaves the records of every other expiry as they were.
proof fn lemma_insert_keeps_runs(s: Seq<RecordView>, r: RecordView, expiry: Option<i64>)
    ensures
        s.insert(slot(s, r), r).filter(expiring_at(expiry)) == if r.expiry == expiry {
            s.filter(expiring_at(expiry)).push(r)
        } else {
            s.filter(expiring_at(expiry))
        },
{
    let p = slot(s, r);
    let same = expiring_at(expiry);
    let head = s.take(p);
    let tail = s.skip(p);
    lemma_slot(s, r, p);
    assert(s =~= head + tail);
    assert(s.insert(p, r) =~= head.push(r) + tail);
    Seq::filter_distributes_over_add(head, tail, same);
    Seq::filter_distributes_over_add(head.push(r), tail, same);
    head.lemma_filter_push(r, same);
    if r.expiry == expiry {
        assert forall|i: int| 0 <= i < tail.len() implies !same(#[trigger] tail[i]) by {
            assert(tail[i] == s[p + i]);
            assert(expiry_rank(s[p + i]) > expiry_rank(r));
        }
        assert(tail.all(|x: RecordView| !same(x)));
        tail.lemma_all_neg_filter_empty(same);
        assert(tail.filter(same) =~= Seq::<RecordView>::empty());
        assert(head.filter(same).push(r) + tail.filter(same) =~= (head.filter(same)
            + tail.filter(same)).push(r));
    }
}

/// Ordering keeps, for every expiry, the records of that expiry in the order
/// in which they came.
pub proof fn lemma_order_keeps_runs(s: Seq<RecordView>, expiry: Option<i64>)
    ensures
        in_expiry_order(s).filter(expiring_at(expiry)) == s.filter(expiring_at(expiry)),
    decreases s.len(),
{
    if s.len() > 0 {
        let front = s.drop_last();
        lemma_order_keeps_runs(front, expiry);
        lemma_insert_keeps_runs(in_expiry_order(front), s.last(), expiry);
        front.lemma_filter_push(s.last(), expiring_at(expiry));
        assert(front.push(s.last()) =~= s);
    }
}

/// An ascending sequence is its own ordering.
pub proof fn lemma_order_fixes_ascending(s: Seq<RecordView>)
    requires
        ascending(s),
    ensures
        in_expiry_order(s) == s,
    decreases s.len(),
{
    if s.len() > 0 {
        let front = s.drop_last();
        assert forall|i: int, j: int|
            #![trigger front[i], front[j]]
            0 <= i <= j < front.len() implies expiry_rank(front[i]) <= expiry_rank(front[j]) by {
            assert(front[i] == s[i] && front[j] == s[j]);
        }
        lemma_order_fixes_ascending(front);
        if front.len() > 0 {
            assert(front.last() == s[front.len() - 1]);
            assert(expiry_rank(s[front.len() - 1]) <= expiry_rank(s[s.len() - 1]));
        }
        assert(slot(front, s.last()) == front.len());
        assert(front.insert(front.len() as int, s.last()) =~= s);
    }
}

/// The front of an ascending sequence is ascending.
proof fn lemma_front_ascending(s: Seq<RecordView>)
    requires
        ascending(s),
        s.len() > 0,
    ensures
        ascending(s.drop_last()),
{
    let front = s.drop_last();
    assert forall|i: int, j: int|
        #![trigger front[i], front[j]]
        0 <= i <= j < front.len() implies expiry_rank(front[i]) <= expiry_rank(front[j]) by {
        assert(front[i] == s[i] && front[j] == s[j]);
    }
}

/// A sequence that holds the last record of another ascending sequence
/// among the records of some expiry has a record that ranks no lower.
proof fn lemma_last_ranks_highest(s: Seq<RecordView>, r: RecordView)
    requires
        ascending(s),
        s.contains(r),
    ensures
        expiry_rank(r) <= expiry_rank(s.last()),
{
    let i = choose|i: int| 0 <= i < s.len() && s[i] == r;
    assert(expiry_rank(s[i]) <= expiry_rank(s[s.len() - 1]));
}

/// Two ascending sequences that hold, for every expiry, the same records of
/// that expiry in the same order are one and the same sequence.
pub proof fn law_order_is_determined(t: Seq<RecordView>, u: Seq<RecordView>)
    requires
        ascending(t),
        ascending(u),
        forall|expiry: Option<i64>|
            #![trigger expiring_at(expiry)]
            t.filter(expiring_at(expiry)) == u.filter(expiring_at(expiry)),
    ensures
        t == u,
    decreases t.len() + u.len(),
{
    reveal(Seq::filter);
    if t.len() == 0 && u.len() == 0 {
        assert(t =~= u);
    } else if t.len() == 0 || u.len() == 0 {
        // The longer one has a last record, and so a record of its expiry.
        let longer = if t.len() == 0 {
            u
        } else {
            t
        };
        let shorter = if t.len() == 0 {
            t
        } else {
            u
        };
        let same = expiring_at(longer.last().expiry);
        longer.drop_last().lemma_filter_push(longer.last(), same);
        assert(longer.drop_last().push(longer.last()) =~= longer);
        assert(longer.filter(same).len() > 0);
        assert(shorter.filter(same).len() == 0);
    } else {
        let x = t.last();
        let y = u.last();
        let tf = t.drop_last();
        let uf = u.drop_last();
        assert(tf.push(x) =~= t);
        assert(uf.push(y) =~= u);
        let at_x = expiring_at(x.expiry);
        let at_y = expiring_at(y.expiry);
        tf.lemma_filter_push(x, at_x);
        uf.lemma_filter_push(y, at_y);
        tf.lemma_filter_push(x, at_y);
        uf.lemma_filter_push(y, at_x);
        // x stands among the records of its expiry in u, y among those of
        // its expiry in t: neither ranks above the other.
        assert(t.filter(at_x).last() == x);
        assert(u.filter(at_x).contains(x)) by {
            assert(u.filter(at_x) == t.filter(at_x));
            assert(u.filter(at_x)[u.filter(at_x).len() - 1] == x);
        }
        u.lemma_filter_contains_rev(at_x, x);
        lemma_last_ranks_highest(u, x);
        assert(u.filter(at_y).last() == y);
        assert(t.filter(at_y).contains(y)) by {
            assert(t.filter(at_y) == u.filter(at_y));
            assert(t.filter(at_y)[t.filter(at_y).len() - 1] == y);
        }
        t.lemma_filter_contains_rev(at_y, y);
        lemma_last_ranks_highest(t, y);
        assert(x.expiry == y.expiry);
        assert(tf.filter(at_x).push(x) == uf.filter(at_x).push(y));
        assert(x == y) by {
            assert(tf.filter(at_x).push(x).last() == x);
            assert(uf.filter(at_x).push(y).last() == y);
        }
        assert forall|expiry: Option<i64>|
            #![trigger expiring_at(expiry)]
            tf.filter(expiring_at(expiry)) == uf.filter(expiring_at(expiry)) by {
            let same = expiring_at(expiry);
            tf.lemma_filter_push(x, same);
            uf.lemma_filter_push(y, same);
            assert(t.filter(same) == u.filter(same));
            if same(x) {
                assert(tf.filter(same) =~= tf.filter(same).push(x).drop_last());
                assert(uf.filter(same) =~= uf.filter(same).push(y).drop_last());
            }
        }
        lemma_front_ascending(t);
        lemma_front_ascending(u);
        law_order_is_determined(tf, uf);
    }
}

/// The ordering of a sequence is the one ascending sequence that holds,
/// for every expiry, the records of that expiry as the given sequence
/// holds them.
pub proof fn law_order_is_the_stable_sort(s: Seq<RecordView>, t: Seq<RecordView>)
    requires
        ascending(t),
        forall|expiry: Option<i64>|
            #![trigger expiring_at(expiry)]
            t.filter(expiring_at(expiry)) == s.filter(expiring_at(expiry)),
    ensures
        t == in_expiry_order(s),
{
    let u = in_expiry_order(s);
    lemma_order_sorts(s);
    assert forall|expiry: Option<i64>|
        #![trigger expiring_at(expiry)]
        t.filter(expiring_at(expiry)) == u.filter(expiring_at(expiry)) by {
        lemma_order_keeps_runs(s, expiry);
    }
    law_order_is_determined(t, u);
}

/// Whether the first expiry ranks above the second.
fn ranks_above(a: Option<i64>, b: Option<i64>) -> (above: bool)
    ensures
        above == (rank_of(a) > rank_of(b)),
{
    match (a, b) {
        (Some(x), Some(y)) => x > y,
        (Some(_), None) => true,
        (None, _) => false,
    }
}

/// Puts a record into its slot among records already in order.
pub fn place(ordered: &mut Vec<Record>, record: Record)
    ensures
        views(final(ordered)@) == views(old(ordered)@).insert(
            slot(views(old(ordered)@), record@),
            record@,
        ),
{
    let ghost before = views(ordered@);
    let mut p: usize = ordered.len();
    while p > 0 && ranks_above(ordered[p - 1].expiry, record.expiry)
        invariant
            p <= ordered.len(),
            before == views(ordered@),
            forall|i: int|
                p <= i < before.len() ==> expiry_rank(#[trigger] before[i]) > expiry_rank(record@),
        decreases p,
    {
        p = p - 1;
    }
    proof {
        lemma_slot(before, record@, p as int);
    }
    ordered.insert(p, record);
    assert(views(ordered@) =~= before.insert(p as int, record@));
}

/// The records in ascending order of expiry. A record without expiry comes
/// before every record with one, and records of equal expiry keep the order
/// in which they were given.
pub fn sort_by_expiry(records: &Vec<Record>) -> (sorted: Vec<Record>)
    ensures
        views(sorted@) == in_expiry_order(views(records@)),
        sorted.len() == records.len(),
        ascending(views(sorted@)),
        views(sorted@).to_multiset() == views(records@).to_multiset(),
        forall|expiry: Option<i64>|
            #![trigger expiring_at(expiry)]
            views(sorted@).filter(expiring_at(expiry)) == views(records@).filter(
                expiring_at(expiry),
            ),
{
    let mut sorted: Vec<Record> = Vec::new();
    let mut i: usize = 0;
    assert(views(records@).take(0) =~= Seq::<RecordView>::empty());
    while i < records.len()
        invariant
            i <= records.len(),
            views(sorted@) == in_expiry_order(views(records@).take(i as int)),
        decreases records.len() - i,
    {
        let ghost given = views(records@);
        assert(given.take(i + 1).drop_last() =~= given.take(i as int));
        assert(given.take(i + 1).last() == records@[i as int]@);
        place(&mut sorted, records[i].clone());
        i = i + 1;
    }
    proof {
        let given = views(records@);
        assert(given.take(i as int) =~= given);
        lemma_order_sorts(given);
        assert forall|expiry: Option<i64>|
            #![trigger expiring_at(expiry)]
            views(sorted@).filter(expiring_at(expiry)) == given.filter(
                expiring_at(expiry),
            ) by {
            lemma_order_keeps_runs(given, expiry);
        }
    }
    sorted
}

} // verus!
