//! The delivery plan of one feed for one cycle: which items go out, in order.
use vstd::prelude::*;
use crate::feed::{RawItem, dated, dated_items, date_of, lemma_dated_entries};
use crate::select::{is_delivery, in_order, full_order, first_run_count, select_delivery, lemma_selection_deterministic};
use crate::timestamp::Timestamp;

verus! {

/// The timestamps of dated entries.
pub open spec fn stamps(d: Seq<(usize, Timestamp)>) -> Seq<Timestamp> {
    d.map_values(|e: (usize, Timestamp)| e.1)
}

/// `plan` lists the items of `items` to deliver against `mark`, each as its
/// position in the feed and its timestamp, in delivery order.
pub open spec fn is_plan(items: Seq<RawItem>, mark: Option<Timestamp>, plan: Seq<(usize, Timestamp)>) -> bool {
    exists|pos: Seq<usize>|
        #![trigger is_delivery(stamps(dated(items)), mark, pos)]
        is_delivery(stamps(dated(items)), mark, pos) && plan == pos.map_values(
            |p: usize| dated(items)[p as int],
        )
}

/// Every position of a delivery list lies within the timestamps it was chosen from.
pub proof fn lemma_delivery_in_range(s: Seq<Timestamp>, mark: Option<Timestamp>, r: Seq<usize>)
    requires
        is_delivery(s, mark, r),
    ensures
        forall|k: int| 0 <= k < r.len() ==> r[k] < s.len(),
{
    match mark {
        Some(w) => {},
        None => {
            let full = choose|f: Seq<usize>| full_order(s, f) && r == f.subrange(
                s.len() - first_run_count(s.len()),
                s.len() as int,
            );
            assert forall|k: int| 0 <= k < r.len() implies r[k] < s.len() by {
                assert(r[k] == full[s.len() - first_run_count(s.len()) + k]);
            }
        },
    }
}

/// The items of a feed to deliver against the stored watermark `mark`, each with
/// its position in the feed and its timestamp, in delivery order.
pub fn plan_delivery(items: &Vec<RawItem>, mark: Option<Timestamp>) -> (r: Vec<(usize, Timestamp)>)
    ensures
        is_plan(items@, mark, r@),
        forall|k: int| 0 <= k < r.len() ==> r[k].0 < items.len() && date_of(items@[r[k].0 as int]) == Some(r[k].1),
        mark matches Some(w) ==> forall|k: int| 0 <= k < r.len() ==> r[k].1.instant() > w.instant(),
{
    let d = dated_items(items);
    proof {
        assert(items@.len() == items.len());
        lemma_dated_entries(items@);
    }
    let mut s: Vec<Timestamp> = Vec::new();
    let mut i: usize = 0;
    while i < d.len()
        invariant
            i <= d.len(),
            s@ == stamps(d@.take(i as int)),
        decreases d.len() - i,
    {
        s.push(d[i].1);
        proof {
            assert(stamps(d@.take(i + 1)) =~= stamps(d@.take(i as int)).push(d@[i as int].1));
        }
        i = i + 1;
    }
    proof {
        assert(d@.take(i as int) =~= d@);
    }
    let pos = select_delivery(&s, mark);
    proof {
        lemma_delivery_in_range(s@, mark, pos@);
    }
    let mut r: Vec<(usize, Timestamp)> = Vec::new();
    let mut k: usize = 0;
    while k < pos.len()
        invariant
            k <= pos.len(),
            d@ == dated(items@),
            s.len() == d.len(),
            forall|j: int| 0 <= j < pos.len() ==> pos[j] < s.len(),
            r@ == pos@.take(k as int).map_values(|p: usize| d@[p as int]),
        decreases pos.len() - k,
    {
        r.push(d[pos[k]]);
        proof {
            assert(pos@.take(k + 1).map_values(|p: usize| d@[p as int]) =~= pos@.take(k as int).map_values(
                |p: usize| d@[p as int],
            ).push(d@[pos@[k as int] as int]));
        }
        k = k + 1;
    }
    proof {
        assert(pos@.take(k as int) =~= pos@);
        assert(is_delivery(stamps(dated(items@)), mark, pos@));
        assert forall|j: int| 0 <= j < r.len() implies r[j].0 < items.len() && date_of(items@[r[j].0 as int]) == Some(r[j].1) by {
            assert(r[j] == d@[pos[j] as int]);
        }
        if let Some(w) = mark {
            assert forall|j: int| 0 <= j < r.len() implies r[j].1.instant() > w.instant() by {
                assert(pos@.contains(pos[j]));
                assert(r[j] == d@[pos[j] as int]);
            }
        }
    }
    r
}

/// Planning twice for the same items against the same watermark gives the
/// same plan.
pub proof fn lemma_plan_deterministic(
    items: Seq<RawItem>,
    mark: Option<Timestamp>,
    p1: Seq<(usize, Timestamp)>,
    p2: Seq<(usize, Timestamp)>,
)
    requires
        is_plan(items, mark, p1),
        is_plan(items, mark, p2),
    ensures
        p1 == p2,
{
    let s = stamps(dated(items));
    let a = choose|pos: Seq<usize>| is_delivery(s, mark, pos) && p1 == pos.map_values(|p: usize| dated(items)[p as int]);
    let b = choose|pos: Seq<usize>| is_delivery(s, mark, pos) && p2 == pos.map_values(|p: usize| dated(items)[p as int]);
    lemma_selection_deterministic(s, mark, a, b);
}

/// An item without a publish date that parses is in no plan, whatever the
/// watermark.
pub proof fn lemma_undatable_never_planned(
    items: Seq<RawItem>,
    mark: Option<Timestamp>,
    plan: Seq<(usize, Timestamp)>,
    i: usize,
)
    requires
        items.len() <= usize::MAX,
        is_plan(items, mark, plan),
        i < items.len(),
        date_of(items[i as int]) is None,
    ensures
        forall|k: int| 0 <= k < plan.len() ==> plan[k].0 != i,
{
    let s = stamps(dated(items));
    let pos = choose|pos: Seq<usize>| is_delivery(s, mark, pos) && plan == pos.map_values(|p: usize| dated(items)[p as int]);
    lemma_delivery_in_range(s, mark, pos);
    lemma_dated_entries(items);
    assert forall|k: int| 0 <= k < plan.len() implies plan[k].0 != i by {
        assert(plan[k] == dated(items)[pos[k] as int]);
    }
}

/// Against a stored watermark, every planned item is strictly newer than it.
pub proof fn lemma_plan_after_mark(items: Seq<RawItem>, w: Timestamp, plan: Seq<(usize, Timestamp)>)
    requires
        is_plan(items, Some(w), plan),
    ensures
        forall|k: int| 0 <= k < plan.len() ==> plan[k].1.instant() > w.instant(),
{
    let s = stamps(dated(items));
    let pos = choose|pos: Seq<usize>| is_delivery(s, Some(w), pos) && plan == pos.map_values(|p: usize| dated(items)[p as int]);
    assert forall|k: int| 0 <= k < plan.len() implies plan[k].1.instant() > w.instant() by {
        assert(pos.contains(pos[k]));
        assert(plan[k] == dated(items)[pos[k] as int]);
        assert(s[pos[k] as int] == dated(items)[pos[k] as int].1);
    }
}

} // verus!
