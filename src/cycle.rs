//! One feed's delivery in one cycle: the plan cut into batches, handed out one
//! batch at a time, with the watermark advanced as batches are confirmed.
//!
//! The caller dispatches each batch and reports whether it went through; the
//! first failure ends the cycle, keeping the progress already confirmed.
use vstd::prelude::*;
use vstd::string::*;
use crate::feed::RawItem;
use crate::plan::{is_plan, plan_delivery};
use crate::sanitize::{sanitize, sanitized};
use crate::store::WatermarkStore;
use crate::timestamp::{Timestamp, later, later_of};

verus! {

/// How many items go in one notification.
pub const BATCH_SIZE: usize = 10;

/// One notification card, ready to send.
pub struct Card {
    pub title: String,
    pub link: String,
    pub description: String,
    pub stamp: Timestamp,
}

/// `c` is the card for `item` published at `stamp`: its title (default
/// `No Title`), its link (default empty) and its sanitized description
/// (default `No description`).
pub open spec fn is_card_for(c: Card, item: RawItem, stamp: Timestamp) -> bool {
    &&& c.title@ == match item.title {
        Some(t) => t@,
        None => "No Title"@,
    }
    &&& c.link@ == match item.link {
        Some(l) => l@,
        None => Seq::<char>::empty(),
    }
    &&& c.description@ == sanitized(
        match item.description {
            Some(d) => d@,
            None => "No description"@,
        },
    )
    &&& c.stamp == stamp
}

/// Builds the card for an item published at `stamp`.
pub fn prepare_card(item: &RawItem, stamp: Timestamp) -> (c: Card)
    ensures
        is_card_for(c, *item, stamp),
{
    let title = match &item.title {
        Some(t) => t.clone(),
        None => String::from_str("No Title"),
    };
    let link = match &item.link {
        Some(l) => l.clone(),
        None => String::new(),
    };
    let description = match &item.description {
        Some(d) => sanitize(d.as_str()),
        None => sanitize("No description"),
    };
    Card { title, link, description, stamp }
}

fn copy_card(c: &Card) -> (r: Card)
    ensures
        r == *c,
{
    Card {
        title: c.title.clone(),
        link: c.link.clone(),
        description: c.description.clone(),
        stamp: c.stamp,
    }
}

/// The state of one feed's cycle.
pub struct CycleState {
    /// The delivery plan: feed positions and timestamps, in delivery order.
    pub plan: Seq<(usize, Timestamp)>,
    /// The card of each planned item.
    pub cards: Seq<Card>,
    /// The watermark stored when the cycle began.
    pub prior: Option<Timestamp>,
    /// How many planned items have been confirmed delivered.
    pub delivered: nat,
    /// The watermark as advanced by the confirmed batches.
    pub running: Option<Timestamp>,
    /// Whether a dispatch failed.
    pub failed: bool,
}

/// The state in which a cycle begins.
pub open spec fn start(plan: Seq<(usize, Timestamp)>, cards: Seq<Card>, prior: Option<Timestamp>) -> CycleState {
    CycleState { plan, cards, prior, delivered: 0, running: prior, failed: false }
}

/// What every state of a cycle satisfies.
pub open spec fn cycle_wf(v: CycleState) -> bool {
    &&& v.cards.len() == v.plan.len()
    &&& v.delivered <= v.plan.len()
    &&& v.delivered == 0 ==> v.running == v.prior
    &&& v.delivered > 0 ==> v.running is Some
    &&& v.prior matches Some(p) ==> (v.running matches Some(m) && m.instant() >= p.instant())
}

/// Whether a batch remains to be dispatched.
pub open spec fn pending(v: CycleState) -> bool {
    !v.failed && v.delivered < v.plan.len()
}

/// Where the next batch ends.
pub open spec fn batch_end(v: CycleState) -> nat {
    if v.delivered + BATCH_SIZE < v.plan.len() {
        (v.delivered + BATCH_SIZE) as nat
    } else {
        v.plan.len()
    }
}

/// The state after the next batch's dispatch succeeded (`ok`) or failed.
pub open spec fn step(v: CycleState, ok: bool) -> CycleState {
    if !pending(v) {
        v
    } else if ok {
        CycleState {
            delivered: batch_end(v),
            running: Some(later_of(v.running, v.plan[batch_end(v) - 1].1)),
            ..v
        }
    } else {
        CycleState { failed: true, ..v }
    }
}

/// The state after dispatch outcomes `oks`, in order.
pub open spec fn run(v: CycleState, oks: Seq<bool>) -> CycleState
    decreases oks.len(),
{
    if oks.len() == 0 {
        v
    } else {
        step(run(v, oks.drop_last()), oks.last())
    }
}

/// The watermark to store for the feed: the advanced one once a batch was
/// confirmed, none (leave the store as it is) otherwise.
pub open spec fn outcome(v: CycleState) -> Option<Timestamp> {
    if v.delivered > 0 {
        v.running
    } else {
        None
    }
}

/// The store's mapping after a cycle's outcome is written back.
pub open spec fn committed(m: Map<Seq<char>, Timestamp>, feed: Seq<char>, v: CycleState) -> Map<Seq<char>, Timestamp> {
    match outcome(v) {
        Some(w) => m.insert(feed, w),
        None => m,
    }
}

/// Every step keeps a cycle well formed and its starting watermark.
proof fn lemma_run_wf(v: CycleState, oks: Seq<bool>)
    requires
        cycle_wf(v),
    ensures
        cycle_wf(run(v, oks)),
        run(v, oks).prior == v.prior,
        run(v, oks).plan == v.plan,
    decreases oks.len(),
{
    if oks.len() > 0 {
        lemma_run_wf(v, oks.drop_last());
    }
}

/// Outcomes one after another run as their concatenation does.
proof fn lemma_run_concat(v: CycleState, a: Seq<bool>, b: Seq<bool>)
    ensures
        run(v, a + b) == run(run(v, a), b),
    decreases b.len(),
{
    if b.len() == 0 {
        assert(a + b =~= a);
    } else {
        assert((a + b).drop_last() =~= a + b.drop_last());
        lemma_run_concat(v, a, b.drop_last());
    }
}

/// A cycle with no batch left stays as it is.
proof fn lemma_run_finished(v: CycleState, oks: Seq<bool>)
    requires
        !pending(v),
    ensures
        run(v, oks) == v,
    decreases oks.len(),
{
    if oks.len() > 0 {
        lemma_run_finished(v, oks.drop_last());
    }
}

/// Whatever the dispatch outcomes, the watermark stored for a feed after its
/// cycle is never earlier than the one stored before, and no other feed's
/// watermark changes.
pub proof fn lemma_watermark_monotone(
    m: Map<Seq<char>, Timestamp>,
    feed: Seq<char>,
    plan: Seq<(usize, Timestamp)>,
    cards: Seq<Card>,
    oks: Seq<bool>,
    v: CycleState,
)
    requires
        cards.len() == plan.len(),
        v == run(start(plan, cards, m.get(feed)), oks),
    ensures
        cycle_wf(v),
        m.dom().contains(feed) ==> committed(m, feed, v).dom().contains(feed)
            && committed(m, feed, v)[feed].instant() >= m[feed].instant(),
        forall|k: Seq<char>| k != feed ==> committed(m, feed, v).get(k) == m.get(k),
{
    lemma_run_wf(start(plan, cards, m.get(feed)), oks);
}

/// When the first batch is confirmed and the second one fails, the cycle is
/// over whatever comes after: the failure is reported, and the watermark
/// written back is the one reached at the end of the first batch.
pub proof fn lemma_partial_failure(
    m: Map<Seq<char>, Timestamp>,
    feed: Seq<char>,
    plan: Seq<(usize, Timestamp)>,
    cards: Seq<Card>,
    rest: Seq<bool>,
    v: CycleState,
)
    requires
        cards.len() == plan.len(),
        plan.len() > 2 * BATCH_SIZE,
        v == run(start(plan, cards, m.get(feed)), seq![true, false] + rest),
    ensures
        v.failed,
        !pending(v),
        v.delivered == BATCH_SIZE,
        outcome(v) == Some(later_of(m.get(feed), plan[BATCH_SIZE - 1].1)),
        committed(m, feed, v) == m.insert(feed, later_of(m.get(feed), plan[BATCH_SIZE - 1].1)),
{
    let s = start(plan, cards, m.get(feed));
    let two = seq![true, false];
    lemma_run_concat(s, two, rest);
    assert(two.drop_last() =~= seq![true]);
    assert(seq![true].drop_last() =~= Seq::<bool>::empty());
    assert(run(s, Seq::<bool>::empty()) == s);
    let first = step(s, true);
    assert(run(s, seq![true]) == first);
    assert(batch_end(s) == BATCH_SIZE);
    assert(first.delivered == BATCH_SIZE);
    assert(first.running == Some(later_of(m.get(feed), plan[BATCH_SIZE - 1].1)));
    let after = run(s, two);
    assert(after == step(first, false));
    assert(after.failed);
    lemma_run_finished(after, rest);
}

/// One feed's delivery in one cycle.
pub struct FeedCycle {
    plan: Vec<(usize, Timestamp)>,
    cards: Vec<Card>,
    prior: Option<Timestamp>,
    delivered: usize,
    running: Option<Timestamp>,
    failed: bool,
}

impl View for FeedCycle {
    type V = CycleState;

    closed spec fn view(&self) -> CycleState {
        CycleState {
            plan: self.plan@,
            cards: self.cards@,
            prior: self.prior,
            delivered: self.delivered as nat,
            running: self.running,
            failed: self.failed,
        }
    }
}

impl FeedCycle {
    /// Plans the delivery of a feed's items against its stored watermark
    /// `prior`. `None` when nothing is to be delivered: the watermark then
    /// stays as it is.
    pub fn begin(items: &Vec<RawItem>, prior: Option<Timestamp>) -> (r: Option<FeedCycle>)
        ensures
            match r {
                None => is_plan(items@, prior, Seq::empty()),
                Some(c) => {
                    &&& is_plan(items@, prior, c@.plan)
                    &&& c@.plan.len() > 0
                    &&& c@ == start(c@.plan, c@.cards, prior)
                    &&& cycle_wf(c@)
                    &&& forall|k: int| 0 <= k < c@.plan.len() ==> c@.plan[k].0 < items.len()
                        && is_card_for(#[trigger] c@.cards[k], items@[c@.plan[k].0 as int], c@.plan[k].1)
                },
            },
    {
        let plan = plan_delivery(items, prior);
        if plan.len() == 0 {
            proof {
                assert(plan@ =~= Seq::<(usize, Timestamp)>::empty());
            }
            return None;
        }
        let mut cards: Vec<Card> = Vec::new();
        let mut k: usize = 0;
        while k < plan.len()
            invariant
                k <= plan.len(),
                cards.len() == k,
                forall|j: int| 0 <= j < plan.len() ==> plan[j].0 < items.len(),
                forall|j: int| 0 <= j < k ==> is_card_for(#[trigger] cards@[j], items@[plan@[j].0 as int], plan@[j].1),
            decreases plan.len() - k,
        {
            let card = prepare_card(&items[plan[k].0], plan[k].1);
            cards.push(card);
            k = k + 1;
        }
        Some(FeedCycle { plan, cards, prior, delivered: 0, running: prior, failed: false })
    }

    /// The cards of the next batch, or `None` when the cycle is over: every
    /// batch confirmed, or a dispatch failed.
    pub fn next_batch(&self) -> (r: Option<Vec<Card>>)
        requires
            cycle_wf(self@),
        ensures
            r is Some <==> pending(self@),
            r matches Some(b) ==> b@ == self@.cards.subrange(self@.delivered as int, batch_end(self@) as int),
    {
        if self.failed || self.delivered >= self.plan.len() {
            return None;
        }
        let end = if self.plan.len() - self.delivered > BATCH_SIZE {
            self.delivered + BATCH_SIZE
        } else {
            self.plan.len()
        };
        let mut b: Vec<Card> = Vec::new();
        let mut k: usize = self.delivered;
        while k < end
            invariant
                self.delivered <= k <= end,
                end <= self.cards.len(),
                end == batch_end(self@),
                b@ == self.cards@.subrange(self.delivered as int, k as int),
            decreases end - k,
        {
            b.push(copy_card(&self.cards[k]));
            proof {
                assert(b@ =~= self.cards@.subrange(self.delivered as int, k + 1));
            }
            k = k + 1;
        }
        Some(b)
    }

    /// Records whether the batch last handed out was delivered.
    pub fn record(&mut self, ok: bool)
        requires
            cycle_wf(old(self)@),
        ensures
            final(self)@ == step(old(self)@, ok),
            cycle_wf(final(self)@),
    {
        if self.failed || self.delivered >= self.plan.len() {
            return;
        }
        if ok {
            let end = if self.plan.len() - self.delivered > BATCH_SIZE {
                self.delivered + BATCH_SIZE
            } else {
                self.plan.len()
            };
            self.running = Some(later(self.running, self.plan[end - 1].1));
            self.delivered = end;
        } else {
            self.failed = true;
        }
    }

    /// The watermark to store for the feed, or `None` to leave it as it is.
    pub fn new_watermark(&self) -> (r: Option<Timestamp>)
        ensures
            r == outcome(self@),
    {
        if self.delivered > 0 {
            self.running
        } else {
            None
        }
    }

    /// Whether a dispatch failed in this cycle.
    pub fn failed(&self) -> (r: bool)
        ensures
            r == self@.failed,
    {
        self.failed
    }

    /// Writes the cycle's watermark back for `feed`; whether the store changed.
    pub fn commit(&self, store: &mut WatermarkStore, feed: String) -> (changed: bool)
        requires
            old(store).wf(),
        ensures
            final(store).wf(),
            final(store)@ == committed(old(store)@, feed@, self@),
            changed == outcome(self@) is Some,
    {
        match self.new_watermark() {
            Some(w) => {
                store.set(feed, w);
                true
            },
            None => false,
        }
    }
}

} // verus!
