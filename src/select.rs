//! Choosing which datable items of a feed are delivered, and in which order.
use vstd::prelude::*;
use crate::timestamp::Timestamp;

verus! {

/// How many items a feed with no watermark yet gets on its first poll.
pub const FIRST_RUN_CAP: usize = 3;

/// Delivery order over positions of `s`: older first, and among equal
/// instants the one that came first in the feed.
pub open spec fn before(s: Seq<Timestamp>, i: int, j: int) -> bool {
    s[i].instant() < s[j].instant() || (s[i].instant() == s[j].instant() && i < j)
}

/// `r` lists positions of `s`, each strictly before the next in delivery order.
pub open spec fn in_order(s: Seq<Timestamp>, r: Seq<usize>) -> bool {
    &&& forall|k: int| 0 <= k < r.len() ==> r[k] < s.len()
    &&& forall|a: int, b: int| 0 <= a < b < r.len() ==> before(s, r[a] as int, r[b] as int)
}

/// `full` is every position of `s`, in delivery order.
pub open spec fn full_order(s: Seq<Timestamp>, full: Seq<usize>) -> bool {
    &&& in_order(s, full)
    &&& full.len() == s.len()
    &&& forall|p: usize| p < s.len() ==> full.contains(p)
}

/// Whether a position is new against a watermark.
pub open spec fn is_new(s: Seq<Timestamp>, mark: Timestamp, p: usize) -> bool {
    p < s.len() && s[p as int].instant() > mark.instant()
}

/// How many items a first poll delivers out of `n`.
pub open spec fn first_run_count(n: nat) -> nat {
    if n < FIRST_RUN_CAP { n } else { FIRST_RUN_CAP as nat }
}

/// `r` is the delivery list for datable items with timestamps `s` against the
/// stored watermark `mark`:
/// with a watermark, every strictly newer item, oldest first;
/// without one, the newest few items, oldest first.
pub open spec fn is_delivery(s: Seq<Timestamp>, mark: Option<Timestamp>, r: Seq<usize>) -> bool {
    match mark {
        Some(w) => {
            &&& in_order(s, r)
            &&& forall|p: usize| r.contains(p) <==> is_new(s, w, p)
        },
        None => exists|full: Seq<usize>|
            #![trigger full_order(s, full)]
            full_order(s, full) && r == full.subrange(
                s.len() - first_run_count(s.len()),
                s.len() as int,
            ),
    }
}

/// Puts the positions `cands` into delivery order.
fn order_positions(s: &Vec<Timestamp>, cands: &Vec<usize>) -> (r: Vec<usize>)
    requires
        forall|k: int| 0 <= k < cands.len() ==> cands[k] < s.len(),
        forall|a: int, b: int| 0 <= a < b < cands.len() ==> cands[a] < cands[b],
    ensures
        in_order(s@, r@),
        r.len() == cands.len(),
        forall|p: usize| r@.contains(p) <==> cands@.contains(p),
{
    let mut r: Vec<usize> = Vec::new();
    let mut i: usize = 0;
    while i < cands.len()
        invariant
            i <= cands.len(),
            forall|k: int| 0 <= k < cands.len() ==> cands[k] < s.len(),
            forall|a: int, b: int| 0 <= a < b < cands.len() ==> cands[a] < cands[b],
            in_order(s@, r@),
            r.len() == i,
            forall|p: usize| r@.contains(p) <==> cands@.subrange(0, i as int).contains(p),
        decreases cands.len() - i,
    {
        let x = cands[i];
        // find the first element of r that x comes before
        let mut j: usize = 0;
        while j < r.len() && !before_exec(s, x, r[j])
            invariant
                j <= r.len(),
                i < cands.len(),
                x == cands[i as int],
                x < s.len(),
                forall|a: int, b: int| 0 <= a < b < cands.len() ==> cands[a] < cands[b],
                forall|p: usize| r@.contains(p) <==> cands@.subrange(0, i as int).contains(p),
                in_order(s@, r@),
                forall|k: int| 0 <= k < j ==> before(s@, r[k] as int, x as int),
            decreases r.len() - j,
        {
            proof {
                // x is not before r[j] and differs from it, so r[j] is before x
                assert(r@.contains(r[j as int]));
                let pre = cands@.subrange(0, i as int);
                assert(pre.contains(r[j as int]));
                let q = choose|q: int| 0 <= q < pre.len() && pre[q] == r[j as int];
                assert(cands[q] < cands[i as int]);
            }
            j = j + 1;
        }
        proof {
            assert forall|k: int| j <= k < r.len() implies before(s@, x as int, r[k] as int) by {
                if k > j {
                    assert(before(s@, r[j as int] as int, r[k] as int));
                }
            }
        }
        let ghost old_r = r@;
        r.insert(j, x);
        proof {
            assert forall|k: int| 0 <= k < r.len() implies r[k] < s.len() by {
                if k < j { assert(r[k] == old_r[k]); } else if k > j { assert(r[k] == old_r[k - 1]); }
            }
            assert forall|a: int, b: int| 0 <= a < b < r.len() implies before(s@, r[a] as int, r[b] as int) by {
                if b < j {
                    assert(r[a] == old_r[a] && r[b] == old_r[b]);
                } else if b == j {
                    assert(r[a] == old_r[a]);
                } else if a == j {
                    assert(r[b] == old_r[b - 1]);
                } else if a < j {
                    assert(r[a] == old_r[a] && r[b] == old_r[b - 1]);
                } else {
                    assert(r[a] == old_r[a - 1] && r[b] == old_r[b - 1]);
                }
            }
            let pre = cands@.subrange(0, i as int);
            let pre1 = cands@.subrange(0, i + 1);
            assert(pre1 =~= pre.push(x));
            assert forall|p: usize| r@.contains(p) <==> pre1.contains(p) by {
                if r@.contains(p) {
                    let k = choose|k: int| 0 <= k < r.len() && r[k] == p;
                    if k < j { assert(old_r.contains(p) && old_r[k] == p); }
                    else if k > j { assert(old_r[k - 1] == p); assert(old_r.contains(p)); }
                    if k == j { assert(pre1[i as int] == p); } else {
                        let m = choose|m: int| 0 <= m < pre.len() && pre[m] == p;
                        assert(pre1[m] == p);
                    }
                }
                if pre1.contains(p) {
                    let k = choose|k: int| 0 <= k < pre1.len() && pre1[k] == p;
                    if k == i {
                        assert(r[j as int] == p);
                    } else {
                        assert(pre[k] == p);
                        assert(old_r.contains(p));
                        let m = choose|m: int| 0 <= m < old_r.len() && old_r[m] == p;
                        if m < j { assert(r[m] == p); } else { assert(r[m + 1] == p); }
                    }
                }
            }
        }
        i = i + 1;
    }
    proof {
        assert(cands@.subrange(0, i as int) =~= cands@);
    }
    r
}

/// The delivery list for datable items with timestamps `s` (in feed order)
/// against the stored watermark `mark`, as positions into `s`.
pub fn select_delivery(s: &Vec<Timestamp>, mark: Option<Timestamp>) -> (r: Vec<usize>)
    ensures
        is_delivery(s@, mark, r@),
{
    match mark {
        Some(w) => {
            let mut cands: Vec<usize> = Vec::new();
            let mut i: usize = 0;
            while i < s.len()
                invariant
                    i <= s.len(),
                    forall|k: int| 0 <= k < cands.len() ==> cands[k] < i,
                    forall|a: int, b: int| 0 <= a < b < cands.len() ==> cands[a] < cands[b],
                    forall|p: usize| cands@.contains(p) <==> (p < i && is_new(s@, w, p)),
                decreases s.len() - i,
            {
                let ghost old_c = cands@;
                if s[i].is_after(&w) {
                    cands.push(i);
                }
                proof {
                    assert forall|p: usize| cands@.contains(p) <==> (p < i + 1 && is_new(s@, w, p)) by {
                        if cands@.contains(p) {
                            let m = choose|m: int| 0 <= m < cands.len() && cands[m] == p;
                            if m < old_c.len() {
                                assert(old_c[m] == p);
                                assert(old_c.contains(p));
                            }
                        }
                        if p < i && is_new(s@, w, p) {
                            assert(old_c.contains(p));
                            let m = choose|m: int| 0 <= m < old_c.len() && old_c[m] == p;
                            assert(cands[m] == p);
                        }
                        if p == i && is_new(s@, w, p) {
                            assert(cands[cands.len() - 1] == p);
                        }
                    }
                }
                i = i + 1;
            }
            order_positions(s, &cands)
        },
        None => {
            let n = s.len();
            let mut all: Vec<usize> = Vec::new();
            let mut i: usize = 0;
            while i < n
                invariant
                    i <= n,
                    n == s.len(),
                    all.len() == i,
                    forall|k: int| 0 <= k < i ==> all[k] == k,
                decreases n - i,
            {
                all.push(i);
                i = i + 1;
            }
            let full = order_positions(s, &all);
            proof {
                assert forall|p: usize| p < s.len() implies full@.contains(p) by {
                    assert(all[p as int] == p);
                    assert(all@.contains(p));
                }
            }
            let k: usize = if n < FIRST_RUN_CAP { n } else { FIRST_RUN_CAP };
            let mut r: Vec<usize> = Vec::new();
            let mut j: usize = n - k;
            while j < n
                invariant
                    k <= n,
                    n - k <= j <= n,
                    n == full.len(),
                    r@ == full@.subrange(n - k, j as int),
                decreases n - j,
            {
                r.push(full[j]);
                proof {
                    assert(full@.subrange(n - k, j + 1) =~= full@.subrange(n - k, j as int).push(full[j as int]));
                }
                j = j + 1;
            }
            proof {
                assert(full_order(s@, full@));
            }
            r
        },
    }
}

/// Two lists of the same positions, both in delivery order, are the same list.
pub proof fn lemma_order_unique(s: Seq<Timestamp>, a: Seq<usize>, b: Seq<usize>)
    requires
        in_order(s, a),
        in_order(s, b),
        forall|p: usize| a.contains(p) <==> b.contains(p),
    ensures
        a == b,
    decreases a.len(),
{
    if a.len() == 0 {
        if b.len() > 0 {
            assert(b.contains(b[0]));
        }
        assert(a =~= b);
    } else {
        assert(a.contains(a[0]));
        let j = choose|j: int| 0 <= j < b.len() && b[j] == a[0];
        assert(b.contains(b[0]));
        let i = choose|i: int| 0 <= i < a.len() && a[i] == b[0];
        if i > 0 && j > 0 {
            assert(before(s, a[0] as int, a[i] as int));
            assert(before(s, b[0] as int, b[j] as int));
        } else if i > 0 {
            assert(before(s, a[0] as int, a[i] as int));
        } else if j > 0 {
            assert(before(s, b[0] as int, b[j] as int));
        }
        assert(a[0] == b[0]);
        let a1 = a.skip(1);
        let b1 = b.skip(1);
        assert forall|x: int, y: int| 0 <= x < y < a1.len() implies before(s, a1[x] as int, a1[y] as int) by {
            assert(a1[x] == a[x + 1] && a1[y] == a[y + 1]);
        }
        assert forall|x: int, y: int| 0 <= x < y < b1.len() implies before(s, b1[x] as int, b1[y] as int) by {
            assert(b1[x] == b[x + 1] && b1[y] == b[y + 1]);
        }
        assert forall|p: usize| a1.contains(p) implies b1.contains(p) by {
            let x = choose|x: int| 0 <= x < a1.len() && a1[x] == p;
            assert(a[x + 1] == p);
            assert(before(s, a[0] as int, a[x + 1] as int));
            assert(a.contains(p));
            let y = choose|y: int| 0 <= y < b.len() && b[y] == p;
            assert(y != 0);
            assert(b1[y - 1] == p);
        }
        assert forall|p: usize| b1.contains(p) implies a1.contains(p) by {
            let x = choose|x: int| 0 <= x < b1.len() && b1[x] == p;
            assert(b[x + 1] == p);
            assert(before(s, b[0] as int, b[x + 1] as int));
            assert(b.contains(p));
            let y = choose|y: int| 0 <= y < a.len() && a[y] == p;
            assert(y != 0);
            assert(a1[y - 1] == p);
        }
        lemma_order_unique(s, a1, b1);
        assert(a =~= seq![a[0]] + a1);
        assert(b =~= seq![b[0]] + b1);
    }
}

/// Selecting twice from the same items against the same watermark gives the
/// same delivery list.
pub proof fn lemma_selection_deterministic(
    s: Seq<Timestamp>,
    mark: Option<Timestamp>,
    r1: Seq<usize>,
    r2: Seq<usize>,
)
    requires
        is_delivery(s, mark, r1),
        is_delivery(s, mark, r2),
    ensures
        r1 == r2,
{
    match mark {
        Some(w) => {
            lemma_order_unique(s, r1, r2);
        },
        None => {
            let f1 = choose|f: Seq<usize>| full_order(s, f) && r1 == f.subrange(
                s.len() - first_run_count(s.len()),
                s.len() as int,
            );
            let f2 = choose|f: Seq<usize>| full_order(s, f) && r2 == f.subrange(
                s.len() - first_run_count(s.len()),
                s.len() as int,
            );
            assert forall|p: usize| f1.contains(p) implies f2.contains(p) by {
                let k = choose|k: int| 0 <= k < f1.len() && f1[k] == p;
            }
            assert forall|p: usize| f2.contains(p) implies f1.contains(p) by {
                let k = choose|k: int| 0 <= k < f2.len() && f2[k] == p;
            }
            lemma_order_unique(s, f1, f2);
        },
    }
}

/// No item at or before the stored watermark is ever selected.
pub proof fn lemma_no_redelivery(s: Seq<Timestamp>, w: Timestamp, r: Seq<usize>)
    requires
        is_delivery(s, Some(w), r),
    ensures
        forall|k: int| 0 <= k < r.len() ==> s[r[k] as int].instant() > w.instant(),
{
    assert forall|k: int| 0 <= k < r.len() implies s[r[k] as int].instant() > w.instant() by {
        assert(r.contains(r[k]));
    }
}

/// With no watermark and at least three datable items, exactly three are
/// selected, oldest first, and none left out is newer than the oldest selected.
pub proof fn lemma_first_run_cap(s: Seq<Timestamp>, r: Seq<usize>)
    requires
        is_delivery(s, None, r),
        s.len() >= 3,
    ensures
        r.len() == 3,
        s[r[0] as int].instant() <= s[r[1] as int].instant() <= s[r[2] as int].instant(),
        forall|p: usize| p < s.len() && !r.contains(p) ==> s[p as int].instant() <= s[r[0] as int].instant(),
{
    let full = choose|f: Seq<usize>| full_order(s, f) && r == f.subrange(
        s.len() - first_run_count(s.len()),
        s.len() as int,
    );
    let n = s.len() as int;
    assert(r[0] == full[n - 3] && r[1] == full[n - 2] && r[2] == full[n - 1]);
    assert(before(s, full[n - 3] as int, full[n - 2] as int));
    assert(before(s, full[n - 2] as int, full[n - 1] as int));
    assert forall|p: usize| p < s.len() && !r.contains(p) implies s[p as int].instant() <= s[r[0] as int].instant() by {
        assert(full.contains(p));
        let k = choose|k: int| 0 <= k < full.len() && full[k] == p;
        if k >= n - 3 {
            assert(r[k - (n - 3)] == p);
        } else {
            assert(before(s, full[k] as int, full[n - 3] as int));
        }
    }
}

/// Executable form of `before`.
fn before_exec(s: &Vec<Timestamp>, i: usize, j: usize) -> (r: bool)
    requires
        i < s.len(),
        j < s.len(),
    ensures
        r == before(s@, i as int, j as int),
{
    s[j].is_after(&s[i]) || (!s[i].is_after(&s[j]) && i < j)
}

} // verus!
