//! The watermark store: for each feed, the publish time of the newest item
//! delivered so far.
use vstd::prelude::*;
use crate::timestamp::Timestamp;

verus! {

/// The mapping that a list of entries stands for; a later entry for the same
/// feed overrides an earlier one.
pub open spec fn map_of(s: Seq<(String, Timestamp)>) -> Map<Seq<char>, Timestamp>
    decreases s.len(),
{
    if s.len() == 0 {
        Map::empty()
    } else {
        map_of(s.drop_last()).insert(s.last().0@, s.last().1)
    }
}

/// No two entries name the same feed.
pub open spec fn keys_distinct(s: Seq<(String, Timestamp)>) -> bool {
    forall|a: int, b: int| 0 <= a < b < s.len() ==> s[a].0@ != s[b].0@
}

/// Feed identifier to watermark, one entry per feed.
pub struct WatermarkStore {
    entries: Vec<(String, Timestamp)>,
}

impl View for WatermarkStore {
    type V = Map<Seq<char>, Timestamp>;

    closed spec fn view(&self) -> Map<Seq<char>, Timestamp> {
        map_of(self.entries@)
    }
}

/// With distinct keys, an entry's feed maps to that entry's watermark.
proof fn lemma_map_of_entry(s: Seq<(String, Timestamp)>, i: int)
    requires
        keys_distinct(s),
        0 <= i < s.len(),
    ensures
        map_of(s).get(s[i].0@) == Some(s[i].1),
    decreases s.len(),
{
    if i < s.len() - 1 {
        lemma_map_of_entry(s.drop_last(), i);
    }
}

/// A feed that no entry names is not in the mapping.
proof fn lemma_map_of_absent(s: Seq<(String, Timestamp)>, k: Seq<char>)
    requires
        forall|i: int| 0 <= i < s.len() ==> s[i].0@ != k,
    ensures
        !map_of(s).dom().contains(k),
    decreases s.len(),
{
    if s.len() > 0 {
        lemma_map_of_absent(s.drop_last(), k);
    }
}

/// Replacing the watermark of an entry replaces it in the mapping.
proof fn lemma_map_of_update(s: Seq<(String, Timestamp)>, i: int, e: (String, Timestamp))
    requires
        keys_distinct(s),
        0 <= i < s.len(),
        e.0@ == s[i].0@,
    ensures
        map_of(s.update(i, e)) == map_of(s).insert(e.0@, e.1),
    decreases s.len(),
{
    let u = s.update(i, e);
    assert(u.drop_last() =~= if i == s.len() - 1 { s.drop_last() } else { s.drop_last().update(i, e) });
    if i == s.len() - 1 {
        assert(map_of(u) =~= map_of(s).insert(e.0@, e.1));
    } else {
        lemma_map_of_update(s.drop_last(), i, e);
        assert(map_of(u) =~= map_of(s).insert(e.0@, e.1));
    }
}

impl WatermarkStore {
    /// Whether the entries are one per feed.
    pub closed spec fn wf(&self) -> bool {
        keys_distinct(self.entries@)
    }

    /// An empty store.
    pub fn new() -> (r: WatermarkStore)
        ensures
            r.wf(),
            r@ == Map::<Seq<char>, Timestamp>::empty(),
    {
        WatermarkStore { entries: Vec::new() }
    }

    /// The store that loading yields: the decoded entries, or, where the
    /// persisted state was missing or could not be decoded (`None`), an
    /// empty store. A later entry for the same feed overrides an earlier one.
    pub fn from_loaded(loaded: Option<Vec<(String, Timestamp)>>) -> (r: WatermarkStore)
        ensures
            r.wf(),
            r@ == match loaded {
                Some(v) => map_of(v@),
                None => Map::empty(),
            },
    {
        let mut store = WatermarkStore::new();
        match loaded {
            None => store,
            Some(v) => {
                let mut i: usize = 0;
                while i < v.len()
                    invariant
                        i <= v.len(),
                        store.wf(),
                        store@ == map_of(v@.take(i as int)),
                    decreases v.len() - i,
                {
                    let name = v[i].0.clone();
                    store.set(name, v[i].1);
                    proof {
                        assert(v@.take(i + 1).drop_last() =~= v@.take(i as int));
                    }
                    i = i + 1;
                }
                proof {
                    assert(v@.take(i as int) =~= v@);
                }
                store
            },
        }
    }

    /// The watermark stored for a feed; `None` if nothing was ever delivered
    /// for it.
    pub fn get(&self, feed: &String) -> (r: Option<Timestamp>)
        requires
            self.wf(),
        ensures
            r == self@.get(feed@),
    {
        let mut i: usize = 0;
        while i < self.entries.len()
            invariant
                i <= self.entries.len(),
                keys_distinct(self.entries@),
                forall|j: int| 0 <= j < i ==> self.entries@[j].0@ != feed@,
            decreases self.entries.len() - i,
        {
            if self.entries[i].0 == *feed {
                proof {
                    lemma_map_of_entry(self.entries@, i as int);
                }
                return Some(self.entries[i].1);
            }
            i = i + 1;
        }
        proof {
            lemma_map_of_absent(self.entries@, feed@);
        }
        None
    }

    /// Overwrites the watermark of a feed.
    pub fn set(&mut self, feed: String, t: Timestamp)
        requires
            old(self).wf(),
        ensures
            final(self).wf(),
            final(self)@ == old(self)@.insert(feed@, t),
    {
        let mut i: usize = 0;
        while i < self.entries.len()
            invariant
                i <= self.entries.len(),
                self.entries@ == old(self).entries@,
                keys_distinct(self.entries@),
                forall|j: int| 0 <= j < i ==> self.entries@[j].0@ != feed@,
            decreases self.entries.len() - i,
        {
            if self.entries[i].0 == feed {
                proof {
                    lemma_map_of_update(self.entries@, i as int, (feed, t));
                }
                self.entries.set(i, (feed, t));
                return;
            }
            i = i + 1;
        }
        self.entries.push((feed, t));
        proof {
            assert(self.entries@.drop_last() =~= old(self).entries@);
        }
    }

    /// The entries to persist, one per feed.
    pub fn entries(&self) -> (r: Vec<(String, Timestamp)>)
        requires
            self.wf(),
        ensures
            keys_distinct(r@),
            map_of(r@) == self@,
    {
        let mut r: Vec<(String, Timestamp)> = Vec::new();
        let mut i: usize = 0;
        while i < self.entries.len()
            invariant
                i <= self.entries.len(),
                r@ == self.entries@.take(i as int),
            decreases self.entries.len() - i,
        {
            let name = self.entries[i].0.clone();
            r.push((name, self.entries[i].1));
            proof {
                assert(r@ =~= self.entries@.take(i + 1));
            }
            i = i + 1;
        }
        proof {
            assert(r@ =~= self.entries@);
        }
        r
    }
}

} // verus!
