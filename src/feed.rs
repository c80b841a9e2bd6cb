//! Feed documents and their items, as the library sees them.
use vstd::prelude::*;
use crate::timestamp::{Timestamp, parse_pub_date, rfc2822_parts, stamp_of};

verus! {

/// One entry of a feed; every field may be missing.
#[derive(Debug)]
pub struct RawItem {
    pub title: Option<String>,
    pub link: Option<String>,
    pub description: Option<String>,
    pub pub_date: Option<String>,
}

/// A parsed feed document: the channel's title and its items in document order.
#[derive(Debug)]
pub struct Feed {
    pub title: String,
    pub items: Vec<RawItem>,
}

/// The text of an optional field.
pub open spec fn opt_text(o: Option<String>) -> Option<Seq<char>> {
    match o {
        Some(s) => Some(s@),
        None => None,
    }
}

impl RawItem {
    /// Title, link, description and publish date, as text.
    pub open spec fn fields(self) -> (Option<Seq<char>>, Option<Seq<char>>, Option<Seq<char>>, Option<Seq<char>>) {
        (opt_text(self.title), opt_text(self.link), opt_text(self.description), opt_text(self.pub_date))
    }
}

impl Feed {
    /// The channel title and the fields of each item.
    pub open spec fn contents(self) -> (Seq<char>, Seq<(Option<Seq<char>>, Option<Seq<char>>, Option<Seq<char>>, Option<Seq<char>>)>) {
        (self.title@, self.items@.map_values(|i: RawItem| i.fields()))
    }
}

/// What an RSS reader makes of a document: the channel title and, for each item
/// in order, its title, link, description and publish date; `None` when the
/// bytes are not an RSS document.
pub uninterp spec fn rss_channel(b: Seq<u8>) -> Option<(Seq<char>, Seq<(Option<Seq<char>>, Option<Seq<char>>, Option<Seq<char>>, Option<Seq<char>>)>)>;

#[verifier::external_type_specification]
#[verifier::external_body]
pub struct ExRssError(rss::Error);

/// Relies on rss's `Channel::read_from`, read through the channel's `title` and
/// `items` and each item's `title`, `link`, `description` and `pub_date`: the
/// outcome depends on the bytes alone.
#[verifier::external_body]
fn read_channel(bytes: &[u8]) -> (r: Result<Feed, rss::Error>)
    ensures
        match r {
            Ok(f) => rss_channel(bytes@) == Some(f.contents()),
            Err(_) => rss_channel(bytes@) is None,
        },
{
    match rss::Channel::read_from(bytes) {
        Ok(c) => {
            let mut items = Vec::new();
            for i in c.items() {
                items.push(RawItem {
                    title: i.title().map(String::from),
                    link: i.link().map(String::from),
                    description: i.description().map(String::from),
                    pub_date: i.pub_date().map(String::from),
                });
            }
            Ok(Feed { title: c.title().to_string(), items })
        },
        Err(e) => Err(e),
    }
}

/// Why a fetched document yields no feed.
#[derive(Clone, Copy, Debug, PartialEq, Eq, Structural)]
pub enum FeedError {
    /// The bytes are not a valid RSS document.
    Malformed,
}

/// Parses a fetched document into a feed.
pub fn parse_feed(bytes: &Vec<u8>) -> (r: Result<Feed, FeedError>)
    ensures
        r is Ok <==> rss_channel(bytes@) is Some,
        r matches Ok(f) ==> rss_channel(bytes@) == Some(f.contents()),
        r matches Err(e) ==> e == FeedError::Malformed,
{
    match read_channel(bytes.as_slice()) {
        Ok(f) => Ok(f),
        Err(_) => Err(FeedError::Malformed),
    }
}

/// The publish timestamp of an item, if it has one that parses.
pub open spec fn date_of(item: RawItem) -> Option<Timestamp> {
    match item.pub_date {
        Some(d) => stamp_of(rfc2822_parts(d@)),
        None => None,
    }
}

/// The datable items of `items`: each one's position and timestamp, in feed order.
pub open spec fn dated(items: Seq<RawItem>) -> Seq<(usize, Timestamp)>
    decreases items.len(),
{
    if items.len() == 0 {
        seq![]
    } else {
        let rest = dated(items.drop_last());
        match date_of(items.last()) {
            Some(t) => rest.push(((items.len() - 1) as usize, t)),
            None => rest,
        }
    }
}

/// Each entry of `dated(items)` names an item whose publish date parses to the
/// entry's timestamp, and the positions rise strictly.
pub proof fn lemma_dated_entries(items: Seq<RawItem>)
    requires
        items.len() <= usize::MAX,
    ensures
        forall|k: int| 0 <= k < dated(items).len() ==> {
            &&& (#[trigger] dated(items)[k]).0 < items.len()
            &&& date_of(items[dated(items)[k].0 as int]) == Some(dated(items)[k].1)
        },
        forall|a: int, b: int| 0 <= a < b < dated(items).len() ==> dated(items)[a].0 < dated(items)[b].0,
    decreases items.len(),
{
    if items.len() > 0 {
        let pre = items.drop_last();
        lemma_dated_entries(pre);
        assert forall|k: int| 0 <= k < dated(pre).len() implies items[dated(pre)[k].0 as int] == pre[dated(pre)[k].0 as int] by {
            assert(dated(pre)[k].0 < pre.len());
        }
        let d = dated(items);
        let dp = dated(pre);
        assert(items.last() == items[items.len() - 1]);
        match date_of(items.last()) {
            Some(t) => {
                assert(d == dp.push(((items.len() - 1) as usize, t)));
            },
            None => {
                assert(d == dp);
            },
        }
        assert forall|k: int| 0 <= k < d.len() implies {
            &&& (#[trigger] d[k]).0 < items.len()
            &&& date_of(items[d[k].0 as int]) == Some(d[k].1)
        } by {
            if k < dp.len() {
                assert(d[k] == dp[k]);
            }
        }
        assert forall|a: int, b: int| 0 <= a < b < d.len() implies d[a].0 < d[b].0 by {
            assert(d[a] == dp[a]);
            if b < dp.len() {
                assert(d[b] == dp[b]);
            }
        }
    }
}

/// The datable items of a feed, in feed order. Items without a publish date, or
/// with one that does not parse, are left out.
pub fn dated_items(items: &Vec<RawItem>) -> (r: Vec<(usize, Timestamp)>)
    ensures
        r@ == dated(items@),
{
    let mut r: Vec<(usize, Timestamp)> = Vec::new();
    let mut i: usize = 0;
    while i < items.len()
        invariant
            i <= items.len(),
            r@ == dated(items@.take(i as int)),
        decreases items.len() - i,
    {
        proof {
            assert(items@.take(i + 1).drop_last() =~= items@.take(i as int));
            assert(items@.take(i + 1).last() == items@[i as int]);
        }
        match &items[i].pub_date {
            Some(d) => {
                match parse_pub_date(d.as_str()) {
                    Some(t) => r.push((i, t)),
                    None => {},
                }
            },
            None => {},
        }
        i = i + 1;
    }
    proof {
        assert(items@.take(i as int) =~= items@);
    }
    r
}

} // verus!
