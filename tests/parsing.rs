use feed_relay::feed::{dated_items, parse_feed, FeedError};
use feed_relay::timestamp::{later, parse_pub_date, Timestamp};

#[test]
fn rfc2822_date_with_offset() {
    let t = parse_pub_date("Tue, 02 Jan 2024 12:00:00 +0200").unwrap();
    assert_eq!(t.secs, 1704189600);
    assert_eq!(t.nanos, 0);
    assert_eq!(t.offset, 7200);
}

#[test]
fn rfc2822_date_in_gmt() {
    let t = parse_pub_date("Tue, 10 Jun 2003 04:00:00 GMT").unwrap();
    assert_eq!(t, Timestamp { secs: 1055217600, nanos: 0, offset: 0 });
}

#[test]
fn unparseable_date_is_none() {
    assert_eq!(parse_pub_date("yesterday"), None);
    assert_eq!(parse_pub_date(""), None);
}

#[test]
fn later_picks_the_later_instant() {
    let a = Timestamp { secs: 10, nanos: 0, offset: 0 };
    let b = Timestamp { secs: 9, nanos: 999, offset: 3600 };
    assert_eq!(later(Some(a), b), a);
    assert_eq!(later(Some(b), a), a);
    assert_eq!(later(None, b), b);
}

const DOC: &str = r#"<?xml version="1.0"?>
<rss version="2.0"><channel><title>News</title><link>https://example.org</link><description>d</description>
<item><title>One</title><link>https://example.org/1</link><description>&lt;b&gt;first&lt;/b&gt;</description><pubDate>Tue, 10 Jun 2003 04:00:00 GMT</pubDate></item>
<item><title>Two</title></item>
</channel></rss>"#;

#[test]
fn rss_document_is_read() {
    let feed = parse_feed(&DOC.as_bytes().to_vec()).unwrap();
    assert_eq!(feed.title, "News");
    assert_eq!(feed.items.len(), 2);
    assert_eq!(feed.items[0].title.as_deref(), Some("One"));
    assert_eq!(feed.items[0].link.as_deref(), Some("https://example.org/1"));
    assert_eq!(feed.items[0].description.as_deref(), Some("<b>first</b>"));
    assert_eq!(feed.items[1].pub_date, None);
    let d = dated_items(&feed.items);
    assert_eq!(d.len(), 1);
    assert_eq!(d[0].0, 0);
    assert_eq!(d[0].1.secs, 1055217600);
}

#[test]
fn garbage_is_malformed() {
    assert!(matches!(parse_feed(&b"not xml at all".to_vec()), Err(FeedError::Malformed)));
    assert!(matches!(parse_feed(&Vec::new()), Err(FeedError::Malformed)));
}
