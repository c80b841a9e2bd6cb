use feed_relay::cycle::{prepare_card, FeedCycle, BATCH_SIZE};
use feed_relay::feed::RawItem;
use feed_relay::store::WatermarkStore;
use feed_relay::timestamp::Timestamp;

fn at(secs: i64) -> Timestamp {
    Timestamp { secs, nanos: 0, offset: 0 }
}

/// An item published `minute` minutes after 2003-06-10 04:00:00 GMT.
fn dated_item(minute: i64) -> RawItem {
    RawItem {
        title: Some(format!("item {}", minute)),
        link: Some(format!("https://example.org/{}", minute)),
        description: Some(format!("<p>body {}</p>", minute)),
        pub_date: Some(format!("Tue, 10 Jun 2003 {:02}:{:02}:00 GMT", 4 + minute / 60, minute % 60)),
    }
}

const BASE: i64 = 1055217600;

#[test]
fn missing_state_loads_empty() {
    let store = WatermarkStore::from_loaded(None);
    assert!(store.entries().is_empty());
    assert_eq!(store.get(&"https://a".to_string()), None);
}

#[test]
fn loaded_entries_are_kept_and_later_duplicates_win() {
    let store = WatermarkStore::from_loaded(Some(vec![
        ("https://a".to_string(), at(5)),
        ("https://b".to_string(), at(6)),
        ("https://a".to_string(), at(7)),
    ]));
    assert_eq!(store.get(&"https://a".to_string()), Some(at(7)));
    assert_eq!(store.get(&"https://b".to_string()), Some(at(6)));
    assert_eq!(store.entries().len(), 2);
}

#[test]
fn set_overwrites_one_feed_only() {
    let mut store = WatermarkStore::new();
    store.set("https://a".to_string(), at(1));
    store.set("https://b".to_string(), at(2));
    store.set("https://a".to_string(), at(3));
    assert_eq!(store.get(&"https://a".to_string()), Some(at(3)));
    assert_eq!(store.get(&"https://b".to_string()), Some(at(2)));
}

#[test]
fn card_uses_defaults_for_missing_fields() {
    let item = RawItem { title: None, link: None, description: None, pub_date: None };
    let c = prepare_card(&item, at(9));
    assert_eq!(c.title, "No Title");
    assert_eq!(c.link, "");
    assert_eq!(c.description, "No description");
    assert_eq!(c.stamp, at(9));
}

#[test]
fn card_sanitizes_description() {
    let c = prepare_card(&dated_item(3), at(1));
    assert_eq!(c.title, "item 3");
    assert_eq!(c.link, "https://example.org/3");
    assert_eq!(c.description, "body 3");
}

#[test]
fn empty_plan_leaves_watermark_alone() {
    let items = vec![dated_item(0)];
    assert!(FeedCycle::begin(&items, Some(at(BASE))).is_none());
    assert!(FeedCycle::begin(&Vec::new(), None).is_none());
}

#[test]
fn full_cycle_advances_watermark_to_newest() {
    let items: Vec<RawItem> = (0..25).rev().map(dated_item).collect();
    let mut store = WatermarkStore::new();
    let feed = "https://feed".to_string();
    store.set(feed.clone(), at(BASE - 1));
    let mut cycle = FeedCycle::begin(&items, store.get(&feed)).unwrap();
    let mut sizes = Vec::new();
    while let Some(batch) = cycle.next_batch() {
        sizes.push(batch.len());
        cycle.record(true);
    }
    assert_eq!(sizes, vec![BATCH_SIZE, BATCH_SIZE, 5]);
    assert!(!cycle.failed());
    assert!(cycle.commit(&mut store, feed.clone()));
    assert_eq!(store.get(&feed), Some(at(BASE + 24 * 60)));
}

#[test]
fn batches_go_out_oldest_first() {
    let items: Vec<RawItem> = (0..12).rev().map(dated_item).collect();
    let cycle = FeedCycle::begin(&items, Some(at(BASE - 1))).unwrap();
    let batch = cycle.next_batch().unwrap();
    assert_eq!(batch.len(), 10);
    assert_eq!(batch[0].title, "item 0");
    assert_eq!(batch[9].title, "item 9");
    assert_eq!(batch[9].stamp.secs, BASE + 9 * 60);
}

#[test]
fn failed_second_batch_keeps_first_batch_progress() {
    let items: Vec<RawItem> = (0..30).map(dated_item).collect();
    let mut store = WatermarkStore::new();
    let feed = "https://feed".to_string();
    let other = "https://other".to_string();
    store.set(feed.clone(), at(BASE - 1));
    store.set(other.clone(), at(42));
    let mut cycle = FeedCycle::begin(&items, store.get(&feed)).unwrap();
    assert!(cycle.next_batch().is_some());
    cycle.record(true);
    assert!(cycle.next_batch().is_some());
    cycle.record(false);
    assert!(cycle.next_batch().is_none());
    assert!(cycle.failed());
    assert!(cycle.commit(&mut store, feed.clone()));
    assert_eq!(store.get(&feed), Some(at(BASE + 9 * 60)));
    assert_eq!(store.get(&other), Some(at(42)));
}

#[test]
fn failed_first_batch_changes_nothing() {
    let items: Vec<RawItem> = (0..4).map(dated_item).collect();
    let mut store = WatermarkStore::new();
    let feed = "https://feed".to_string();
    let mut cycle = FeedCycle::begin(&items, store.get(&feed)).unwrap();
    cycle.record(false);
    assert_eq!(cycle.new_watermark(), None);
    assert!(!cycle.commit(&mut store, feed.clone()));
    assert_eq!(store.get(&feed), None);
}

#[test]
fn watermark_never_moves_back() {
    let items: Vec<RawItem> = (0..3).map(dated_item).collect();
    let mut store = WatermarkStore::new();
    let feed = "https://feed".to_string();
    store.set(feed.clone(), at(BASE + 60));
    let mut cycle = FeedCycle::begin(&items, store.get(&feed)).unwrap();
    while cycle.next_batch().is_some() {
        cycle.record(true);
    }
    cycle.commit(&mut store, feed.clone());
    assert!(store.get(&feed).unwrap().secs >= BASE + 60);
    assert_eq!(store.get(&feed), Some(at(BASE + 120)));
}
