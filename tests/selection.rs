use feed_relay::feed::RawItem;
use feed_relay::plan::plan_delivery;
use feed_relay::select::select_delivery;
use feed_relay::timestamp::Timestamp;

fn at(secs: i64) -> Timestamp {
    Timestamp { secs, nanos: 0, offset: 0 }
}

fn item(date: Option<&str>) -> RawItem {
    RawItem {
        title: Some("t".to_string()),
        link: None,
        description: None,
        pub_date: date.map(|d| d.to_string()),
    }
}

#[test]
fn catch_up_selects_all_newer_in_ascending_order() {
    let w = 1_000;
    let stamps = vec![at(w + 5), at(w + 1), at(w), at(w + 2), at(w - 3)];
    let r = select_delivery(&stamps, Some(at(w)));
    assert_eq!(r, vec![1, 3, 0]);
}

#[test]
fn catch_up_has_no_cap() {
    let stamps: Vec<Timestamp> = (0..25).map(|i| at(100 + i)).collect();
    let r = select_delivery(&stamps, Some(at(99)));
    assert_eq!(r, (0..25).collect::<Vec<usize>>());
}

#[test]
fn items_at_or_before_watermark_are_never_selected() {
    let stamps = vec![at(10), at(9), at(11)];
    let r = select_delivery(&stamps, Some(at(10)));
    assert_eq!(r, vec![2]);
    let none = select_delivery(&stamps, Some(at(11)));
    assert!(none.is_empty());
}

#[test]
fn nanoseconds_order_within_a_second() {
    let a = Timestamp { secs: 50, nanos: 10, offset: 0 };
    let b = Timestamp { secs: 50, nanos: 20, offset: 3600 };
    let r = select_delivery(&vec![b, a], Some(Timestamp { secs: 50, nanos: 15, offset: 0 }));
    assert_eq!(r, vec![0]);
    assert!(b.is_after(&a));
    assert!(!a.is_after(&b));
}

#[test]
fn first_run_takes_newest_three_ascending() {
    let stamps = vec![at(3), at(7), at(1), at(9), at(5)];
    let r = select_delivery(&stamps, None);
    assert_eq!(r, vec![4, 1, 3]);
}

#[test]
fn first_run_with_fewer_than_three_takes_all() {
    let stamps = vec![at(8), at(2)];
    assert_eq!(select_delivery(&stamps, None), vec![1, 0]);
    assert!(select_delivery(&Vec::new(), None).is_empty());
}

#[test]
fn equal_timestamps_keep_feed_order() {
    let stamps = vec![at(5), at(4), at(5), at(5)];
    assert_eq!(select_delivery(&stamps, Some(at(4))), vec![0, 2, 3]);
    assert_eq!(select_delivery(&stamps, None), vec![0, 2, 3]);
}

#[test]
fn selecting_twice_gives_the_same_list() {
    let stamps = vec![at(4), at(2), at(6), at(6), at(1)];
    assert_eq!(select_delivery(&stamps, None), select_delivery(&stamps, None));
    assert_eq!(select_delivery(&stamps, Some(at(2))), select_delivery(&stamps, Some(at(2))));
}

#[test]
fn undatable_items_are_never_planned() {
    let items = vec![
        item(Some("Tue, 10 Jun 2003 04:00:00 GMT")),
        item(None),
        item(Some("not a date")),
        item(Some("Wed, 11 Jun 2003 04:00:00 GMT")),
    ];
    let first = plan_delivery(&items, None);
    assert_eq!(first.iter().map(|e| e.0).collect::<Vec<usize>>(), vec![0, 3]);
    assert_eq!(first[0].1.secs, 1055217600);
    let later = plan_delivery(&items, Some(at(0)));
    assert_eq!(later.iter().map(|e| e.0).collect::<Vec<usize>>(), vec![0, 3]);
}

#[test]
fn plan_against_watermark_skips_delivered_items() {
    let items = vec![
        item(Some("Wed, 11 Jun 2003 04:00:00 GMT")),
        item(Some("Tue, 10 Jun 2003 04:00:00 GMT")),
    ];
    let plan = plan_delivery(&items, Some(at(1055217600)));
    assert_eq!(plan.len(), 1);
    assert_eq!(plan[0].0, 0);
    assert_eq!(plan[0].1.secs, 1055217600 + 86400);
}
