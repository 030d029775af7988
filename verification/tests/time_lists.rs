use pubsub_rs::tools::sync_time_list::SyncTimeList;
use pubsub_rs::tools::time_list::TimeList;
use std::time::{Duration, Instant};

#[test]
fn time_list_test_chronological_pop_order() {
    let mut list = TimeList::new();
    list.push(300, "three hundred");
    list.push(100, "one hundred");
    list.push(200, "two hundred");

    assert_eq!(list.top_pop(), Some((100, "one hundred")));
    assert_eq!(list.top_pop(), Some((200, "two hundred")));
    assert_eq!(list.top_pop(), Some((300, "three hundred")));
    assert_eq!(list.top_pop(), None);
}

#[test]
fn time_list_test_top_does_not_remove() {
    let mut list = TimeList::new();
    list.push(2, "two");
    list.push(1, "one");
    assert_eq!(list.top(), Some((1, "one")));
    assert_eq!(list.size(), 2);
}

#[test]
fn test_pop_discards_earliest() {
    let mut list = TimeList::new();
    list.push(2, "two");
    list.push(1, "one");
    list.pop();
    assert_eq!(list.top_pop(), Some((2, "two")));
}

#[test]
fn time_list_test_is_empty() {
    let mut list = TimeList::new();
    assert!(list.is_empty());
    list.push(1, "one");
    assert!(!list.is_empty());
}

#[test]
fn time_list_test_size() {
    let mut list = TimeList::new();
    assert_eq!(list.size(), 0);
    list.push(1, "one");
    list.push(2, "two");
    assert_eq!(list.size(), 2);
}

#[test]
fn time_list_test_clear() {
    let mut list = TimeList::new();
    list.push(1, "one");
    list.push(2, "two");
    list.clear();
    assert!(list.is_empty());
}

#[test]
fn time_list_test_snapshot_sorted_does_not_drain() {
    let mut list = TimeList::new();
    list.push(300, "three hundred");
    list.push(100, "one hundred");
    list.push(200, "two hundred");

    let snapshot = list.snapshot_sorted();
    assert_eq!(
        snapshot,
        vec![(100, "one hundred"), (200, "two hundred"), (300, "three hundred")]
    );
    assert_eq!(list.size(), 3);
}

#[test]
fn time_list_test_default() {
    let list: TimeList<i64, i32> = TimeList::default();
    assert_eq!(list.size(), 0);
}

#[test]
fn test_instant_timestamp_order() {
    let base_time = Instant::now();
    let mut list = TimeList::new();
    list.push(base_time + Duration::from_millis(300), 3);
    list.push(base_time + Duration::from_millis(100), 1);
    list.push(base_time + Duration::from_millis(200), 2);

    assert_eq!(list.top_pop().map(|(_, value)| value), Some(1));
    assert_eq!(list.top_pop().map(|(_, value)| value), Some(2));
    assert_eq!(list.top_pop().map(|(_, value)| value), Some(3));
}

// Entries with equal timestamps come out in the order they were pushed.
#[test]
fn time_list_equal_timestamps_keep_push_order() {
    let mut list = TimeList::new();
    list.push(5, "first");
    list.push(1, "early");
    list.push(5, "second");
    list.push(5, "third");
    assert_eq!(list.top_pop(), Some((1, "early")));
    assert_eq!(list.top_pop(), Some((5, "first")));
    assert_eq!(list.top_pop(), Some((5, "second")));
    assert_eq!(list.top_pop(), Some((5, "third")));
}

// pop on an empty list does nothing; top of an empty list is None.
#[test]
fn time_list_empty_pop_and_top() {
    let mut list: TimeList<u32, u32> = TimeList::new();
    list.pop();
    assert_eq!(list.top(), None);
    assert_eq!(list.snapshot_sorted(), Vec::new());
}

#[test]
fn sync_time_list_test_chronological_pop_order() {
    let mut list = SyncTimeList::new();
    list.push(30, 30);
    list.push(10, 10);
    list.push(40, 40);
    list.push(20, 20);

    assert_eq!(list.top_pop(), Some((10, 10)));
    assert_eq!(list.top_pop(), Some((20, 20)));
    assert_eq!(list.top_pop(), Some((30, 30)));
    assert_eq!(list.top_pop(), Some((40, 40)));
    assert_eq!(list.top_pop(), None);
}

#[test]
fn sync_time_list_test_top_does_not_remove() {
    let mut list = SyncTimeList::new();
    list.push(2, "two");
    list.push(1, "one");
    assert_eq!(list.top(), Some((1, "one")));
    assert_eq!(list.size(), 2);
}

#[test]
fn sync_time_list_test_is_empty() {
    let mut list = SyncTimeList::new();
    assert!(list.is_empty());
    list.push(1, "one");
    assert!(!list.is_empty());
}

#[test]
fn sync_time_list_test_clear() {
    let mut list = SyncTimeList::new();
    list.push(1, "one");
    list.push(2, "two");
    list.clear();
    assert!(list.is_empty());
}

#[test]
fn sync_time_list_test_snapshot_sorted_does_not_drain() {
    let mut list = SyncTimeList::new();
    list.push(30, "thirty");
    list.push(10, "ten");
    list.push(20, "twenty");

    let snapshot = list.snapshot_sorted();
    assert_eq!(snapshot, vec![(10, "ten"), (20, "twenty"), (30, "thirty")]);
    assert_eq!(list.size(), 3);
}

#[test]
fn sync_time_list_test_default() {
    let list: SyncTimeList<i64, i32> = SyncTimeList::default();
    assert_eq!(list.size(), 0);
}

// pop on the shared list discards the earliest entry.
#[test]
fn sync_time_list_pop_discards_earliest() {
    let mut list = SyncTimeList::new();
    list.push(2, "two");
    list.push(1, "one");
    list.pop();
    assert_eq!(list.top(), Some((2, "two")));
}
