use pubsub_rs::tools::async_observer::AsyncObserver;
use pubsub_rs::tools::async_observer::bytes_less;

#[test]
fn test_async_observer_inform_and_pop() {
    let mut observer: AsyncObserver<String, i32> = AsyncObserver::new();
    observer.inform(&"topic1".to_string(), &42, "origin1");
    observer.inform(&"topic2".to_string(), &84, "origin2");
    assert_eq!(
        observer.pop_first_event(),
        Some(("topic1".to_string(), 42, "origin1".to_string()))
    );
    assert_eq!(
        observer.pop_last_event(),
        Some(("topic2".to_string(), 84, "origin2".to_string()))
    );
}

#[test]
fn test_async_observer_number_of_events() {
    let mut observer: AsyncObserver<String, i32> = AsyncObserver::new();
    assert_eq!(observer.number_of_events(), 0);
    observer.inform(&"topic1".to_string(), &1, "origin1");
    observer.inform(&"topic2".to_string(), &2, "origin2");
    assert_eq!(observer.number_of_events(), 2);
    observer.pop_first_event();
    assert_eq!(observer.number_of_events(), 1);
}

#[test]
fn async_observer_test_default_trait() {
    let observer: AsyncObserver<String, i32> = AsyncObserver::default();
    assert_eq!(observer.number_of_events(), 0);
}

#[test]
fn test_pop_all_events() {
    let mut observer: AsyncObserver<String, i32> = AsyncObserver::new();
    for i in 0..5 {
        observer.inform(&format!("topic{}", i), &i, &format!("origin{}", i));
    }
    let all_events = observer.pop_all_events();
    assert_eq!(all_events.len(), 5);
    for (i, event) in all_events.iter().enumerate().take(5) {
        assert_eq!(
            *event,
            (format!("topic{}", i), i as i32, format!("origin{}", i))
        );
    }
}

#[test]
fn test_has_events() {
    let mut observer: AsyncObserver<String, i32> = AsyncObserver::new();
    assert!(!observer.has_events());
    observer.inform(&"topic1".to_string(), &1, "origin1");
    assert!(observer.has_events());
}

#[test]
fn test_async_observer_queue_overflow() {
    let mut observer: AsyncObserver<String, String> = AsyncObserver::with_capacity(2);
    observer.inform(&"topic".to_string(), &"event-1".to_string(), "producer");
    observer.inform(&"topic".to_string(), &"event-2".to_string(), "producer");
    observer.inform(
        &"topic".to_string(),
        &"event-3-dropped".to_string(),
        "producer",
    );

    assert!(observer.has_queue_overflow());
    assert_eq!(observer.queue_overflow_count(), 1);

    assert_eq!(observer.consume_queue_overflow_count(), 1);
    assert!(!observer.has_queue_overflow());

    let events = observer.pop_all_events();
    assert_eq!(events.len(), 2);
}

#[test]
fn test_async_observer_ring_buffer_overflow() {
    let mut observer: AsyncObserver<String, String> =
        AsyncObserver::with_ring_buffer_capacity::<2>();
    observer.inform(&"topic".to_string(), &"event-1".to_string(), "producer");
    observer.inform(&"topic".to_string(), &"event-2".to_string(), "producer");
    observer.inform(
        &"topic".to_string(),
        &"event-3-dropped".to_string(),
        "producer",
    );

    assert!(observer.has_queue_overflow());
    assert_eq!(observer.queue_overflow_count(), 1);

    assert_eq!(observer.consume_queue_overflow_count(), 1);
    assert!(!observer.has_queue_overflow());

    let events = observer.pop_all_events();
    assert_eq!(events.len(), 2);
}

#[test]
fn test_async_observer_priority_order() {
    let mut observer: AsyncObserver<String, i32> = AsyncObserver::with_priority();
    observer.inform(&"topic".to_string(), &5, "producer");
    observer.inform(&"topic".to_string(), &1, "producer");
    observer.inform(&"topic".to_string(), &3, "producer");

    assert_eq!(observer.pop_first_event().unwrap().1, 1);
    assert_eq!(observer.pop_first_event().unwrap().1, 3);
    assert_eq!(observer.pop_first_event().unwrap().1, 5);
}

// The bounded observer keeps the first events and drops the later ones.
#[test]
fn async_observer_bounded_keeps_earliest() {
    let mut observer: AsyncObserver<u32, u32> = AsyncObserver::with_capacity(1);
    observer.inform(&1, &10, "a");
    observer.inform(&2, &20, "b");
    observer.inform(&3, &30, "c");
    assert_eq!(observer.queue_overflow_count(), 2);
    assert_eq!(observer.pop_all_events(), vec![(1, 10, "a".to_string())]);
    assert_eq!(observer.pop_first_event(), None);
    assert_eq!(observer.pop_last_event(), None);
    assert_eq!(observer.consume_queue_overflow_count(), 2);
    assert_eq!(observer.queue_overflow_count(), 0);
}

// A zero-capacity observer drops everything.
#[test]
fn async_observer_zero_capacity_drops_all() {
    let mut observer: AsyncObserver<u32, u32> = AsyncObserver::with_capacity(0);
    observer.inform(&1, &1, "x");
    assert!(!observer.has_events());
    assert_eq!(observer.queue_overflow_count(), 1);
}

// Priority delivery breaks ties by topic, then origin.
#[test]
fn async_observer_priority_ties() {
    let mut observer: AsyncObserver<String, i32> = AsyncObserver::with_priority();
    observer.inform(&"b".to_string(), &1, "p");
    observer.inform(&"a".to_string(), &2, "p");
    observer.inform(&"a".to_string(), &1, "q");
    observer.inform(&"a".to_string(), &1, "p");
    let order: Vec<(String, i32, String)> = observer.pop_all_events();
    assert_eq!(
        order,
        vec![
            ("a".to_string(), 1, "p".to_string()),
            ("a".to_string(), 1, "q".to_string()),
            ("a".to_string(), 2, "p".to_string()),
            ("b".to_string(), 1, "p".to_string()),
        ]
    );
    assert_eq!(observer.number_of_events(), 0);
}

#[test]
fn async_observer_priority_ties_broken_by_origin() {
    let mut observer: AsyncObserver<i32, i32> = AsyncObserver::with_priority();
    observer.inform(&1, &1, "zeta");
    observer.inform(&1, &1, "alpha");
    observer.inform(&1, &1, "al");
    let origins: Vec<String> = observer
        .pop_all_events()
        .into_iter()
        .map(|(_, _, origin)| origin)
        .collect();
    assert_eq!(origins, vec!["al", "alpha", "zeta"]);
}

#[test]
fn bytes_less_is_lexicographic() {
    assert!(bytes_less(b"al", b"alpha"));
    assert!(!bytes_less(b"alpha", b"al"));
    assert!(bytes_less(b"abc", b"abd"));
    assert!(!bytes_less(b"abc", b"abc"));
    assert!(bytes_less(b"", b"a"));
}
