use pubsub_rs::tools::sync_observer::SubjectRegistry;

fn reached(registry: &SubjectRegistry<u32, &'static str, &'static str>, topic: u32) -> Vec<&'static str> {
    registry.observers_of(&topic).into_iter().copied().collect()
}

fn reached_handlers(
    registry: &SubjectRegistry<u32, &'static str, &'static str>,
    topic: u32,
) -> Vec<&'static str> {
    registry.handlers_of(&topic).into_iter().copied().collect()
}

#[test]
fn registry_subscribe_reaches_observer() {
    let mut registry = SubjectRegistry::new();
    registry.subscribe(1, 10, "observer");
    assert_eq!(reached(&registry, 1), vec!["observer"]);
    assert!(reached(&registry, 2).is_empty());
}

#[test]
fn registry_unsubscribe_removes_observer() {
    let mut registry = SubjectRegistry::new();
    registry.subscribe(1, 10, "observer");
    registry.unsubscribe(&1, 10);
    assert!(reached(&registry, 1).is_empty());
}

#[test]
fn registry_handler_reached_then_removed_by_name() {
    let mut registry = SubjectRegistry::new();
    registry.subscribe_handler(1, "TestHandler".to_string(), "handler");
    assert_eq!(reached_handlers(&registry, 1), vec!["handler"]);
    registry.unsubscribe_handler(&1, &"TestHandler".to_string());
    assert!(reached_handlers(&registry, 1).is_empty());
}

#[test]
fn registry_multiple_observers_in_subscription_order() {
    let mut registry = SubjectRegistry::new();
    registry.subscribe(1, 10, "first");
    registry.subscribe(2, 30, "other topic");
    registry.subscribe(1, 20, "second");
    assert_eq!(reached(&registry, 1), vec!["first", "second"]);
    assert_eq!(reached(&registry, 2), vec!["other topic"]);
}

#[test]
fn registry_unsubscribe_one_of_multiple_observers() {
    let mut registry = SubjectRegistry::new();
    registry.subscribe(1, 10, "first");
    registry.subscribe(1, 20, "second");
    registry.subscribe(1, 30, "third");
    registry.unsubscribe(&1, 20);
    assert_eq!(reached(&registry, 1), vec!["first", "third"]);
}

#[test]
fn registry_unsubscribe_keeps_other_topics() {
    let mut registry = SubjectRegistry::new();
    registry.subscribe(1, 10, "on one");
    registry.subscribe(2, 10, "on two");
    registry.unsubscribe(&1, 10);
    assert!(reached(&registry, 1).is_empty());
    assert_eq!(reached(&registry, 2), vec!["on two"]);
}

#[test]
fn registry_unsubscribe_one_of_multiple_handlers() {
    let mut registry = SubjectRegistry::new();
    registry.subscribe_handler(1, "A".to_string(), "handler a");
    registry.subscribe_handler(1, "B".to_string(), "handler b");
    registry.unsubscribe_handler(&1, &"A".to_string());
    assert_eq!(reached_handlers(&registry, 1), vec!["handler b"]);
}

#[test]
fn registry_publish_with_no_subscribers() {
    let registry: SubjectRegistry<u32, &'static str, &'static str> = SubjectRegistry::new();
    assert!(reached(&registry, 1).is_empty());
    assert!(reached_handlers(&registry, 1).is_empty());
}
