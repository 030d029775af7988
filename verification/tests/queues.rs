use pubsub_rs::tools::sync_priority_queue::SyncPriorityQueue;
use pubsub_rs::tools::sync_queue::SyncQueue;
use pubsub_rs::tools::sync_ring_vector::SyncRingVector;

#[test]
fn sync_queue_test_enqueue_dequeue() {
    let mut queue = SyncQueue::new();
    queue.enqueue(1);
    queue.enqueue(2);
    assert_eq!(queue.dequeue(), Some(1));
    assert_eq!(queue.dequeue(), Some(2));
    assert_eq!(queue.dequeue(), None);
}

#[test]
fn sync_queue_test_is_empty() {
    let mut queue = SyncQueue::new();
    assert!(queue.is_empty());
    queue.enqueue(1);
    assert!(!queue.is_empty());
    queue.dequeue();
    assert!(queue.is_empty());
}

#[test]
fn sync_queue_test_size() {
    let mut queue = SyncQueue::new();
    assert_eq!(queue.size(), 0);
    queue.enqueue(1);
    assert_eq!(queue.size(), 1);
    queue.enqueue(2);
    assert_eq!(queue.size(), 2);
    queue.dequeue();
    assert_eq!(queue.size(), 1);
}

#[test]
fn sync_queue_test_clear() {
    let mut queue = SyncQueue::new();
    queue.enqueue(1);
    queue.enqueue(2);
    queue.clear();
    assert!(queue.is_empty());
}

#[test]
fn sync_queue_test_front_back() {
    let mut queue = SyncQueue::new();
    queue.enqueue(1);
    queue.enqueue(2);
    assert_eq!(queue.front(), Some(1));
    assert_eq!(queue.back(), Some(2));
}

#[test]
fn sync_queue_test_front_pop() {
    let mut queue = SyncQueue::new();
    queue.enqueue(1);
    queue.enqueue(2);
    assert_eq!(queue.front_pop(), Some(1));
    assert_eq!(queue.front_pop(), Some(2));
    assert_eq!(queue.front_pop(), None);
}

#[test]
fn test_push_range_and_pop_range() {
    let mut queue = SyncQueue::new();
    let inserted = queue.push_range(vec![1, 2, 3]);
    assert_eq!(inserted, 3);
    assert_eq!(queue.pop_range(2), vec![1, 2]);
    assert_eq!(queue.pop_range(5), vec![3]);
}

#[test]
fn sync_queue_test_default() {
    let queue: SyncQueue<i32> = SyncQueue::default();
    assert_eq!(queue.size(), 0);
}

// front and back of an empty queue are None; strings are cloned out.
#[test]
fn sync_queue_front_back_empty_and_strings() {
    let mut queue: SyncQueue<String> = SyncQueue::new();
    assert_eq!(queue.front(), None);
    assert_eq!(queue.back(), None);
    queue.enqueue("a".to_string());
    queue.enqueue("b".to_string());
    assert_eq!(queue.front(), Some("a".to_string()));
    assert_eq!(queue.back(), Some("b".to_string()));
    assert_eq!(queue.size(), 2);
}

#[test]
fn test_push_pop_front() {
    let mut vector = SyncRingVector::new(4);
    assert!(vector.push(1));
    assert!(vector.push(2));
    assert_eq!(vector.pop_front(), Some(1));
    assert_eq!(vector.pop_front(), Some(2));
    assert_eq!(vector.pop_front(), None);
}

#[test]
fn sync_ring_vector_test_push_rejected_when_full() {
    let mut vector = SyncRingVector::new(2);
    assert!(vector.push(1));
    assert!(vector.push(2));
    assert!(!vector.push(3));
    assert_eq!(vector.size(), 2);
    assert!(vector.is_full());
}

#[test]
fn test_push_after_pop_frees_capacity() {
    let mut vector = SyncRingVector::new(1);
    assert!(vector.push(1));
    assert!(!vector.push(2));
    assert_eq!(vector.pop_front(), Some(1));
    assert!(vector.push(2));
    assert_eq!(vector.pop_front(), Some(2));
}

#[test]
fn sync_ring_vector_test_is_empty() {
    let mut vector = SyncRingVector::new(2);
    assert!(vector.is_empty());
    vector.push(1);
    assert!(!vector.is_empty());
    vector.pop_front();
    assert!(vector.is_empty());
}

#[test]
fn test_size_and_capacity() {
    let mut vector = SyncRingVector::new(3);
    assert_eq!(vector.capacity(), 3);
    assert_eq!(vector.size(), 0);
    vector.push(1);
    vector.push(2);
    assert_eq!(vector.size(), 2);
}

#[test]
fn sync_ring_vector_test_clear() {
    let mut vector = SyncRingVector::new(2);
    vector.push(1);
    vector.push(2);
    vector.clear();
    assert!(vector.is_empty());
    assert!(!vector.is_full());
}

#[test]
fn sync_ring_vector_test_front_back() {
    let mut vector = SyncRingVector::new(2);
    vector.push(1);
    vector.push(2);
    assert_eq!(vector.front(), Some(1));
    assert_eq!(vector.back(), Some(2));
}

#[test]
fn sync_ring_vector_test_front_pop() {
    let mut vector = SyncRingVector::new(2);
    vector.push(1);
    vector.push(2);
    assert_eq!(vector.front_pop(), Some(1));
    assert_eq!(vector.front_pop(), Some(2));
    assert_eq!(vector.front_pop(), None);
}

#[test]
fn sync_ring_vector_test_push_overwrite_evicts_oldest() {
    let mut vector = SyncRingVector::new(2);
    vector.push(1);
    vector.push(2);
    assert!(vector.push_overwrite(3));
    assert_eq!(vector.pop_front(), Some(2));
    assert_eq!(vector.pop_front(), Some(3));
}

#[test]
fn test_zero_capacity_rejects_overwrite() {
    let mut vector = SyncRingVector::new(0);
    assert!(!vector.push_overwrite(1));
    assert_eq!(vector.size(), 0);

    let result = vector.push_range_overwrite(vec![2, 3]);
    assert_eq!(result.inserted, 0);
    assert_eq!(result.overwritten, 0);
    assert!(vector.is_empty());
}

#[test]
fn sync_ring_vector_test_push_range_stops_at_capacity() {
    let mut vector = SyncRingVector::new(2);
    let inserted = vector.push_range(vec![1, 2, 3]);
    assert_eq!(inserted, 2);
    assert!(vector.is_full());
}

#[test]
fn sync_ring_vector_test_push_range_overwrite_reports_counts() {
    let mut vector = SyncRingVector::new(2);
    let result = vector.push_range_overwrite(vec![1, 2, 3, 4]);
    assert_eq!(result.inserted, 4);
    assert_eq!(result.overwritten, 2);
    assert_eq!(vector.pop_range(2), vec![3, 4]);
}

// A zero-capacity vector is always full and rejects plain pushes too.
#[test]
fn sync_ring_vector_zero_capacity_push() {
    let mut vector: SyncRingVector<i32> = SyncRingVector::new(0);
    assert!(vector.is_full());
    assert!(!vector.push(1));
    assert_eq!(vector.push_range(vec![1, 2]), 0);
}

#[test]
fn test_min_heap_pop_order() {
    let mut queue = SyncPriorityQueue::new();
    queue.push(5);
    queue.push(1);
    queue.push(3);
    assert_eq!(queue.top_pop(), Some(1));
    assert_eq!(queue.top_pop(), Some(3));
    assert_eq!(queue.top_pop(), Some(5));
    assert_eq!(queue.top_pop(), None);
}

#[test]
fn sync_priority_queue_test_top_does_not_remove() {
    let mut queue = SyncPriorityQueue::new();
    queue.push(2);
    queue.push(1);
    assert_eq!(queue.top(), Some(1));
    assert_eq!(queue.size(), 2);
}

#[test]
fn test_front_aliases() {
    let mut queue = SyncPriorityQueue::new();
    queue.push(9);
    queue.push(4);
    assert_eq!(queue.front(), Some(4));
    assert_eq!(queue.front_pop(), Some(4));
    assert_eq!(queue.front_pop(), Some(9));
}

#[test]
fn sync_priority_queue_test_is_empty() {
    let mut queue = SyncPriorityQueue::new();
    assert!(queue.is_empty());
    queue.push(1);
    assert!(!queue.is_empty());
}

#[test]
fn sync_priority_queue_test_size() {
    let mut queue = SyncPriorityQueue::new();
    assert_eq!(queue.size(), 0);
    queue.push(1);
    queue.push(2);
    assert_eq!(queue.size(), 2);
}

#[test]
fn sync_priority_queue_test_clear() {
    let mut queue = SyncPriorityQueue::new();
    queue.push(1);
    queue.push(2);
    queue.clear();
    assert!(queue.is_empty());
}

#[test]
fn sync_priority_queue_test_default() {
    let queue: SyncPriorityQueue<i32> = SyncPriorityQueue::default();
    assert_eq!(queue.size(), 0);
}

// Duplicates and negative values come out in ascending order.
#[test]
fn sync_priority_queue_duplicates_sorted() {
    let mut queue = SyncPriorityQueue::new();
    for value in [4, -2, 4, 0, -2, 7] {
        queue.push(value);
    }
    let mut out = Vec::new();
    while let Some(value) = queue.top_pop() {
        out.push(value);
    }
    assert_eq!(out, vec![-2, -2, 0, 4, 4, 7]);
}

// Tuples order lexicographically.
#[test]
fn sync_priority_queue_tuples() {
    let mut queue = SyncPriorityQueue::new();
    queue.push((2, 1));
    queue.push((1, 9));
    queue.push((2, 0));
    assert_eq!(queue.top_pop(), Some((1, 9)));
    assert_eq!(queue.top_pop(), Some((2, 0)));
    assert_eq!(queue.top_pop(), Some((2, 1)));
}
