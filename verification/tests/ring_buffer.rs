use pubsub_rs::tools::ring_buffer::{PushRangeOverwriteResult, RingBuffer};
use pubsub_rs::tools::sync_ring_buffer::SyncRingBuffer;

#[test]
fn ring_buffer_test_push_pop() {
    let mut buffer: RingBuffer<i32, 4> = RingBuffer::new();
    assert!(buffer.push(1));
    assert!(buffer.push(2));
    assert_eq!(buffer.pop(), Some(1));
    assert_eq!(buffer.pop(), Some(2));
    assert_eq!(buffer.pop(), None);
}

#[test]
fn ring_buffer_test_front_pop() {
    let mut buffer: RingBuffer<i32, 4> = RingBuffer::new();
    buffer.push(1);
    buffer.push(2);
    assert_eq!(buffer.front_pop(), Some(1));
    assert_eq!(buffer.front_pop(), Some(2));
    assert_eq!(buffer.front_pop(), None);
}

#[test]
fn ring_buffer_test_push_rejected_when_full() {
    let mut buffer: RingBuffer<i32, 2> = RingBuffer::new();
    assert!(buffer.push(1));
    assert!(buffer.push(2));
    assert!(!buffer.push(3));
    assert_eq!(buffer.size(), 2);
    assert!(buffer.is_full());
}

#[test]
fn ring_buffer_test_push_overwrite_evicts_oldest() {
    let mut buffer: RingBuffer<i32, 3> = RingBuffer::new();
    buffer.push(1);
    buffer.push(2);
    buffer.push(3);
    assert!(buffer.push_overwrite(4));
    assert_eq!(buffer.pop(), Some(2));
    assert_eq!(buffer.pop(), Some(3));
    assert_eq!(buffer.pop(), Some(4));
}

#[test]
fn ring_buffer_test_push_range_stops_at_capacity() {
    let mut buffer: RingBuffer<i32, 3> = RingBuffer::new();
    let inserted = buffer.push_range(vec![1, 2, 3, 4, 5]);
    assert_eq!(inserted, 3);
    assert!(buffer.is_full());
}

#[test]
fn ring_buffer_test_push_range_overwrite_reports_counts() {
    let mut buffer: RingBuffer<i32, 3> = RingBuffer::new();
    let result = buffer.push_range_overwrite(vec![1, 2, 3, 4, 5]);
    assert_eq!(result.inserted, 5);
    assert_eq!(result.overwritten, 2);
    assert_eq!(buffer.pop_range(3), vec![3, 4, 5]);
}

#[test]
fn test_wrap_around() {
    let mut buffer: RingBuffer<i32, 2> = RingBuffer::new();
    for value in 0..10 {
        buffer.push(value);
        assert_eq!(buffer.pop(), Some(value));
    }
    assert!(buffer.is_empty());
}

#[test]
fn ring_buffer_test_front_back() {
    let mut buffer: RingBuffer<i32, 4> = RingBuffer::new();
    buffer.push(1);
    buffer.push(2);
    assert_eq!(buffer.front(), Some(&1));
    assert_eq!(buffer.back(), Some(&2));
}

#[test]
fn ring_buffer_test_clear() {
    let mut buffer: RingBuffer<i32, 4> = RingBuffer::new();
    buffer.push(1);
    buffer.push(2);
    buffer.clear();
    assert!(buffer.is_empty());
    assert_eq!(buffer.size(), 0);
}

#[test]
fn ring_buffer_test_default() {
    let buffer: RingBuffer<i32, 4> = RingBuffer::default();
    assert_eq!(buffer.capacity(), 4);
    assert_eq!(buffer.size(), 0);
}

// The window kept in overwrite mode follows the ring across the wrap point.
#[test]
fn ring_buffer_overwrite_across_wrap_point() {
    let mut buffer: RingBuffer<i32, 3> = RingBuffer::new();
    buffer.push_range(vec![1, 2]);
    assert_eq!(buffer.pop(), Some(1));
    let result = buffer.push_range_overwrite(vec![3, 4, 5, 6]);
    assert_eq!(
        result,
        PushRangeOverwriteResult {
            inserted: 4,
            overwritten: 2
        }
    );
    assert_eq!(buffer.front(), Some(&4));
    assert_eq!(buffer.back(), Some(&6));
    assert_eq!(buffer.pop_range(10), vec![4, 5, 6]);
    assert!(buffer.is_empty());
}

// A partial push_range keeps the prefix that fits; pop_range takes a prefix.
#[test]
fn ring_buffer_partial_ranges() {
    let mut buffer: RingBuffer<i32, 4> = RingBuffer::new();
    assert!(buffer.push(9));
    assert_eq!(buffer.push_range(vec![1, 2, 3, 4]), 3);
    assert_eq!(buffer.pop_range(2), vec![9, 1]);
    assert_eq!(buffer.size(), 2);
    assert_eq!(buffer.pop_range(0), Vec::<i32>::new());
    assert_eq!(buffer.pop_range(5), vec![2, 3]);
}

// Overwrite mode without a full buffer evicts nothing.
#[test]
fn ring_buffer_overwrite_without_eviction() {
    let mut buffer: RingBuffer<i32, 4> = RingBuffer::new();
    assert!(!buffer.push_overwrite(1));
    let result = buffer.push_range_overwrite(vec![2, 3]);
    assert_eq!(result.inserted, 2);
    assert_eq!(result.overwritten, 0);
    assert_eq!(buffer.size(), 3);
}

// A zero-capacity buffer rejects every push.
#[test]
fn ring_buffer_zero_capacity() {
    let mut buffer: RingBuffer<i32, 0> = RingBuffer::new();
    assert!(buffer.is_full());
    assert!(!buffer.push(1));
    assert_eq!(buffer.push_range(vec![1, 2]), 0);
    assert_eq!(buffer.pop(), None);
    assert_eq!(buffer.front(), None);
}

#[test]
fn sync_ring_buffer_test_push_pop() {
    let mut buffer: SyncRingBuffer<i32, 4> = SyncRingBuffer::new();
    assert!(buffer.push(1));
    assert!(buffer.push(2));
    assert_eq!(buffer.pop(), Some(1));
    assert_eq!(buffer.pop(), Some(2));
    assert_eq!(buffer.pop(), None);
}

#[test]
fn sync_ring_buffer_test_push_rejected_when_full() {
    let mut buffer: SyncRingBuffer<i32, 2> = SyncRingBuffer::new();
    assert!(buffer.push(1));
    assert!(buffer.push(2));
    assert!(!buffer.push(3));
    assert!(buffer.is_full());
}

#[test]
fn sync_ring_buffer_test_push_overwrite_evicts_oldest() {
    let mut buffer: SyncRingBuffer<i32, 3> = SyncRingBuffer::new();
    buffer.push(1);
    buffer.push(2);
    buffer.push(3);
    assert!(buffer.push_overwrite(4));
    assert_eq!(buffer.pop(), Some(2));
    assert_eq!(buffer.pop(), Some(3));
    assert_eq!(buffer.pop(), Some(4));
}

#[test]
fn sync_ring_buffer_test_push_range_overwrite_reports_counts() {
    let mut buffer: SyncRingBuffer<i32, 3> = SyncRingBuffer::new();
    let result = buffer.push_range_overwrite(vec![1, 2, 3, 4, 5]);
    assert_eq!(result.inserted, 5);
    assert_eq!(result.overwritten, 2);
    assert_eq!(buffer.pop_range(3), vec![3, 4, 5]);
}

#[test]
fn test_front_back_and_front_pop() {
    let mut buffer: SyncRingBuffer<i32, 4> = SyncRingBuffer::new();
    buffer.push(1);
    buffer.push(2);
    assert_eq!(buffer.front(), Some(1));
    assert_eq!(buffer.back(), Some(2));
    assert_eq!(buffer.front_pop(), Some(1));
}

#[test]
fn sync_ring_buffer_test_clear() {
    let mut buffer: SyncRingBuffer<i32, 4> = SyncRingBuffer::new();
    buffer.push(1);
    buffer.push(2);
    buffer.clear();
    assert!(buffer.is_empty());
}

#[test]
fn sync_ring_buffer_test_default() {
    let buffer: SyncRingBuffer<i32, 4> = SyncRingBuffer::default();
    assert_eq!(buffer.capacity(), 4);
    assert_eq!(buffer.size(), 0);
}

// push_range stops at capacity and keeps the prefix of the items.
#[test]
fn sync_ring_buffer_push_range_prefix() {
    let mut buffer: SyncRingBuffer<i32, 2> = SyncRingBuffer::new();
    assert_eq!(buffer.push_range(vec![7, 8, 9]), 2);
    assert_eq!(buffer.pop_range(5), vec![7, 8]);
}
