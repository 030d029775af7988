use pubsub_rs::tools::lock_free_ring_buffer::{
    dequeue_step, enqueue_step, ring_capacity, slot_index, DequeueStep, EnqueueStep,
};

#[test]
fn ring_capacity_is_power_of_two() {
    assert_eq!(ring_capacity(0), 1);
    assert_eq!(ring_capacity(3), 8);
    assert_eq!(ring_capacity(10), 1024);
}

#[test]
fn slot_index_wraps_around_the_ring() {
    assert_eq!(slot_index(0, 3), 0);
    assert_eq!(slot_index(7, 3), 7);
    assert_eq!(slot_index(8, 3), 0);
    assert_eq!(slot_index(13, 3), 5);
    assert_eq!(slot_index(usize::MAX, 3), 7);
}

#[test]
fn enqueue_claims_a_free_slot() {
    assert_eq!(enqueue_step(5, 5), EnqueueStep::Claim { next_index: 6 });
    assert_eq!(
        enqueue_step(usize::MAX, usize::MAX),
        EnqueueStep::Claim { next_index: 0 }
    );
}

#[test]
fn enqueue_reports_full_when_slot_is_a_lap_behind() {
    // slot written at position 1 (sequence 2), producer one lap ahead at 9
    assert_eq!(enqueue_step(2, 9), EnqueueStep::Full);
}

#[test]
fn enqueue_retries_when_another_producer_moved_on() {
    assert_eq!(enqueue_step(10, 9), EnqueueStep::Retry);
}

#[test]
fn dequeue_claims_a_written_slot() {
    assert_eq!(
        dequeue_step(4, 3, 8),
        DequeueStep::Claim {
            next_index: 4,
            released: 11
        }
    );
}

#[test]
fn dequeue_reports_empty_when_slot_not_written() {
    assert_eq!(dequeue_step(3, 3, 8), DequeueStep::Empty);
    assert_eq!(dequeue_step(0, 0, 8), DequeueStep::Empty);
}

#[test]
fn dequeue_retries_when_another_consumer_moved_on() {
    // the slot was already released for the next lap
    assert_eq!(dequeue_step(11, 3, 8), DequeueStep::Retry);
}

#[test]
fn protocol_round_trip_over_a_lap() {
    let size = ring_capacity(2);
    let p = 1usize;
    // the slot of position 1 starts with sequence 1
    let published = match enqueue_step(p, p) {
        EnqueueStep::Claim { next_index } => next_index,
        other => panic!("unexpected {:?}", other),
    };
    // one lap ahead, the slot is still unread: full
    assert_eq!(enqueue_step(published, p + size), EnqueueStep::Full);
    let released = match dequeue_step(published, p, size) {
        DequeueStep::Claim { released, .. } => released,
        other => panic!("unexpected {:?}", other),
    };
    // now the producer one lap ahead may claim it
    assert_eq!(
        enqueue_step(released, p + size),
        EnqueueStep::Claim {
            next_index: p + size + 1
        }
    );
    assert_eq!(slot_index(p, 2), slot_index(p + size, 2));
}

#[test]
fn single_slot_ring_lets_a_producer_overwrite_an_unread_item() {
    // with one slot, a lap ahead is the next position: the unread slot's
    // sequence equals the next push position, so it is claimed again
    let size = ring_capacity(0);
    assert_eq!(
        enqueue_step(1, size),
        EnqueueStep::Claim { next_index: 2 }
    );
}
