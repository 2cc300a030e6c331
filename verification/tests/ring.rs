use shmem_queue::ring::{batch_exceeds, ring_full, slot_index, take_count};
use shmem_queue::{MAX_BATCH_SIZE, QUEUE_SIZE};

#[test]
fn slot_index_wraps_every_lap() {
    assert_eq!(slot_index(0), 0);
    assert_eq!(slot_index(QUEUE_SIZE - 1), QUEUE_SIZE - 1);
    assert_eq!(slot_index(QUEUE_SIZE), 0);
    assert_eq!(slot_index(3 * QUEUE_SIZE + 5), 5);
    assert_eq!(slot_index(usize::MAX), usize::MAX % QUEUE_SIZE);
}

#[test]
fn ring_full_is_one_short_of_a_lap() {
    assert!(ring_full(QUEUE_SIZE - 1, 0));
    assert!(!ring_full(QUEUE_SIZE, 0));
    assert!(!ring_full(QUEUE_SIZE - 2, 0));
    assert!(ring_full(10 + QUEUE_SIZE - 1, 10));
    assert!(!ring_full(5, 5));
    assert!(!ring_full(usize::MAX, usize::MAX));
    assert!(ring_full(usize::MAX, usize::MAX - (QUEUE_SIZE - 1)));
}

#[test]
fn batch_exceeds_past_a_whole_lap() {
    assert!(!batch_exceeds(0, 0, QUEUE_SIZE));
    assert!(batch_exceeds(0, 0, QUEUE_SIZE + 1));
    assert!(batch_exceeds(1, 0, QUEUE_SIZE));
    assert!(!batch_exceeds(5, 5, 0));
    assert!(!batch_exceeds(usize::MAX, usize::MAX, QUEUE_SIZE));
    assert!(batch_exceeds(usize::MAX, usize::MAX, QUEUE_SIZE + 1));
    assert!(!batch_exceeds(0, 10, QUEUE_SIZE + 10));
    assert!(batch_exceeds(0, 10, QUEUE_SIZE + 11));
    assert!(!batch_exceeds(0, usize::MAX, usize::MAX));
}

#[test]
fn take_count_is_capped_by_waiting_values_and_room() {
    assert_eq!(take_count(0, 0, 0), 0);
    assert_eq!(take_count(10, 3, 0), 7);
    assert_eq!(take_count(10, 3, 30), 2);
    assert_eq!(take_count(100, 0, 0), MAX_BATCH_SIZE);
    assert_eq!(take_count(100, 0, MAX_BATCH_SIZE), 0);
    assert_eq!(take_count(100, 0, MAX_BATCH_SIZE + 3), 0);
    assert_eq!(take_count(3, 10, 0), 0);
}
