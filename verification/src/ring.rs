//! Position arithmetic of the ring.
//!
//! The producer and the consumer each own a position counter that only
//! moves forward: `head` counts the values ever written, `tail` the values
//! ever taken out.  A counter falls on the slot `counter % QUEUE_SIZE`.
//! The functions here take the decisions of the queue from the two counter
//! values alone, so that any holder of the counters (an owned ring or a
//! region of shared memory) decides in the same way.
use vstd::prelude::*;
use crate::{MAX_BATCH_SIZE, QUEUE_SIZE};

verus! {

/// The slot of the ring that a position counter falls on.
pub open spec fn slot_of(counter: int) -> int {
    counter % (QUEUE_SIZE as int)
}

/// The smaller of two integers.
pub open spec fn min_int(a: int, b: int) -> int {
    if a <= b { a } else { b }
}

/// How many values a batched dequeue takes out of the ring, when the
/// consumer already holds `held` values in its batch: as many as are
/// waiting, but no more than fill the batch up to `MAX_BATCH_SIZE`.
pub open spec fn batch_take(head: int, tail: int, held: int) -> int {
    if head > tail && held < MAX_BATCH_SIZE {
        min_int(head - tail, MAX_BATCH_SIZE - held)
    } else {
        0
    }
}

/// The slot of the ring that the position `counter` falls on.
pub fn slot_index(counter: usize) -> (slot: usize)
    ensures
        slot == slot_of(counter as int),
        slot < QUEUE_SIZE,
{
    counter % QUEUE_SIZE
}

/// Whether a single enqueue is refused: the producer stands exactly
/// `QUEUE_SIZE - 1` positions ahead of the consumer.
pub fn ring_full(head: usize, tail: usize) -> (full: bool)
    ensures
        full == (head == tail + QUEUE_SIZE - 1),
{
    if tail > usize::MAX - (QUEUE_SIZE - 1) {
        false
    } else {
        head == tail + (QUEUE_SIZE - 1)
    }
}

/// Whether a batch of `count` values is refused: writing it would put the
/// producer more than `QUEUE_SIZE` positions ahead of the consumer.
pub fn batch_exceeds(head: usize, tail: usize, count: usize) -> (exceeds: bool)
    ensures
        exceeds == (head + count > tail + QUEUE_SIZE),
{
    if head >= tail {
        let ahead: usize = head - tail;
        ahead > QUEUE_SIZE || count > QUEUE_SIZE - ahead
    } else {
        let behind: usize = tail - head;
        if behind > usize::MAX - QUEUE_SIZE {
            false
        } else {
            count > behind + QUEUE_SIZE
        }
    }
}

/// How many values a batched dequeue takes out, given the two counters and
/// the number of values the consumer's batch already holds.
pub fn take_count(head: usize, tail: usize, held: usize) -> (count: usize)
    ensures
        count == batch_take(head as int, tail as int, held as int),
        count <= MAX_BATCH_SIZE,
        head > tail && held < MAX_BATCH_SIZE ==> count <= head - tail && held + count
            <= MAX_BATCH_SIZE && (count == head - tail || held + count == MAX_BATCH_SIZE),
        !(head > tail && held < MAX_BATCH_SIZE) ==> count == 0,
{
    if head > tail && held < MAX_BATCH_SIZE {
        let waiting: usize = head - tail;
        let room: usize = MAX_BATCH_SIZE - held;
        if waiting <= room {
            waiting
        } else {
            room
        }
    } else {
        0
    }
}

} // verus!
