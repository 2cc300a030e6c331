use vstd::prelude::*;

pub mod ring;
pub mod spsc;
pub mod laws;
pub mod shmem;

verus! {

/// Number of slots in the ring shared by a producer and a consumer.
pub const QUEUE_SIZE: usize = 1024;

/// Largest number of items that one batched dequeue hands out.
pub const MAX_BATCH_SIZE: usize = 32;

} // verus!
