# shmem-queue

A single-producer single-consumer queue over a ring of `QUEUE_SIZE` slots,
meant to be laid over shared memory.

- `src/ring.rs`: the decisions of the queue taken on the two position
  counters alone (which slot a position falls on, when a value or a batch is
  refused, how many values a batched dequeue takes).
- `src/spsc.rs`: the queue as an owned ring, specified over `QueueState`
  (both counters and the slots).
- `src/laws.rs`: what holds across calls: values come out first in, first
  out, and consistent states stay consistent.
- `src/shmem.rs`: paths of shared-memory objects and the record of mappings.
- `app/`: the parts that touch the operating system or raw memory: mapping
  objects under `/dev/shm` with `libc`, and the ring laid over such a mapping
  with atomic counters, which asks `src/ring.rs` for every decision.
