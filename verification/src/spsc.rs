//! A single-producer single-consumer queue over a ring of `QUEUE_SIZE`
//! slots, with the producer's and the consumer's position counters.
use vstd::prelude::*;
use crate::ring::{batch_exceeds, batch_take, ring_full, slot_index, slot_of, take_count};
use crate::{MAX_BATCH_SIZE, QUEUE_SIZE};

verus! {

/// `a + b` on the machine's word, wrapping past `usize::MAX` as the
/// position counters do.
pub open spec fn counter_add(a: usize, b: int) -> usize {
    if a + b > usize::MAX {
        (a + b - (usize::MAX + 1)) as usize
    } else {
        (a + b) as usize
    }
}

/// The slots after writing `vals[i]` at position `start + i`, for each `i`
/// in order (a later write to the same slot wins).
pub open spec fn written<T>(slots: Seq<Option<T>>, start: int, vals: Seq<T>) -> Seq<Option<T>>
    decreases vals.len(),
{
    if vals.len() == 0 {
        slots
    } else {
        written(slots, start, vals.drop_last()).update(
            slot_of(start + vals.len() - 1),
            Some(vals.last()),
        )
    }
}

/// The slots after emptying the `count` positions that follow `start`.
pub open spec fn cleared<T>(slots: Seq<Option<T>>, start: int, count: nat) -> Seq<Option<T>>
    decreases count,
{
    if count == 0 {
        slots
    } else {
        cleared(slots, start, (count - 1) as nat).update(slot_of(start + count - 1), None)
    }
}

/// The contents of the `count` slots that follow position `start`.
pub open spec fn read_slots<T>(slots: Seq<Option<T>>, start: int, count: nat) -> Seq<Option<T>> {
    Seq::new(count, |k: int| slots[slot_of(start + k)])
}

/// Emptying the `count` positions after `start` leaves the slot of any later
/// position within a lap untouched.
pub proof fn lemma_cleared_keeps<T>(slots: Seq<Option<T>>, start: int, count: nat, pos: int)
    requires
        slots.len() == QUEUE_SIZE,
        start + count <= pos < start + QUEUE_SIZE,
    ensures
        cleared(slots, start, count).len() == QUEUE_SIZE,
        cleared(slots, start, count)[slot_of(pos)] == slots[slot_of(pos)],
    decreases count,
{
    if count > 0 {
        lemma_cleared_keeps(slots, start, (count - 1) as nat, pos);
        assert(slot_of(start + count - 1) != slot_of(pos));
    }
}

/// What a queue holds: the producer's counter `head`, the consumer's counter
/// `tail`, and the contents of the `QUEUE_SIZE` slots of the ring.
pub struct QueueState<T> {
    pub head: usize,
    pub tail: usize,
    pub slots: Seq<Option<T>>,
}

impl<T> QueueState<T> {
    /// A freshly laid out ring: both counters at zero, every slot empty.
    pub open spec fn initial() -> Self {
        QueueState { head: 0, tail: 0, slots: Seq::new(QUEUE_SIZE as nat, |i: int| None) }
    }

    /// The ring has its `QUEUE_SIZE` slots.
    pub open spec fn valid(self) -> bool {
        self.slots.len() == QUEUE_SIZE
    }

    /// A single enqueue is refused in this state.
    pub open spec fn is_full(self) -> bool {
        self.head == self.tail + QUEUE_SIZE - 1
    }

    /// Nothing waits to be dequeued.
    pub open spec fn is_empty(self) -> bool {
        self.head == self.tail
    }

    /// The state after `value` is written at the producer's position.
    pub open spec fn enqueued(self, value: T) -> Self {
        QueueState {
            head: counter_add(self.head, 1),
            tail: self.tail,
            slots: self.slots.update(slot_of(self.head as int), Some(value)),
        }
    }

    /// What the slot at the consumer's position holds.
    pub open spec fn front(self) -> Option<T> {
        self.slots[slot_of(self.tail as int)]
    }

    /// The state after the slot at the consumer's position is taken.
    pub open spec fn dequeued(self) -> Self {
        QueueState {
            head: self.head,
            tail: counter_add(self.tail, 1),
            slots: self.slots.update(slot_of(self.tail as int), None),
        }
    }

    /// A batch of `count` values is refused in this state.
    pub open spec fn batch_refused(self, count: int) -> bool {
        self.head + count > self.tail + QUEUE_SIZE
    }

    /// The state after the batch `vals` is written from the producer's position on.
    pub open spec fn batch_enqueued(self, vals: Seq<T>) -> Self {
        QueueState {
            head: counter_add(self.head, vals.len() as int),
            tail: self.tail,
            slots: written(self.slots, self.head as int, vals),
        }
    }

    /// How many values a batched dequeue takes when the batch holds `held` values.
    pub open spec fn take_count(self, held: int) -> nat {
        batch_take(self.head as int, self.tail as int, held) as nat
    }

    /// The values that a batched dequeue appends to a batch holding `held` values.
    pub open spec fn batch_taken(self, held: int) -> Seq<Option<T>> {
        read_slots(self.slots, self.tail as int, self.take_count(held))
    }

    /// The state after a batched dequeue into a batch holding `held` values:
    /// the taken slots are emptied and the consumer's counter moves on by the
    /// length of the batch.
    pub open spec fn batch_dequeued(self, held: int) -> Self {
        if self.is_empty() {
            self
        } else {
            QueueState {
                head: self.head,
                tail: counter_add(self.tail, held + self.take_count(held)),
                slots: cleared(self.slots, self.tail as int, self.take_count(held)),
            }
        }
    }
}

/// A queue between one producer and one consumer, laid out as a ring of
/// `QUEUE_SIZE` slots and two position counters.
pub struct Queue<T> {
    log: Vec<Option<T>>,
    head: usize,
    tail: usize,
}

impl<T> View for Queue<T> {
    type V = QueueState<T>;

    closed spec fn view(&self) -> QueueState<T> {
        QueueState { head: self.head, tail: self.tail, slots: self.log@ }
    }
}

impl<T> Queue<T> {
    /// A queue over a freshly laid out ring.
    pub fn new() -> (queue: Self)
        ensures
            queue@ == QueueState::<T>::initial(),
            queue@.valid(),
    {
        let mut log: Vec<Option<T>> = Vec::new();
        let mut i: usize = 0;
        while i < QUEUE_SIZE
            invariant
                i <= QUEUE_SIZE,
                log@.len() == i,
                forall|j: int| 0 <= j < i ==> log@[j] is None,
            decreases QUEUE_SIZE - i,
        {
            log.push(None);
            i = i + 1;
        }
        let queue = Queue { log, head: 0, tail: 0 };
        assert(queue@.slots =~= QueueState::<T>::initial().slots);
        queue
    }

    /// A queue over a ring of `capacity` slots; the ring has a fixed size,
    /// so `capacity` must be `QUEUE_SIZE`.
    pub fn with_capacity_in(_create: bool, capacity: usize) -> (result: Result<Self, ()>)
        requires
            capacity == QUEUE_SIZE,
        ensures
            result matches Ok(queue) && queue@ == QueueState::<T>::initial() && queue@.valid(),
    {
        Ok(Self::new())
    }

    /// The producer's position counter.
    pub fn head(&self) -> (head: usize)
        ensures
            head == self@.head,
    {
        self.head
    }

    /// The consumer's position counter.
    pub fn tail(&self) -> (tail: usize)
        ensures
            tail == self@.tail,
    {
        self.tail
    }

    /// The contents of slot `index` of the ring.
    pub fn slot(&self, index: usize) -> (entry: &Option<T>)
        requires
            self@.valid(),
            index < QUEUE_SIZE,
        ensures
            *entry == self@.slots[index as int],
    {
        &self.log[index]
    }

    /// Whether an enqueue would be refused.
    pub fn full(&self) -> (full: bool)
        ensures
            full == self@.is_full(),
    {
        ring_full(self.head, self.tail)
    }

    /// Writes `value` at the producer's position and moves the producer on,
    /// or hands `value` back when the queue is full.
    pub fn enqueue(&mut self, value: T) -> (result: Result<(), T>)
        requires
            old(self)@.valid(),
        ensures
            final(self)@.valid(),
            match result {
                Ok(()) => !old(self)@.is_full() && final(self)@ == old(self)@.enqueued(value),
                Err(back) => old(self)@.is_full() && back == value && final(self)@ == old(self)@,
            },
    {
        if ring_full(self.head, self.tail) {
            return Err(value);
        }
        let slot = slot_index(self.head);
        self.log.set(slot, Some(value));
        self.head = self.head.wrapping_add(1);
        Ok(())
    }

    /// Takes what the slot at the consumer's position holds and moves the
    /// consumer on, or returns `None` when nothing waits.
    pub fn dequeue(&mut self) -> (result: Option<T>)
        requires
            old(self)@.valid(),
        ensures
            final(self)@.valid(),
            old(self)@.is_empty() ==> result is None && final(self)@ == old(self)@,
            !old(self)@.is_empty() ==> result == old(self)@.front() && final(self)@
                == old(self)@.dequeued(),
    {
        if self.head == self.tail {
            return None;
        }
        let slot = slot_index(self.tail);
        let value = self.log[slot].take();
        self.tail = self.tail.wrapping_add(1);
        value
    }

    /// Writes all of `values`, in order, from the producer's position on and
    /// moves the producer past them, leaving `values` empty; or, when the
    /// batch does not fit, changes nothing.
    pub fn enqueue_batch(&mut self, values: &mut Vec<T>) -> (result: Result<(), ()>)
        requires
            old(self)@.valid(),
        ensures
            final(self)@.valid(),
            result is Err <==> old(self)@.batch_refused(old(values)@.len() as int),
            result is Err ==> final(self)@ == old(self)@ && final(values)@ == old(values)@,
            result is Ok ==> final(self)@ == old(self)@.batch_enqueued(old(values)@)
                && final(values)@ == Seq::<T>::empty(),
    {
        let count = values.len();
        if batch_exceeds(self.head, self.tail, count) {
            return Err(());
        }
        let ghost vals = values@;
        // Move the values out, last first, so that popping yields them in order.
        let mut reversed: Vec<T> = Vec::new();
        while values.len() > 0
            invariant
                vals.len() == count,
                values@ == vals.subrange(0, values@.len() as int),
                reversed@.len() + values@.len() == count,
                forall|k: int|
                    0 <= k < reversed@.len() ==> #[trigger] reversed@[k] == vals[count - 1 - k],
            decreases values@.len(),
        {
            let v = values.pop().unwrap();
            reversed.push(v);
        }
        let start = self.head;
        let base = slot_index(start);
        let ghost slots0 = self.log@;
        let mut i: usize = 0;
        while reversed.len() > 0
            invariant
                vals.len() == count,
                i + reversed@.len() == count,
                forall|k: int|
                    0 <= k < reversed@.len() ==> #[trigger] reversed@[k] == vals[count - 1 - k],
                base == slot_of(start as int),
                self.head == start,
                self.tail == old(self).tail,
                slots0 == old(self)@.slots,
                start == old(self)@.head,
                self.log@ == written(slots0, start as int, vals.subrange(0, i as int)),
                self.log@.len() == QUEUE_SIZE,
                values@.len() == 0,
            decreases reversed@.len(),
        {
            let v = reversed.pop().unwrap();
            let slot = (base + i % QUEUE_SIZE) % QUEUE_SIZE;
            assert(slot == slot_of(start + i)) by {
                assert(start as int == (start as int / QUEUE_SIZE as int) * QUEUE_SIZE + base);
            }
            proof {
                let next = vals.subrange(0, i + 1);
                assert(next.drop_last() =~= vals.subrange(0, i as int));
                assert(next.last() == v);
            }
            self.log.set(slot, Some(v));
            i = i + 1;
        }
        assert(vals.subrange(0, count as int) =~= vals);
        self.head = self.head.wrapping_add(count);
        Ok(())
    }

    /// Appends to `batch`, in order, what the slots from the consumer's
    /// position on hold: as many as wait, but no more than fill `batch` up to
    /// `MAX_BATCH_SIZE`.  The taken slots are emptied and, unless nothing
    /// waited, the consumer's counter moves on by the final length of `batch`.
    pub fn dequeue_batch(&mut self, batch: &mut Vec<Option<T>>)
        requires
            old(self)@.valid(),
        ensures
            final(self)@.valid(),
            final(batch)@ == old(batch)@ + old(self)@.batch_taken(old(batch)@.len() as int),
            final(self)@ == old(self)@.batch_dequeued(old(batch)@.len() as int),
            final(batch)@.len() >= old(batch)@.len(),
            final(batch)@.subrange(0, old(batch)@.len() as int) == old(batch)@,
            forall|k: int|
                0 <= k < final(batch)@.len() - old(batch)@.len() ==> #[trigger] final(batch)@[old(batch)@.len() + k] == old(self)@.slots[slot_of(old(self)@.tail + k)],
            old(self)@.head > old(self)@.tail && old(batch)@.len() < MAX_BATCH_SIZE ==> {
                &&& final(batch)@.len() <= MAX_BATCH_SIZE
                &&& final(batch)@.len() - old(batch)@.len() <= old(self)@.head - old(self)@.tail
                &&& (final(batch)@.len() == MAX_BATCH_SIZE || final(batch)@.len() - old(batch)@.len()
                    == old(self)@.head - old(self)@.tail)
            },
            !(old(self)@.head > old(self)@.tail && old(batch)@.len() < MAX_BATCH_SIZE)
                ==> final(batch)@ == old(batch)@,
            final(self)@.head == old(self)@.head,
            old(self)@.is_empty() ==> final(self)@ == old(self)@,
            !old(self)@.is_empty() ==> final(self)@.tail == counter_add(
                old(self)@.tail,
                final(batch)@.len() as int,
            ),
            forall|k: int|
                0 <= k < final(batch)@.len() - old(batch)@.len() ==> #[trigger] final(self)@.slots[slot_of(
                    old(self)@.tail + k,
                )] is None,
            forall|k: int|
                final(batch)@.len() - old(batch)@.len() <= k < QUEUE_SIZE ==> #[trigger] final(self)@.slots[slot_of(old(self)@.tail + k)]
                    == old(self)@.slots[slot_of(old(self)@.tail + k)],
    {
        let head = self.head;
        let start = self.tail;
        if head == start {
            assert(batch@ =~= old(batch)@ + old(self)@.batch_taken(old(batch)@.len() as int));
            assert(batch@.subrange(0, old(batch)@.len() as int) =~= old(batch)@);
            return;
        }
        let count = take_count(head, start, batch.len());
        let ghost held = batch@;
        let ghost slots0 = self.log@;
        let mut i: usize = 0;
        while i < count
            invariant
                count <= MAX_BATCH_SIZE,
                count == 0 || start + count <= head,
                slots0.len() == QUEUE_SIZE,
                i <= count,
                self.head == head,
                self.tail == start,
                head == old(self)@.head,
                start == old(self)@.tail,
                slots0 == old(self)@.slots,
                held == old(batch)@,
                self.log@.len() == QUEUE_SIZE,
                self.log@ == cleared(slots0, start as int, i as nat),
                batch@ == held + read_slots(slots0, start as int, i as nat),
            decreases count - i,
        {
            let slot = slot_index(start + i);
            proof {
                lemma_cleared_keeps(slots0, start as int, i as nat, start + i);
            }
            let value = self.log[slot].take();
            batch.push(value);
            proof {
                assert(batch@ =~= held + read_slots(slots0, start as int, (i + 1) as nat));
            }
            i = i + 1;
        }
        proof {
            assert(batch@.subrange(0, held.len() as int) =~= held);
            crate::laws::lemma_cleared(slots0, start as int, count as nat);
        }
        self.tail = self.tail.wrapping_add(batch.len());
    }
}

impl<T> Default for Queue<T> {
    /// A queue over a freshly laid out ring.
    fn default() -> (queue: Self)
        ensures
            queue@ == QueueState::<T>::initial(),
            queue@.valid(),
    {
        Self::new()
    }
}

} // verus!
