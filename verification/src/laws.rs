//! What the queue promises across calls: the values come out in the order
//! they went in, none lost and none made up, as long as the counters and the
//! slots agree with each other.
use vstd::prelude::*;
use crate::ring::{batch_take, min_int, slot_of};
use crate::spsc::{cleared, counter_add, read_slots, written, QueueState};
use crate::{MAX_BATCH_SIZE, QUEUE_SIZE};

verus! {

impl<T> QueueState<T> {
    /// The slot `offset` positions after the consumer's position.
    pub open spec fn at(self, offset: int) -> Option<T> {
        self.slots[slot_of(self.tail + offset)]
    }

    /// How many values wait between the consumer and the producer.
    pub open spec fn waiting(self) -> int {
        self.head - self.tail
    }

    /// The counters and the slots agree: the producer is at most one lap
    /// ahead of the consumer, the slots between them are filled, and all
    /// the others are empty.
    pub open spec fn consistent(self) -> bool {
        &&& self.valid()
        &&& self.tail <= self.head <= self.tail + QUEUE_SIZE
        &&& forall|k: int| 0 <= k < self.waiting() ==> #[trigger] self.at(k) is Some
        &&& forall|k: int| self.waiting() <= k < QUEUE_SIZE ==> #[trigger] self.at(k) is None
    }

    /// The values waiting to be dequeued, oldest first.
    pub open spec fn pending(self) -> Seq<T> {
        Seq::new(self.waiting() as nat, |k: int| self.at(k)->0)
    }
}

/// Wraps each value in `Some`.
pub open spec fn all_some<T>(vals: Seq<T>) -> Seq<Option<T>> {
    Seq::new(vals.len(), |k: int| Some(vals[k]))
}

/// A freshly laid out ring is consistent and holds nothing.
pub proof fn law_initial_is_empty<T>()
    ensures
        QueueState::<T>::initial().consistent(),
        QueueState::<T>::initial().pending() == Seq::<T>::empty(),
{
    let s = QueueState::<T>::initial();
    assert forall|k: int| s.waiting() <= k < QUEUE_SIZE implies #[trigger] s.at(k) is None by {
        assert(0 <= slot_of(s.tail + k) < QUEUE_SIZE);
    }
    assert(s.pending() =~= Seq::<T>::empty());
}

/// Two positions less than a lap apart fall on different slots.
pub proof fn lemma_distinct_slots(a: int, b: int)
    requires
        a < b < a + QUEUE_SIZE,
    ensures
        slot_of(a) != slot_of(b),
{
}

/// An enqueue into a queue that is not full appends the value behind the
/// waiting ones, and the queue stays consistent.
pub proof fn law_enqueue_appends<T>(s: QueueState<T>, value: T)
    requires
        s.consistent(),
        s.waiting() < QUEUE_SIZE - 1,
        s.head < usize::MAX,
    ensures
        !s.is_full(),
        s.enqueued(value).consistent(),
        s.enqueued(value).pending() == s.pending().push(value),
{
    let t = s.enqueued(value);
    assert(t.head == s.head + 1);
    assert forall|k: int| 0 <= k < QUEUE_SIZE && k != s.waiting() implies #[trigger] t.at(k) == s.at(k) by {
        if k < s.waiting() {
            lemma_distinct_slots(s.tail + k, s.head as int);
        } else {
            lemma_distinct_slots(s.head as int, s.tail + k);
        }
    }
    assert(t.at(s.waiting()) == Some(value));
    assert(t.pending() =~= s.pending().push(value));
}

/// A queue whose counters and slots agree refuses a single enqueue exactly
/// when `QUEUE_SIZE - 1` values wait.
pub proof fn law_full_iff_one_short_of_a_lap<T>(s: QueueState<T>)
    requires
        s.consistent(),
    ensures
        s.is_full() <==> s.pending().len() == QUEUE_SIZE - 1,
        s.is_empty() <==> s.pending().len() == 0,
{
}

/// A dequeue from a queue in which values wait hands out the oldest one and
/// leaves the others in order.
pub proof fn law_dequeue_takes_oldest<T>(s: QueueState<T>)
    requires
        s.consistent(),
        !s.is_empty(),
    ensures
        s.front() == Some(s.pending()[0]),
        s.dequeued().consistent(),
        s.dequeued().pending() == s.pending().drop_first(),
{
    let t = s.dequeued();
    assert(t.tail == s.tail + 1);
    assert(s.at(0) is Some);
    assert forall|k: int| 0 <= k < QUEUE_SIZE - 1 implies #[trigger] t.at(k) == s.at(k + 1) by {
        lemma_distinct_slots(s.tail as int, s.tail + k + 1);
    }
    assert(t.at(QUEUE_SIZE - 1) is None);
    assert(t.pending() =~= s.pending().drop_first());
}

/// Writing a batch of values from position `start` on fills the slots of the
/// positions `start .. start + vals.len()` and keeps the others, as long as
/// the batch is not longer than a lap.
pub proof fn lemma_written<T>(slots: Seq<Option<T>>, start: int, vals: Seq<T>)
    requires
        slots.len() == QUEUE_SIZE,
        vals.len() <= QUEUE_SIZE,
    ensures
        written(slots, start, vals).len() == QUEUE_SIZE,
        forall|k: int| 0 <= k < vals.len() ==> #[trigger] written(slots, start, vals)[slot_of(start + k)] == Some(vals[k]),
        forall|k: int| vals.len() <= k < QUEUE_SIZE ==> #[trigger] written(slots, start, vals)[slot_of(start + k)] == slots[slot_of(start + k)],
    decreases vals.len(),
{
    if vals.len() > 0 {
        let prev = vals.drop_last();
        lemma_written(slots, start, prev);
        let last = start + vals.len() - 1;
        assert forall|k: int| 0 <= k < vals.len() implies #[trigger] written(slots, start, vals)[slot_of(start + k)] == Some(vals[k]) by {
            if k < vals.len() - 1 {
                lemma_distinct_slots(start + k, last);
                assert(written(slots, start, prev)[slot_of(start + k)] == Some(prev[k]));
            }
        }
        assert forall|k: int| vals.len() <= k < QUEUE_SIZE implies #[trigger] written(slots, start, vals)[slot_of(start + k)] == slots[slot_of(start + k)] by {
            lemma_distinct_slots(last, start + k);
            assert(written(slots, start, prev)[slot_of(start + k)] == slots[slot_of(start + k)]);
        }
    }
}

/// A batch that fits is appended, in order, behind the waiting values; a
/// batch is refused exactly when the waiting values and the batch together
/// are more than `QUEUE_SIZE`.
pub proof fn law_batch_appends<T>(s: QueueState<T>, vals: Seq<T>)
    requires
        s.consistent(),
        s.head + vals.len() <= usize::MAX,
    ensures
        s.batch_refused(vals.len() as int) <==> s.pending().len() + vals.len() > QUEUE_SIZE,
        !s.batch_refused(vals.len() as int) ==> s.batch_enqueued(vals).consistent()
            && s.batch_enqueued(vals).pending() == s.pending() + vals,
{
    if !s.batch_refused(vals.len() as int) {
        let t = s.batch_enqueued(vals);
        let w = s.waiting();
        assert(t.head == s.head + vals.len());
        lemma_written(s.slots, s.head as int, vals);
        assert forall|k: int| 0 <= k < QUEUE_SIZE implies #[trigger] t.at(k) == (if k < w { s.at(k) } else if k < w + vals.len() { Some(vals[k - w]) } else { s.at(k) }) by {
            if k < w {
                let j = k + QUEUE_SIZE - w;
                assert(s.tail + k == s.head + j - QUEUE_SIZE);
                assert(slot_of(s.head + j) == slot_of(s.tail + k));
            } else {
                assert(s.tail + k == s.head + (k - w));
            }
        }
        assert(t.pending() =~= s.pending() + vals);
    }
}

/// Emptying `count` positions after `start` empties their slots and keeps
/// the others, as long as `count` is not more than a lap.
pub proof fn lemma_cleared<T>(slots: Seq<Option<T>>, start: int, count: nat)
    requires
        slots.len() == QUEUE_SIZE,
        count <= QUEUE_SIZE,
    ensures
        cleared(slots, start, count).len() == QUEUE_SIZE,
        forall|k: int| 0 <= k < count ==> #[trigger] cleared(slots, start, count)[slot_of(start + k)] is None,
        forall|k: int| count <= k < QUEUE_SIZE ==> #[trigger] cleared(slots, start, count)[slot_of(start + k)] == slots[slot_of(start + k)],
    decreases count,
{
    if count > 0 {
        let prev = (count - 1) as nat;
        lemma_cleared(slots, start, prev);
        let last = start + count - 1;
        assert forall|k: int| 0 <= k < count implies #[trigger] cleared(slots, start, count)[slot_of(start + k)] is None by {
            if k < count - 1 {
                assert(cleared(slots, start, prev)[slot_of(start + k)] is None);
            }
        }
        assert forall|k: int| count <= k < QUEUE_SIZE implies #[trigger] cleared(slots, start, count)[slot_of(start + k)] == slots[slot_of(start + k)] by {
            lemma_distinct_slots(last, start + k);
            assert(cleared(slots, start, prev)[slot_of(start + k)] == slots[slot_of(start + k)]);
        }
    }
}

/// A batched dequeue fills the batch: when values wait and the batch holds
/// `held < MAX_BATCH_SIZE` values, it takes all the waiting values or just
/// enough to bring the batch to `MAX_BATCH_SIZE`, whichever is fewer, never
/// more than wait and never past `MAX_BATCH_SIZE`; otherwise it takes none.
pub proof fn law_batch_take_fills_the_batch(head: int, tail: int, held: int)
    requires
        0 <= held,
    ensures
        head > tail && held < MAX_BATCH_SIZE ==> {
            &&& batch_take(head, tail, held) <= head - tail
            &&& held + batch_take(head, tail, held) <= MAX_BATCH_SIZE
            &&& (batch_take(head, tail, held) == head - tail || held + batch_take(head, tail, held)
                == MAX_BATCH_SIZE)
        },
        !(head > tail && held < MAX_BATCH_SIZE) ==> batch_take(head, tail, held) == 0,
{
}

/// Whatever the batch already holds, a batched dequeue from a consistent
/// queue appends the oldest waiting values, oldest first: all of them when
/// they fit, otherwise just as many as bring the batch to `MAX_BATCH_SIZE`;
/// a batch already at `MAX_BATCH_SIZE` or more gets nothing.
pub proof fn law_batch_takes_oldest_into_any_batch<T>(s: QueueState<T>, held: int)
    requires
        s.consistent(),
        0 <= held,
    ensures
        s.take_count(held) <= s.pending().len(),
        held < MAX_BATCH_SIZE ==> held + s.take_count(held) <= MAX_BATCH_SIZE && (s.take_count(held)
            == s.pending().len() || held + s.take_count(held) == MAX_BATCH_SIZE),
        held >= MAX_BATCH_SIZE ==> s.take_count(held) == 0,
        s.batch_taken(held) == all_some(s.pending().take(s.take_count(held) as int)),
{
    law_batch_take_fills_the_batch(s.head as int, s.tail as int, held);
    let n = s.take_count(held);
    assert(s.batch_taken(held) =~= all_some(s.pending().take(n as int)));
}

/// A batched dequeue into an empty batch hands out the oldest waiting
/// values, in order, as many as wait but at most `MAX_BATCH_SIZE`, and
/// leaves the others waiting.
pub proof fn law_batch_takes_oldest<T>(s: QueueState<T>)
    requires
        s.consistent(),
    ensures
        s.take_count(0) == min_int(s.pending().len() as int, MAX_BATCH_SIZE as int),
        s.batch_taken(0) == all_some(s.pending().take(s.take_count(0) as int)),
        s.batch_dequeued(0).consistent(),
        s.batch_dequeued(0).pending() == s.pending().skip(s.take_count(0) as int),
{
    let n = s.take_count(0);
    assert(s.batch_taken(0) =~= all_some(s.pending().take(n as int)));
    if !s.is_empty() {
        let t = s.batch_dequeued(0);
        assert(t.tail == s.tail + n);
        lemma_cleared(s.slots, s.tail as int, n);
        assert forall|k: int| 0 <= k < QUEUE_SIZE implies #[trigger] t.at(k) == (if k < QUEUE_SIZE - n { s.at(k + n) } else { None::<T> }) by {
            if k < QUEUE_SIZE - n {
                assert(t.tail + k == s.tail + (k + n));
            } else {
                assert(t.tail + k == s.tail + (k + n - QUEUE_SIZE) + QUEUE_SIZE);
                assert(slot_of(t.tail + k) == slot_of(s.tail + (k + n - QUEUE_SIZE)));
            }
        }
        assert(t.pending() =~= s.pending().skip(n as int));
    } else {
        assert(s.pending().skip(0) =~= s.pending());
    }
}

/// The state after enqueueing each of `vals`, in order, assuming each is accepted.
pub open spec fn enqueue_each<T>(s: QueueState<T>, vals: Seq<T>) -> QueueState<T>
    decreases vals.len(),
{
    if vals.len() == 0 {
        s
    } else {
        enqueue_each(s, vals.drop_last()).enqueued(vals.last())
    }
}

/// The state after `count` dequeues, assuming something waits each time.
pub open spec fn dequeue_each<T>(s: QueueState<T>, count: nat) -> QueueState<T>
    decreases count,
{
    if count == 0 {
        s
    } else {
        dequeue_each(s, (count - 1) as nat).dequeued()
    }
}

/// What `count` dequeues hand out, in order, assuming something waits each time.
pub open spec fn dequeue_each_out<T>(s: QueueState<T>, count: nat) -> Seq<Option<T>>
    decreases count,
{
    if count == 0 {
        Seq::empty()
    } else {
        dequeue_each_out(s, (count - 1) as nat).push(dequeue_each(s, (count - 1) as nat).front())
    }
}

/// Enqueueing values one by one into a queue with room for them accepts
/// each and appends them in order.
pub proof fn lemma_enqueue_each<T>(s: QueueState<T>, vals: Seq<T>)
    requires
        s.consistent(),
        s.pending().len() + vals.len() <= QUEUE_SIZE - 1,
        s.head + vals.len() <= usize::MAX,
    ensures
        enqueue_each(s, vals).consistent(),
        enqueue_each(s, vals).pending() == s.pending() + vals,
        enqueue_each(s, vals).head == s.head + vals.len(),
        forall|j: int| 0 <= j < vals.len() ==> !#[trigger] enqueue_each(s, vals.take(j)).is_full(),
    decreases vals.len(),
{
    if vals.len() == 0 {
        assert(s.pending() + vals =~= s.pending());
    } else {
        let prev = vals.drop_last();
        lemma_enqueue_each(s, prev);
        let p = enqueue_each(s, prev);
        assert(p.pending().len() == p.waiting());
        law_enqueue_appends(p, vals.last());
        assert(s.pending() + prev + seq![vals.last()] =~= s.pending() + vals);
        assert(p.pending().push(vals.last()) =~= s.pending() + prev + seq![vals.last()]);
        assert forall|j: int| 0 <= j < vals.len() implies !#[trigger] enqueue_each(s, vals.take(j)).is_full() by {
            if j < vals.len() - 1 {
                assert(vals.take(j) =~= prev.take(j));
                assert(!enqueue_each(s, prev.take(j)).is_full());
            } else {
                assert(vals.take(j) =~= prev);
            }
        }
    }
}

/// Dequeueing one by one hands out the waiting values oldest first.
pub proof fn lemma_dequeue_each<T>(s: QueueState<T>, count: nat)
    requires
        s.consistent(),
        count <= s.pending().len(),
    ensures
        dequeue_each(s, count).consistent(),
        dequeue_each(s, count).pending() == s.pending().skip(count as int),
        dequeue_each_out(s, count) == all_some(s.pending().take(count as int)),
        forall|j: nat| j < count ==> !#[trigger] dequeue_each(s, j).is_empty(),
    decreases count,
{
    if count == 0 {
        assert(s.pending().skip(0) =~= s.pending());
        assert(all_some(s.pending().take(0)) =~= Seq::<Option<T>>::empty());
    } else {
        let prev = (count - 1) as nat;
        lemma_dequeue_each(s, prev);
        let p = dequeue_each(s, prev);
        assert(p.pending().len() > 0);
        law_dequeue_takes_oldest(p);
        assert(p.pending().drop_first() =~= s.pending().skip(count as int));
        assert(dequeue_each_out(s, count) =~= all_some(s.pending().take(count as int)));
        assert forall|j: nat| j < count implies !#[trigger] dequeue_each(s, j).is_empty() by {
            if j < prev {
            } else {
                assert(j == prev);
            }
        }
    }
}

/// The queue is first in, first out: values enqueued one by one into a
/// queue with room for them are all accepted, and as many dequeues as
/// there are values then hand out the values that were waiting followed by
/// the new ones, in the order they went in, leaving the queue empty.
pub proof fn law_fifo<T>(s: QueueState<T>, vals: Seq<T>)
    requires
        s.consistent(),
        s.pending().len() + vals.len() <= QUEUE_SIZE - 1,
        s.head + vals.len() <= usize::MAX,
    ensures
        forall|j: int| 0 <= j < vals.len() ==> !#[trigger] enqueue_each(s, vals.take(j)).is_full(),
        forall|j: nat| j < s.pending().len() + vals.len() ==> !#[trigger] dequeue_each(enqueue_each(s, vals), j).is_empty(),
        dequeue_each_out(enqueue_each(s, vals), (s.pending().len() + vals.len()) as nat) == all_some(s.pending() + vals),
        dequeue_each(enqueue_each(s, vals), (s.pending().len() + vals.len()) as nat).is_empty(),
{
    lemma_enqueue_each(s, vals);
    let t = enqueue_each(s, vals);
    let m = (s.pending().len() + vals.len()) as nat;
    lemma_dequeue_each(t, m);
    assert(t.pending().take(m as int) =~= t.pending());
    let u = dequeue_each(t, m);
    assert(u.pending().len() == 0);
}

} // verus!
