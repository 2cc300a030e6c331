use shmem_queue::spsc::Queue;
use shmem_queue::{MAX_BATCH_SIZE, QUEUE_SIZE};

#[test]
fn test_default_initialization() {
    let queue = Queue::<i32>::new();
    assert_eq!(queue.head(), 0);
    assert_eq!(queue.tail(), 0);
    for i in 0..QUEUE_SIZE {
        assert!(queue.slot(i).is_none());
    }
}

#[test]
fn test_enqueue() {
    let mut queue = Queue::<i32>::new();
    assert!(queue.enqueue(1).is_ok());
    assert_eq!(queue.head(), 1);
}

#[test]
fn test_dequeue() {
    let mut queue = Queue::<i32>::new();
    assert!(queue.enqueue(1).is_ok());
    assert_eq!(queue.head(), 1);
    assert_eq!(queue.tail(), 0);

    assert_eq!(queue.dequeue(), Some(1));
    assert_eq!(queue.head(), 1);
    assert_eq!(queue.tail(), 1);
}

#[test]
fn test_equeue_full() {
    let mut queue = Queue::<i32>::new();
    for i in 0..QUEUE_SIZE - 1 {
        assert!(queue.enqueue(i as i32).is_ok());
    }
    assert!(queue.tail() == 0);
    assert!(queue.head() == QUEUE_SIZE - 1);
    assert!(!queue.enqueue(QUEUE_SIZE as i32).is_ok());
}

#[test]
fn test_dequeue_empty() {
    let mut queue = Queue::<i32>::new();
    assert_eq!(queue.dequeue(), None);
}

#[test]
fn default_queue_is_empty() {
    let mut queue: Queue<i32> = Default::default();
    assert_eq!(queue.head(), 0);
    assert_eq!(queue.tail(), 0);
    assert!(!queue.full());
    assert_eq!(queue.dequeue(), None);
}

#[test]
fn with_capacity_in_gives_an_empty_queue() {
    let queue = Queue::<u8>::with_capacity_in(true, QUEUE_SIZE);
    let mut queue = queue.unwrap();
    assert_eq!(queue.head(), 0);
    assert_eq!(queue.tail(), 0);
    assert_eq!(queue.dequeue(), None);
}

#[test]
fn full_reports_one_short_of_a_lap() {
    let mut queue = Queue::<i32>::new();
    assert!(!queue.full());
    for i in 0..QUEUE_SIZE - 2 {
        assert!(queue.enqueue(i as i32).is_ok());
        assert!(!queue.full());
    }
    assert!(queue.enqueue(7).is_ok());
    assert!(queue.full());
    assert_eq!(queue.enqueue(99), Err(99));
    assert_eq!(queue.head(), QUEUE_SIZE - 1);
    assert_eq!(queue.dequeue(), Some(0));
    assert!(!queue.full());
}

#[test]
fn values_come_out_in_order_across_laps() {
    let mut queue = Queue::<i32>::new();
    let mut next_in = 0i32;
    let mut next_out = 0i32;
    for round in 0..(3 * QUEUE_SIZE) {
        for _ in 0..(round % 5) {
            if queue.enqueue(next_in).is_ok() {
                next_in += 1;
            }
        }
        for _ in 0..(round % 3) {
            if let Some(v) = queue.dequeue() {
                assert_eq!(v, next_out);
                next_out += 1;
            }
        }
    }
    while let Some(v) = queue.dequeue() {
        assert_eq!(v, next_out);
        next_out += 1;
    }
    assert_eq!(next_in, next_out);
    assert_eq!(queue.head(), queue.tail());
}

#[test]
fn slots_are_emptied_when_taken() {
    let mut queue = Queue::<i32>::new();
    assert!(queue.enqueue(4).is_ok());
    assert_eq!(queue.slot(0), &Some(4));
    assert_eq!(queue.dequeue(), Some(4));
    assert!(queue.slot(0).is_none());
}

#[test]
fn enqueue_batch_appends_in_order_and_empties_the_batch() {
    let mut queue = Queue::<i32>::new();
    assert!(queue.enqueue(-1).is_ok());
    let mut values = vec![10, 11, 12];
    assert_eq!(queue.enqueue_batch(&mut values), Ok(()));
    assert!(values.is_empty());
    assert_eq!(queue.head(), 4);
    assert_eq!(queue.dequeue(), Some(-1));
    assert_eq!(queue.dequeue(), Some(10));
    assert_eq!(queue.dequeue(), Some(11));
    assert_eq!(queue.dequeue(), Some(12));
    assert_eq!(queue.dequeue(), None);
}

#[test]
fn enqueue_batch_fills_a_whole_lap_then_refuses() {
    let mut queue = Queue::<usize>::new();
    let mut values: Vec<usize> = (0..QUEUE_SIZE).collect();
    assert_eq!(queue.enqueue_batch(&mut values), Ok(()));
    assert_eq!(queue.head(), QUEUE_SIZE);
    let mut more = vec![1];
    assert_eq!(queue.enqueue_batch(&mut more), Err(()));
    assert_eq!(more, vec![1]);
    assert_eq!(queue.head(), QUEUE_SIZE);
    assert_eq!(queue.dequeue(), Some(0));
    assert_eq!(queue.enqueue_batch(&mut more), Ok(()));
    assert!(more.is_empty());
}

#[test]
fn enqueue_batch_wraps_around_the_ring() {
    let mut queue = Queue::<usize>::new();
    for i in 0..QUEUE_SIZE - 2 {
        assert!(queue.enqueue(i).is_ok());
    }
    for i in 0..QUEUE_SIZE - 2 {
        assert_eq!(queue.dequeue(), Some(i));
    }
    let mut values = vec![100, 101, 102, 103];
    assert_eq!(queue.enqueue_batch(&mut values), Ok(()));
    assert_eq!(queue.slot(QUEUE_SIZE - 1), &Some(101));
    assert_eq!(queue.slot(0), &Some(102));
    for v in 100..104 {
        assert_eq!(queue.dequeue(), Some(v));
    }
}

#[test]
fn single_enqueue_after_a_whole_lap_overwrites_the_oldest_slot() {
    let mut queue = Queue::<usize>::new();
    let mut values: Vec<usize> = (0..QUEUE_SIZE).collect();
    assert_eq!(queue.enqueue_batch(&mut values), Ok(()));
    assert!(!queue.full());
    assert_eq!(queue.enqueue(5000), Ok(()));
    assert_eq!(queue.head(), QUEUE_SIZE + 1);
    assert_eq!(queue.dequeue(), Some(5000));
}

#[test]
fn dequeue_batch_takes_at_most_max_batch_size() {
    let mut queue = Queue::<usize>::new();
    for i in 0..(MAX_BATCH_SIZE + 5) {
        assert!(queue.enqueue(i).is_ok());
    }
    let mut batch = Vec::new();
    queue.dequeue_batch(&mut batch);
    assert_eq!(batch.len(), MAX_BATCH_SIZE);
    for (i, v) in batch.iter().enumerate() {
        assert_eq!(*v, Some(i));
    }
    assert_eq!(queue.tail(), MAX_BATCH_SIZE);
    batch.clear();
    queue.dequeue_batch(&mut batch);
    assert_eq!(batch, vec![Some(32), Some(33), Some(34), Some(35), Some(36)]);
    assert_eq!(queue.tail(), MAX_BATCH_SIZE + 5);
    batch.clear();
    queue.dequeue_batch(&mut batch);
    assert!(batch.is_empty());
    assert_eq!(queue.tail(), MAX_BATCH_SIZE + 5);
}

#[test]
fn dequeue_batch_on_an_empty_queue_changes_nothing() {
    let mut queue = Queue::<usize>::new();
    let mut batch = vec![Some(9)];
    queue.dequeue_batch(&mut batch);
    assert_eq!(batch, vec![Some(9)]);
    assert_eq!(queue.tail(), 0);
}

#[test]
fn dequeue_batch_moves_the_consumer_by_the_final_batch_length() {
    let mut queue = Queue::<usize>::new();
    for i in 0..10 {
        assert!(queue.enqueue(i).is_ok());
    }
    let mut batch = vec![None; MAX_BATCH_SIZE - 2];
    queue.dequeue_batch(&mut batch);
    assert_eq!(batch.len(), MAX_BATCH_SIZE);
    assert_eq!(batch[MAX_BATCH_SIZE - 2], Some(0));
    assert_eq!(batch[MAX_BATCH_SIZE - 1], Some(1));
    assert_eq!(queue.tail(), MAX_BATCH_SIZE);
}

#[test]
fn producer_and_consumer_batches_interleave_in_order() {
    let mut queue = Queue::<i32>::new();
    let total = 100 * QUEUE_SIZE;
    let mut sent = 0usize;
    let mut received = 0usize;
    let mut batch = Vec::with_capacity(MAX_BATCH_SIZE);
    while received < total {
        if sent < total {
            let mut values: Vec<i32> = (0..MAX_BATCH_SIZE).map(|x| x as i32).collect();
            if queue.enqueue_batch(&mut values).is_ok() {
                sent += MAX_BATCH_SIZE;
            }
        }
        queue.dequeue_batch(&mut batch);
        received += batch.len();
        for (i, value) in batch.drain(..).enumerate() {
            assert_eq!(value, Some(i as i32));
        }
    }
    assert_eq!(received, total);
}
