use firefly::channels::mpmc::bounded::{IndexQueue as RingIndexQueue, Queue as RingQueue};
use firefly::channels::mpsc::unbounded::Queue as MpscBlockQueue;
use firefly::channels::spmc::bounded::Queue as SpmcQueue;
use firefly::channels::spsc::bounded::{Handle, Queue as SpscQueue};
use firefly::channels::spsc::unbounded::{Queue as SpscBlockQueue, SLOTS as SPSC_SLOTS};
use firefly::mpmc::bounded::queue::{IndexQueue, Queue as ScqQueue};
use firefly::mpmc::unbounded::queue::{Queue as MpmcBlockQueue, SLOTS as MPMC_SLOTS};
use firefly::mpsc::bounded::queue::Queue as MpscRingQueue;
use firefly::mpsc::unbounded::queue::{Queue as MpscUnboundedQueue, SLOTS as MPSC_SLOTS};

#[test]
fn scq_queue_is_fifo_and_bounded() {
    let mut q: ScqQueue<u32> = ScqQueue::new(16);
    assert_eq!(q.capacity(), 16);
    assert!(q.is_empty());
    for i in 0..16 {
        assert_eq!(q.push(i), Ok(()));
    }
    assert!(q.is_full());
    assert_eq!(q.len(), 16);
    assert_eq!(q.push(99), Err(99));
    for i in 0..16 {
        assert_eq!(q.pop(), Some(i));
    }
    assert_eq!(q.pop(), None);
    assert!(q.is_empty());
}

#[test]
fn scq_queue_capacity_rounds_up_to_power_of_two() {
    let q: ScqQueue<u8> = ScqQueue::new(9);
    assert_eq!(q.capacity(), 16);
    let q: ScqQueue<u8> = ScqQueue::new(33);
    assert_eq!(q.capacity(), 64);
}

#[test]
fn scq_queue_wraps_around_many_times() {
    let mut q: ScqQueue<usize> = ScqQueue::new(16);
    let mut next_in = 0;
    let mut next_out = 0;
    for round in 0..200 {
        for _ in 0..(round % 7 + 1) {
            if q.push(next_in).is_ok() {
                next_in += 1;
            }
        }
        for _ in 0..(round % 5 + 1) {
            if let Some(v) = q.pop() {
                assert_eq!(v, next_out);
                next_out += 1;
            }
        }
        assert_eq!(q.len(), next_in - next_out);
    }
}

#[test]
fn index_queue_full_then_empty() {
    // with four index bits the remapping is the identity
    let mut full = IndexQueue::full(4);
    assert_eq!(full.len(4), 16);
    for i in 0..16 {
        assert_eq!(full.pop(4), Some(i));
    }
    assert_eq!(full.pop(4), None);
    let mut empty = IndexQueue::empty(4);
    assert_eq!(empty.len(4), 0);
    assert_eq!(empty.pop(4), None);
    empty.push(3, 4);
    empty.push(7, 4);
    assert_eq!(empty.len(4), 2);
    assert_eq!(empty.pop(4), Some(3));
    assert_eq!(empty.pop(4), Some(7));
    assert_eq!(empty.pop(4), None);
}

#[test]
fn index_queue_full_remaps_indices() {
    // with five index bits, index j sits at j rotated left by four
    let mut full = IndexQueue::full(5);
    assert_eq!(full.len(5), 32);
    assert_eq!(full.pop(5), Some(0));
    assert_eq!(full.pop(5), Some(16));
    assert_eq!(full.pop(5), Some(1));
    assert_eq!(full.pop(5), Some(17));
}

#[test]
fn ring_queue_fifo_and_full() {
    let mut q: RingQueue<i64> = RingQueue::new(4);
    assert!(q.can_push());
    assert!(!q.can_pop());
    for i in 0..4 {
        assert_eq!(q.push(i * 10), Ok(()));
    }
    assert!(!q.can_push());
    assert_eq!(q.push(5), Err(5));
    assert_eq!(q.pop(), Some(0));
    assert!(q.can_push());
    assert_eq!(q.push(40), Ok(()));
    assert_eq!(q.pop(), Some(10));
    assert_eq!(q.pop(), Some(20));
    assert_eq!(q.pop(), Some(30));
    assert_eq!(q.pop(), Some(40));
    assert_eq!(q.pop(), None);
}

#[test]
fn ring_index_queue_orders() {
    let mut full = RingIndexQueue::full(8);
    for i in 0..8 {
        assert_eq!(full.pop(), Some(i));
    }
    assert_eq!(full.pop(), None);
    let mut empty = RingIndexQueue::empty(8);
    assert!(!empty.can_pop());
    empty.push(5);
    assert!(empty.can_pop());
    assert_eq!(empty.pop(), Some(5));
    assert_eq!(empty.pop(), None);
}

#[test]
fn spmc_queue_fifo_and_full() {
    let mut q: SpmcQueue<u8> = SpmcQueue::new(2);
    assert!(q.can_push());
    assert_eq!(q.push(1), Ok(()));
    assert_eq!(q.push(2), Ok(()));
    assert!(!q.can_push());
    assert_eq!(q.push(3), Err(3));
    assert_eq!(q.pop(), Some(1));
    assert_eq!(q.push(3), Ok(()));
    assert_eq!(q.pop(), Some(2));
    assert_eq!(q.pop(), Some(3));
    assert_eq!(q.pop(), None);
}

#[test]
fn spsc_ring_with_handles() {
    let mut q: SpscQueue<u16> = SpscQueue::new(2);
    let mut producer = Handle::new();
    let mut consumer = Handle::new();
    assert!(q.is_empty());
    assert_eq!(producer.push(1, &mut q), Ok(()));
    assert_eq!(producer.push(2, &mut q), Ok(()));
    assert_eq!(producer.push(3, &mut q), Err(3));
    assert!(!q.is_empty());
    assert_eq!(consumer.pop(&mut q), Some(1));
    assert_eq!(producer.push(3, &mut q), Ok(()));
    assert_eq!(consumer.pop(&mut q), Some(2));
    assert_eq!(consumer.pop(&mut q), Some(3));
    assert_eq!(consumer.pop(&mut q), None);
    assert!(q.is_empty());
}

#[test]
fn mpsc_ring_queue_fifo() {
    let mut q: MpscRingQueue<String> = MpscRingQueue::new(3);
    assert!(q.is_empty());
    assert!(q.can_push());
    for s in ["a", "b", "c", "d"] {
        assert_eq!(q.push(s.to_string()), Ok(()));
    }
    // three rounds up to a capacity of four
    assert!(!q.can_push());
    assert_eq!(q.push("e".to_string()), Err("e".to_string()));
    assert_eq!(q.pop().as_deref(), Some("a"));
    assert_eq!(q.pop().as_deref(), Some("b"));
    assert_eq!(q.pop().as_deref(), Some("c"));
    assert_eq!(q.pop().as_deref(), Some("d"));
    assert_eq!(q.pop(), None);
}

#[test]
fn mpmc_block_queue_crosses_blocks() {
    let mut q: MpmcBlockQueue<usize> = MpmcBlockQueue::new();
    assert!(q.is_empty());
    let n = 2 * MPMC_SLOTS + 5;
    for i in 0..n {
        q.push(i);
    }
    assert!(!q.is_empty());
    for i in 0..n {
        assert_eq!(q.pop(), Some(i));
    }
    assert_eq!(q.pop(), None);
    assert!(q.is_empty());
}

#[test]
fn mpsc_block_queue_crosses_blocks() {
    let mut q: MpscUnboundedQueue<usize> = MpscUnboundedQueue::new();
    let n = MPSC_SLOTS + 3;
    for i in 0..n {
        q.push(i);
    }
    for i in 0..n {
        assert_eq!(q.pop(), Some(i));
    }
    assert_eq!(q.pop(), None);
    assert!(q.is_empty());
}

#[test]
fn channel_block_queue_crosses_blocks() {
    let mut q: MpscBlockQueue<u64> = MpscBlockQueue::new();
    assert!(q.is_empty());
    for i in 0..3000u64 {
        q.push(i);
        if i % 3 == 0 {
            assert_eq!(q.pop(), Some(i / 3));
        }
    }
    let mut expected = 1000u64;
    while let Some(v) = q.pop() {
        assert_eq!(v, expected);
        expected += 1;
    }
    assert_eq!(expected, 3000);
    assert!(q.is_empty());
}

#[test]
fn spsc_block_queue_starts_without_blocks() {
    let mut q: SpscBlockQueue<u8> = SpscBlockQueue::new();
    assert_eq!(q.pop(), None);
    q.push(7);
    assert_eq!(q.pop(), Some(7));
    assert_eq!(q.pop(), None);
}

#[test]
fn spsc_block_queue_crosses_blocks() {
    let mut q: SpscBlockQueue<usize> = SpscBlockQueue::new();
    let n = 3 * SPSC_SLOTS;
    for i in 0..n {
        q.push(i);
    }
    for i in 0..n {
        assert_eq!(q.pop(), Some(i));
    }
    assert_eq!(q.pop(), None);
    q.push(1);
    assert_eq!(q.pop(), Some(1));
}

#[test]
fn scq_queue_small_capacities() {
    for (asked, bound) in [(1usize, 1usize), (2, 2), (3, 4), (5, 8), (8, 8), (17, 32)] {
        let mut q: ScqQueue<usize> = ScqQueue::new(asked);
        assert_eq!(q.capacity(), bound);
        for round in 0..3 {
            for i in 0..bound {
                assert_eq!(q.push(round * 100 + i), Ok(()));
            }
            assert!(q.is_full());
            assert_eq!(q.len(), bound);
            assert_eq!(q.push(7), Err(7));
            for i in 0..bound {
                assert_eq!(q.pop(), Some(round * 100 + i));
            }
            assert_eq!(q.pop(), None);
        }
    }
}

#[test]
fn scq_queue_seventeenth_push_fails_at_sixteen() {
    let mut q: ScqQueue<u32> = ScqQueue::new(16);
    for i in 0..16 {
        assert_eq!(q.push(i), Ok(()));
    }
    assert_eq!(q.push(16), Err(16));
}
