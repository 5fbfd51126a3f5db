use ry26::{DataPoint, DataPointSequence, DoubleBuffer, FlatObjectPool, ObjectPool};

#[test]
fn test_reuse_exactness_scenario() {
    // Acquiring a size immediately after releasing a range of exactly that
    // size returns the same range (first-fit identity on exact match).
    let mut pool: FlatObjectPool<i32> = FlatObjectPool::new(0, 3);
    assert_eq!(pool.acquire(4), (0, 4));
    pool.release(0, 4);
    assert_eq!(pool.acquire(4), (0, 4));
}

#[test]
fn test_split_correctness_scenario() {
    // Acquiring less than a free range takes its prefix; the leftover suffix
    // remains reusable by a later acquire.
    let mut pool: FlatObjectPool<i32> = FlatObjectPool::new(0, 3);
    assert_eq!(pool.acquire(6), (0, 6));
    pool.release(0, 6);
    assert_eq!(pool.acquire(2), (0, 2));
    assert_eq!(pool.acquire(4), (2, 6));
}

#[test]
fn test_loaned_ranges_stay_disjoint() {
    // Ranges on loan never overlap, also across release/acquire cycles.
    let mut pool: FlatObjectPool<u8> = FlatObjectPool::new(0, 4);
    let a = pool.acquire(3);
    let b = pool.acquire(5);
    pool.release(a.0, a.1);
    let c = pool.acquire(2);
    let d = pool.acquire(4);
    let loans = [b, c, d];
    for i in 0..loans.len() {
        for j in 0..loans.len() {
            if i != j {
                let (x, y) = (loans[i], loans[j]);
                assert!(y.1 <= x.0 || x.1 <= y.0, "{:?} overlaps {:?}", x, y);
            }
        }
    }
}

#[test]
fn test_release_beyond_capacity_drops_range() {
    // A release with the free list full is dropped, but its slots are still
    // cleared; the earlier ranges stay reusable in order.
    let mut pool: FlatObjectPool<i32> = FlatObjectPool::new(0, 2);
    let a = pool.acquire(2);
    let b = pool.acquire(2);
    let c = pool.acquire(2);
    for i in 0..6 {
        pool.set(i, 7);
    }
    pool.release(a.0, a.1);
    pool.release(b.0, b.1);
    pool.release(c.0, c.1);
    assert_eq!(pool.available_count(), 2);
    for i in 0..6 {
        assert_eq!(pool.get(i), Some(&0));
    }
    assert_eq!(pool.acquire(2), a);
}

#[test]
fn test_set_auto_grows_buffer() {
    // Writing beyond the buffer grows it, filling the gap with defaults.
    let mut pool: FlatObjectPool<i32> = FlatObjectPool::new(3, 2);
    pool.set(5, 9);
    assert_eq!(pool.buffer_size(), 6);
    assert_eq!(pool.get(3), Some(&0));
    assert_eq!(pool.get(4), Some(&0));
    assert_eq!(pool.get(5), Some(&9));
}

#[test]
fn test_get_out_of_bounds_is_none() {
    let mut pool: FlatObjectPool<i32> = FlatObjectPool::new(4, 2);
    assert_eq!(pool.get(4), None);
    assert!(pool.get_mut(1000).is_none());
}

#[test]
fn test_get_mut_writes_through() {
    let mut pool: FlatObjectPool<i32> = FlatObjectPool::new(4, 2);
    if let Some(slot) = pool.get_mut(2) {
        *slot = 11;
    }
    assert_eq!(pool.get(2), Some(&11));
}

#[test]
fn test_accumulation_monotonicity_scenario() {
    // With batches of 2, 0 and 3 points, the length after each commit is the
    // running sum, and earlier elements never change.
    let mut sequence = DataPointSequence::new(4, 2);
    let point = |id: u64| DataPoint {
        id,
        value_bits: (id as f64).to_bits(),
        timestamp: format!("2025-10-27T12:00:0{}Z", id),
    };

    sequence.add_points(vec![point(1), point(2)]);
    sequence.update();
    assert_eq!(sequence.len(), 2);

    sequence.update();
    assert_eq!(sequence.len(), 2);

    let before: Vec<u64> = sequence.current().iter().map(|p| p.id).collect();
    sequence.add_points(vec![point(3), point(4), point(5)]);
    sequence.update();
    assert_eq!(sequence.len(), 5);
    let after: Vec<u64> = sequence.current().iter().map(|p| p.id).collect();
    assert_eq!(&after[..before.len()], &before[..]);
    assert_eq!(after, vec![1, 2, 3, 4, 5]);
}

#[test]
fn test_commit_advances_step_without_additions() {
    let mut sequence = DataPointSequence::new(4, 2);
    sequence.update();
    sequence.update();
    sequence.update();
    assert_eq!(sequence.step(), 3);
    assert_eq!(sequence.len(), 0);
    assert_eq!(sequence.pending_count(), 0);
}

#[test]
fn test_swap_transfer_fidelity() {
    // Pushing [a, b, c] onto the back and swapping publishes exactly that,
    // in order, and leaves an empty back.
    let mut buffer: DoubleBuffer<char> = DoubleBuffer::new(4);
    buffer.back_mut().push('a');
    buffer.back_mut().push('b');
    buffer.back_mut().push('c');
    buffer.swap();
    assert_eq!(buffer.front(), &['a', 'b', 'c']);
    assert_eq!(buffer.back_mut().len(), 0);
}

#[test]
fn test_pool_capacity_never_exceeded() {
    let mut pool: ObjectPool<i32> = ObjectPool::new(2);
    for _ in 0..10 {
        pool.release(Vec::new());
        assert!(pool.available_count() <= 2);
    }
    let mut flat: FlatObjectPool<i32> = FlatObjectPool::new(0, 2);
    for _ in 0..10 {
        let (b, e) = flat.acquire(1);
        flat.release(b, e);
        assert!(flat.available_count() <= 2);
    }
}

#[test]
fn test_reset_restores_zero_state_but_not_capacity() {
    let mut sequence = DataPointSequence::new(2, 2);
    for id in 1..=6u64 {
        sequence.add_point(DataPoint {
            id,
            value_bits: 0,
            timestamp: String::new(),
        });
    }
    sequence.update();
    let size_before = sequence.buffer_size();
    assert!(size_before >= 6);

    sequence.clear();

    assert_eq!(sequence.len(), 0);
    assert_eq!(sequence.step(), 0);
    assert_eq!(sequence.pending_count(), 0);
    assert_eq!(sequence.buffer_size(), size_before);
}

#[test]
fn test_swap_pool_counts() {
    // Each swap retires one vector and immediately reuses one: with room in
    // the pool the retained count returns to its previous value.
    let mut buffer: DoubleBuffer<i32> = DoubleBuffer::new(3);
    assert_eq!(buffer.pool_available(), 0);
    buffer.back_mut().push(1);
    buffer.swap();
    assert_eq!(buffer.pool_available(), 0);
    buffer.clear();
    // two vectors released, two acquired back out
    assert_eq!(buffer.pool_available(), 0);
}

#[test]
fn test_release_clears_string_slots_until_overwritten() {
    let mut pool: FlatObjectPool<String> = FlatObjectPool::new(0, 2);
    let (b, e) = pool.acquire(3);
    for i in b..e {
        pool.set(i, "x".to_string());
    }
    pool.release(b, e);
    // other operations leave the cleared slots untouched
    let _ = pool.acquire(0);
    for i in b..e {
        assert_eq!(pool.get(i), Some(&String::new()));
    }
    pool.set(b, "y".to_string());
    assert_eq!(pool.get(b), Some(&"y".to_string()));
}
