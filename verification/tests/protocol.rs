use appendbuf::{AppendBuf, Pool};

// Appends within capacity concatenate in order.
#[test]
fn test_appends_concatenate_in_order() {
    let mut pool = Pool::new(32, 2);
    let mut buf = AppendBuf::new(&mut pool).unwrap();
    assert_eq!(buf.fill(&mut pool, &[1]), 1);
    assert_eq!(buf.fill(&mut pool, &[2, 3]), 2);
    assert_eq!(buf.fill(&mut pool, &[]), 0);
    assert_eq!(buf.fill(&mut pool, &[4, 5, 6]), 3);
    assert_eq!(buf.to_vec(&pool), vec![1, 2, 3, 4, 5, 6]);
}

// An overlong append returns exactly the remaining space and saturates the
// commit position at the capacity.
#[test]
fn test_overlong_append_returns_remaining() {
    let mut pool = Pool::new(26, 2);
    let mut buf = AppendBuf::new(&mut pool).unwrap();
    assert_eq!(buf.fill(&mut pool, &[9; 7]), 7);
    assert_eq!(buf.remaining(&pool), 3);
    assert_eq!(buf.fill(&mut pool, &[1, 2, 3, 4, 5]), 3);
    assert_eq!(buf.position(&pool), 10);
    assert_eq!(buf.remaining(&pool), 0);
    assert_eq!(buf.fill(&mut pool, &[6]), 0);
}

// A view taken at commit position P never observes later appends.
#[test]
fn test_view_snapshot_isolation() {
    let mut pool = Pool::new(32, 2);
    let mut buf = AppendBuf::new(&mut pool).unwrap();
    assert_eq!(buf.fill(&mut pool, &[10, 20]), 2);
    let early = buf.slice(&mut pool);
    assert_eq!(buf.fill(&mut pool, &[30, 40, 50]), 3);
    assert_eq!(buf.fill(&mut pool, &[60]), 1);
    assert_eq!(early.to_vec(&pool), vec![10, 20]);
    assert_eq!(buf.slice(&mut pool).to_vec(&pool), vec![10, 20, 30, 40, 50, 60]);
}

// `slice_from(k)` followed by `slice_to(0)` yields an empty view.
#[test]
fn test_sub_from_then_to_zero_is_empty() {
    let mut pool = Pool::new(32, 2);
    let mut buf = AppendBuf::new(&mut pool).unwrap();
    assert_eq!(buf.fill(&mut pool, &[1, 2, 3, 4, 5]), 5);
    let full = buf.slice(&mut pool);
    for k in 0..=5 {
        let sub = full.slice_from(&mut pool, k).slice_to(&mut pool, 0);
        assert_eq!(sub.to_vec(&pool), Vec::<u8>::new());
        assert_eq!(sub.len(), 0);
    }
}

// `try_slice(a, b)` succeeds exactly when `a <= b <= len`.
#[test]
fn test_try_slice_validity() {
    let mut pool = Pool::new(32, 2);
    let mut buf = AppendBuf::new(&mut pool).unwrap();
    assert_eq!(buf.fill(&mut pool, &[1, 2, 3, 4, 5, 6]), 6);
    let full = buf.slice(&mut pool);
    let ok = full.try_slice(&mut pool, 2, 5).unwrap();
    assert_eq!(ok.to_vec(&pool), vec![3, 4, 5]);
    let whole = full.try_slice(&mut pool, 0, 6).unwrap();
    assert_eq!(whole.to_vec(&pool), vec![1, 2, 3, 4, 5, 6]);
    assert!(full.try_slice(&mut pool, 3, 3).is_some());
    assert!(full.try_slice(&mut pool, 0, 7).is_none());
    assert!(full.try_slice(&mut pool, 4, 3).is_none());
    assert!(full.try_slice(&mut pool, 7, 7).is_none());
}

// Cloning a view and dropping the clone affects neither the original view
// nor the storage's lifetime.
#[test]
fn test_clone_then_release_clone() {
    let mut pool = Pool::new(32, 2);
    let mut buf = AppendBuf::new(&mut pool).unwrap();
    assert_eq!(buf.fill(&mut pool, &[8, 9]), 2);
    let original = buf.slice(&mut pool);
    let clone = original.clone_view(&mut pool);
    assert_eq!(clone.to_vec(&pool), vec![8, 9]);
    clone.release(&mut pool);
    assert_eq!(pool.free_count(), 0);
    assert_eq!(original.to_vec(&pool), vec![8, 9]);
}

// The block returns to the pool exactly once, only after the writer and
// every derived view (clones and sub-views included) are released.
#[test]
fn test_block_freed_exactly_once_after_last_release() {
    let mut pool = Pool::new(32, 4);
    let mut buf = AppendBuf::new(&mut pool).unwrap();
    assert_eq!(buf.fill(&mut pool, &[1, 2, 3, 4]), 4);
    let a = buf.slice(&mut pool);
    let b = a.clone_view(&mut pool);
    let c = a.slice_from(&mut pool, 1);
    assert_eq!(pool.free_count(), 0);
    buf.release(&mut pool);
    assert_eq!(pool.free_count(), 0);
    a.release(&mut pool);
    assert_eq!(pool.free_count(), 0);
    assert_eq!(b.to_vec(&pool), vec![1, 2, 3, 4]);
    assert_eq!(c.to_vec(&pool), vec![2, 3, 4]);
    b.release(&mut pool);
    assert_eq!(pool.free_count(), 0);
    c.release(&mut pool);
    assert_eq!(pool.free_count(), 1);
}

// Scenario: capacity 16, a view over the first three bytes survives an
// overlong append that fills the buffer.
#[test]
fn test_scenario_capacity_sixteen() {
    let mut pool = Pool::new(32, 4);
    let mut buf = AppendBuf::new(&mut pool).unwrap();
    assert_eq!(buf.remaining(&pool), 16);
    assert_eq!(buf.fill(&mut pool, &[1, 2, 3]), 3);
    let a = buf.slice(&mut pool);
    assert_eq!(
        buf.fill(&mut pool, &[4, 5, 6, 7, 8, 9, 10, 11, 12, 13, 14, 15, 16, 17]),
        13
    );
    assert_eq!(a.to_vec(&pool), vec![1, 2, 3]);
    let b = buf.slice(&mut pool);
    assert_eq!(
        b.to_vec(&pool),
        vec![1, 2, 3, 4, 5, 6, 7, 8, 9, 10, 11, 12, 13, 14, 15, 16]
    );
}

// Scenario: capacity 10, an empty view taken up front stays empty while
// later appends fill the buffer, the last one truncated to one byte.
#[test]
fn test_scenario_capacity_ten() {
    let mut pool = Pool::new(26, 4);
    let mut buf = AppendBuf::new(&mut pool).unwrap();
    assert_eq!(buf.remaining(&pool), 10);
    let empty = buf.slice(&mut pool);
    assert_eq!(empty.to_vec(&pool), Vec::<u8>::new());
    assert_eq!(buf.fill(&mut pool, &[1, 2, 3, 4]), 4);
    assert_eq!(buf.fill(&mut pool, &[10, 12, 13, 14, 15]), 5);
    assert_eq!(buf.fill(&mut pool, &[34, 35]), 1);
    assert_eq!(empty.to_vec(&pool), Vec::<u8>::new());
    assert_eq!(
        buf.slice(&mut pool).to_vec(&pool),
        vec![1, 2, 3, 4, 10, 12, 13, 14, 15, 34]
    );
}
