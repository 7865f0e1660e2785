use appendbuf::{AllocError, AppendBuf, Pool};

#[test]
fn test_write_and_slice() {
    let mut pool = Pool::new(128, 100);
    let mut buf = AppendBuf::new(&mut pool).unwrap();
    assert_eq!(buf.fill(&mut pool, &[1, 2, 3]), 3);
    let slice = buf.slice(&mut pool);
    assert_eq!(slice.to_vec(&pool), vec![1, 2, 3]);

    assert_eq!(buf.to_vec(&pool), vec![1, 2, 3]);
}

#[test]
fn test_overlong_write() {
    let mut pool = Pool::new(32, 100);
    let mut buf = AppendBuf::new(&mut pool).unwrap();
    assert_eq!(
        buf.fill(&mut pool, &[1, 2, 3, 4, 5, 6, 7, 8, 9, 10, 11, 12, 13, 14, 15, 16, 17]),
        16
    );
    let slice = buf.slice(&mut pool);
    assert_eq!(
        slice.to_vec(&pool),
        vec![1, 2, 3, 4, 5, 6, 7, 8, 9, 10, 11, 12, 13, 14, 15, 16]
    );
}

#[test]
fn test_slice_slicing() {
    let mut pool = Pool::new(32, 10);
    let data = &[1, 2, 3, 4, 5, 6, 7, 8];

    let mut buf = AppendBuf::new(&mut pool).unwrap();
    assert_eq!(buf.fill(&mut pool, data), 8);

    assert_eq!(buf.slice(&mut pool).to_vec(&pool), data.to_vec());
    assert_eq!(
        buf.slice(&mut pool).slice_to(&mut pool, 5).to_vec(&pool),
        data[..5].to_vec()
    );
    assert_eq!(
        buf.slice(&mut pool).slice_from(&mut pool, 6).to_vec(&pool),
        data[6..].to_vec()
    );
    assert_eq!(
        buf.slice(&mut pool).slice(&mut pool, 2, 7).to_vec(&pool),
        data[2..7].to_vec()
    );
}

#[test]
fn test_many_writes() {
    let mut pool = Pool::new(128, 10);
    let mut buf = AppendBuf::new(&mut pool).unwrap();

    assert_eq!(buf.fill(&mut pool, &[1, 2, 3, 4]), 4);
    assert_eq!(buf.fill(&mut pool, &[10, 12, 13, 14, 15]), 5);
    assert_eq!(buf.fill(&mut pool, &[34, 35]), 2);

    assert_eq!(
        buf.slice(&mut pool).to_vec(&pool),
        vec![1, 2, 3, 4, 10, 12, 13, 14, 15, 34, 35]
    );
}

#[test]
fn test_slice_then_write() {
    let mut pool = Pool::new(32, 10);
    let mut buf = AppendBuf::new(&mut pool).unwrap();
    let empty = buf.slice(&mut pool);
    assert_eq!(empty.to_vec(&pool), Vec::<u8>::new());

    assert_eq!(buf.fill(&mut pool, &[5, 6, 7, 8]), 4);

    let not_empty = buf.slice(&mut pool);
    assert_eq!(empty.to_vec(&pool), Vec::<u8>::new());
    assert_eq!(not_empty.to_vec(&pool), vec![5, 6, 7, 8]);

    assert_eq!(buf.fill(&mut pool, &[9, 10, 11, 12, 13]), 5);
    assert_eq!(empty.to_vec(&pool), Vec::<u8>::new());
    assert_eq!(not_empty.to_vec(&pool), vec![5, 6, 7, 8]);
    assert_eq!(buf.slice(&mut pool).to_vec(&pool), vec![5, 6, 7, 8, 9, 10, 11, 12, 13]);
}

#[test]
fn test_slice_bounds_edge_cases() {
    let mut pool = Pool::new(32, 10);
    let data = &[1, 2, 3, 4, 5, 6, 7, 8];

    let mut buf = AppendBuf::new(&mut pool).unwrap();
    assert_eq!(buf.fill(&mut pool, data), data.len());

    let slice = buf.slice(&mut pool).slice_to(&mut pool, data.len());
    assert_eq!(slice.to_vec(&pool), data.to_vec());

    let slice = buf.slice(&mut pool).slice_from(&mut pool, 0);
    assert_eq!(slice.to_vec(&pool), data.to_vec());
}

#[test]
fn test_capacity_is_block_size_minus_header() {
    let mut pool = Pool::new(32, 4);
    assert_eq!(pool.block_size(), 32);
    assert_eq!(pool.num_blocks(), 4);
    let buf = AppendBuf::new(&mut pool).unwrap();
    assert_eq!(buf.remaining(&pool), 16);
    assert_eq!(buf.position(&pool), 0);
}

#[test]
fn test_alloc_error_exhausted() {
    let mut pool = Pool::new(32, 1);
    let _buf = AppendBuf::new(&mut pool).unwrap();
    assert_eq!(AppendBuf::new(&mut pool).err(), Some(AllocError::Exhausted));
}

#[test]
fn test_alloc_error_invalid_config() {
    let mut pool = Pool::new(16, 4);
    assert_eq!(AppendBuf::new(&mut pool).err(), Some(AllocError::InvalidConfig));
}

#[test]
fn test_release_makes_block_reusable() {
    let mut pool = Pool::new(32, 1);
    let buf = AppendBuf::new(&mut pool).unwrap();
    assert_eq!(AppendBuf::new(&mut pool).err(), Some(AllocError::Exhausted));
    buf.release(&mut pool);
    assert_eq!(pool.free_count(), 1);
    let again = AppendBuf::new(&mut pool);
    assert!(again.is_ok());
}

#[test]
fn test_reserve_then_advance() {
    let mut pool = Pool::new(32, 4);
    let mut buf = AppendBuf::new(&mut pool).unwrap();
    assert_eq!(buf.fill(&mut pool, &[1, 2]), 2);
    let before = buf.slice(&mut pool);
    buf.write_reserved(&mut pool, 0, 7);
    buf.write_reserved(&mut pool, 1, 8);
    // Nothing is readable until the bytes are committed.
    assert_eq!(buf.to_vec(&pool), vec![1, 2]);
    assert_eq!(before.to_vec(&pool), vec![1, 2]);
    buf.advance(&mut pool, 2);
    assert_eq!(buf.position(&pool), 4);
    assert_eq!(buf.to_vec(&pool), vec![1, 2, 7, 8]);
    // The view taken earlier still ends at its creation position.
    assert_eq!(before.to_vec(&pool), vec![1, 2]);
}
