use bufferpool::{BufferPool, BufferPoolBuilder, BufferPoolReference, PoolError};

fn fill(pool: &mut BufferPool<f32>, space: &BufferPoolReference<f32>, value: f32) {
    for offset in 0..pool.buffer_size() {
        pool.write(space, offset, value);
    }
}

#[test]
fn it_should_add_capacity() {
    let mut pool: BufferPool<f32> = BufferPool::default();

    assert_eq!(pool.capacity(), 0);

    pool.reserve(1);

    assert_eq!(pool.capacity(), 1);

    pool.reserve(1);

    assert_eq!(pool.capacity(), 2);
}

#[test]
fn it_should_get_space_if_capacity() {
    let mut pool: BufferPool<f32> = BufferPool::default();

    assert_eq!(pool.capacity(), 0);

    assert!(pool.get_space().is_err());

    pool.resize(1);

    let index = pool.get_space().unwrap();

    assert!(pool.get_space().is_err());
    assert_eq!(index.index(), 0);
}

#[test]
fn it_should_work_with_interesting_sizes() {
    let sizes: Vec<usize> = vec![12, 100, 1001, 1024, 2048, 4096, 1];

    for buffer_size in sizes.iter() {
        for capacity in sizes.iter() {
            let mut pool: BufferPool<f32> = BufferPoolBuilder::new()
                .with_buffer_size(*buffer_size)
                .with_capacity(*capacity)
                .build();

            assert_eq!(pool.capacity(), *capacity);
            assert_eq!(pool.get_space().is_err(), false);
        }
    }
}

#[test]
fn it_should_return_space_when_deallocated() {
    let mut pool: BufferPool<f32> = BufferPool::default();

    assert_eq!(pool.capacity(), 0);
    pool.reserve(1);

    {
        let index = pool.get_space().unwrap();
        assert!(pool.get_space().is_err());
        assert_eq!(index.index(), 0);
        pool.release(index);
    }

    assert!(pool.get_space().is_ok());
}

#[test]
fn it_should_update_internal_buffer() {
    let buffer_size = 10;
    let mut pool: BufferPool<f32> = BufferPool::default();
    pool.change_buffer_size(buffer_size);
    pool.reserve(10);

    let a = pool.get_space().unwrap();
    let b = pool.get_space().unwrap();

    fill(&mut pool, &a, 1.);
    fill(&mut pool, &b, 2.);

    assert_eq!(
        pool.storage()[0..(buffer_size)],
        vec![1. as f32; buffer_size][..]
    );

    assert_eq!(*pool.read(&a), vec![1. as f32; buffer_size][..]);

    assert_eq!(
        pool.storage()[(buffer_size)..(2 * buffer_size)],
        vec![2. as f32; buffer_size][..]
    );

    assert_eq!(*pool.read(&b), vec![2. as f32; buffer_size][..]);
}

#[test]
fn it_should_not_default_space_when_deallocated() {
    let buffer_size = 10;
    let mut pool: BufferPool<f32> = BufferPool::default();
    pool.change_buffer_size(buffer_size);
    pool.reserve(10);

    {
        let a = pool.get_space().unwrap();

        fill(&mut pool, &a, 1.);

        assert_eq!(
            pool.storage()[0..(buffer_size)],
            vec![1. as f32; buffer_size][..]
        );

        assert_eq!(*pool.read(&a), vec![1. as f32; buffer_size][..]);
        pool.release(a);
    }

    assert_eq!(
        pool.storage()[0..(buffer_size)],
        vec![1. as f32; buffer_size][..]
    );
}

#[test]
fn it_should_clear_space_if_explicitly_requested() {
    let buffer_size = 10;
    let mut pool: BufferPool<f32> = BufferPool::default();
    pool.change_buffer_size(buffer_size);
    pool.reserve(10);

    {
        let a = pool.get_space().unwrap();

        fill(&mut pool, &a, 1.);

        assert_eq!(
            pool.storage()[0..(buffer_size)],
            vec![1. as f32; buffer_size][..]
        );

        assert_eq!(*pool.read(&a), vec![1. as f32; buffer_size][..]);
        pool.release(a);
    }

    let space = pool.get_cleared_space().unwrap();

    assert_eq!(
        pool.storage()[0..(buffer_size)],
        vec![0. as f32; buffer_size][..]
    );

    assert_eq!(*pool.read(&space), vec![0. as f32; buffer_size][..]);
}

#[test]
fn builder_starts_with_default_size_and_no_slot() {
    let pool: BufferPool<u8> = BufferPool::builder().build();
    assert_eq!(pool.buffer_size(), 1024);
    assert_eq!(pool.capacity(), 0);
    assert_eq!(pool.len(), 0);
    assert!(pool.is_empty());
    assert!(pool.storage().is_empty());
    assert!(!pool.is_borrowed());
}

#[test]
fn new_pool_is_default_filled_and_idle() {
    let pool: BufferPool<u32> = BufferPool::new(3, 4);
    assert_eq!(pool.buffer_size(), 3);
    assert_eq!(pool.capacity(), 4);
    assert_eq!(pool.len(), 4);
    assert!(!pool.is_empty());
    assert_eq!(pool.storage(), &[0u32; 12][..]);
    assert!(!pool.is_borrowed());
    for index in 0..6 {
        assert!(!pool.is_slot_borrowed(index));
    }
}

#[test]
fn zero_buffer_size_lends_nothing() {
    let mut pool: BufferPool<u8> = BufferPool::new(0, 5);
    assert_eq!(pool.capacity(), 0);
    assert!(pool.is_empty());
    assert_eq!(pool.get_space().err(), Some(PoolError::PoolExhausted));
    pool.resize(3);
    assert_eq!(pool.capacity(), 0);
    assert_eq!(pool.get_cleared_space().err(), Some(PoolError::PoolExhausted));
    pool.change_buffer_size(2);
    assert_eq!(pool.capacity(), 0);
    pool.resize(3);
    assert_eq!(pool.capacity(), 3);
    assert_eq!(pool.storage().len(), 6);
    assert_eq!(pool.get_space().unwrap().index(), 0);
}

#[test]
fn zero_capacity_lends_nothing_until_resized() {
    let mut pool: BufferPool<u8> = BufferPool::new(4, 0);
    assert_eq!(pool.get_space().err(), Some(PoolError::PoolExhausted));
    assert_eq!(pool.get_cleared_space().err(), Some(PoolError::PoolExhausted));
    assert_eq!(pool.try_resize(1), Ok(()));
    let space = pool.get_space().unwrap();
    assert_eq!(space.index(), 0);
    assert_eq!(pool.get_space().err(), Some(PoolError::PoolExhausted));
}

#[test]
fn slots_are_lent_lowest_first() {
    let mut pool: BufferPool<u8> = BufferPool::new(2, 70);
    let mut spaces = Vec::new();
    for expected in 0..70 {
        let space = pool.get_space().unwrap();
        assert_eq!(space.index(), expected);
        assert!(pool.is_slot_borrowed(expected));
        spaces.push(space);
    }
    assert_eq!(pool.get_space().err(), Some(PoolError::PoolExhausted));
    let tail = spaces.split_off(41);
    let released = spaces.pop().unwrap();
    assert_eq!(released.index(), 40);
    pool.release(released);
    assert!(!pool.is_slot_borrowed(40));
    let first = spaces.remove(7);
    pool.release(first);
    assert_eq!(pool.get_space().unwrap().index(), 7);
    assert_eq!(pool.get_space().unwrap().index(), 40);
    assert_eq!(pool.get_space().err(), Some(PoolError::PoolExhausted));
    assert_eq!(tail.len(), 29);
}

#[test]
fn release_then_acquire_gives_the_same_slot() {
    let mut pool: BufferPool<i64> = BufferPool::new(8, 3);
    let a = pool.get_space().unwrap();
    let b = pool.get_space().unwrap();
    assert_eq!((a.index(), b.index()), (0, 1));
    pool.release(a);
    let again = pool.get_space().unwrap();
    assert_eq!(again.index(), 0);
    pool.release(b);
    assert_eq!(pool.get_space().unwrap().index(), 1);
}

#[test]
fn is_borrowed_sees_a_loan_behind_a_free_slot() {
    let mut pool: BufferPool<u8> = BufferPool::new(1, 40);
    assert!(!pool.is_borrowed());
    let mut spaces = Vec::new();
    for _ in 0..35 {
        spaces.push(pool.get_space().unwrap());
    }
    assert!(pool.is_borrowed());
    let last = spaces.pop().unwrap();
    assert_eq!(last.index(), 34);
    for space in spaces {
        pool.release(space);
    }
    assert!(pool.is_borrowed());
    assert!(pool.is_slot_borrowed(34));
    assert!(!pool.is_slot_borrowed(0));
    pool.release(last);
    assert!(!pool.is_borrowed());
}

#[test]
fn resizing_is_refused_while_a_slot_is_on_loan() {
    let mut pool: BufferPool<u16> = BufferPool::new(4, 2);
    let space = pool.get_space().unwrap();
    pool.write(&space, 1, 7);
    let before: Vec<u16> = pool.storage().to_vec();

    assert_eq!(pool.try_resize(5), Err(PoolError::PoolBusy));
    assert_eq!(pool.try_resize(0), Err(PoolError::PoolBusy));
    assert_eq!(pool.try_reserve(1), Err(PoolError::PoolBusy));
    assert_eq!(pool.try_change_buffer_size(2), Err(PoolError::PoolBusy));
    assert_eq!(pool.try_change_buffer_size(0), Err(PoolError::PoolBusy));

    assert_eq!(pool.buffer_size(), 4);
    assert_eq!(pool.len(), 2);
    assert_eq!(pool.capacity(), 2);
    assert_eq!(pool.storage(), &before[..]);
    assert!(pool.is_slot_borrowed(0));

    pool.release(space);
    assert_eq!(pool.try_reserve(1), Ok(()));
    assert_eq!(pool.len(), 3);
    assert_eq!(pool.try_change_buffer_size(2), Ok(()));
    assert_eq!(pool.buffer_size(), 2);
    assert_eq!(pool.len(), 6);
}

#[test]
fn resize_keeps_what_remains_and_defaults_what_is_new() {
    let mut pool: BufferPool<u8> = BufferPool::new(2, 3);
    let space = pool.get_space().unwrap();
    pool.write(&space, 0, 9);
    pool.write(&space, 1, 8);
    pool.release(space);
    assert_eq!(pool.storage(), &[9, 8, 0, 0, 0, 0][..]);

    pool.resize(5);
    assert_eq!(pool.capacity(), 5);
    assert_eq!(pool.storage(), &[9, 8, 0, 0, 0, 0, 0, 0, 0, 0][..]);

    pool.resize(1);
    assert_eq!(pool.capacity(), 1);
    assert_eq!(pool.storage(), &[9, 8][..]);

    pool.resize(2);
    assert_eq!(pool.storage(), &[9, 8, 0, 0][..]);
}

#[test]
fn shrunk_pool_lends_no_slot_beyond_its_end() {
    let mut pool: BufferPool<u8> = BufferPool::new(1, 64);
    pool.resize(32);
    assert_eq!(pool.capacity(), 32);
    for expected in 0..32 {
        assert_eq!(pool.get_space().unwrap().index(), expected);
    }
    assert_eq!(pool.get_space().err(), Some(PoolError::PoolExhausted));

    let mut none: BufferPool<u8> = BufferPool::new(1, 10);
    none.resize(0);
    assert_eq!(none.get_space().err(), Some(PoolError::PoolExhausted));
}

#[test]
fn change_buffer_size_cuts_the_storage_anew() {
    let mut pool: BufferPool<u8> = BufferPool::new(4, 3);
    let space = pool.get_space().unwrap();
    for offset in 0..4 {
        pool.write(&space, offset, 1 + offset as u8);
    }
    pool.release(space);

    pool.change_buffer_size(5);
    assert_eq!(pool.buffer_size(), 5);
    assert_eq!(pool.len(), 2);
    assert_eq!(pool.storage(), &[1, 2, 3, 4, 0, 0, 0, 0, 0, 0][..]);

    pool.change_buffer_size(1);
    assert_eq!(pool.len(), 10);
    for expected in 0..10 {
        assert_eq!(pool.get_space().unwrap().index(), expected);
    }
    assert!(pool.get_space().is_err());
}

#[test]
fn change_buffer_size_to_zero_empties_the_pool() {
    let mut pool: BufferPool<u8> = BufferPool::new(4, 3);
    assert_eq!(pool.try_change_buffer_size(0), Ok(()));
    assert_eq!(pool.buffer_size(), 0);
    assert_eq!(pool.len(), 0);
    assert!(pool.storage().is_empty());
    assert_eq!(pool.get_space().err(), Some(PoolError::PoolExhausted));
}

#[test]
fn cleared_space_resets_its_window_only() {
    let mut pool: BufferPool<u8> = BufferPool::new(3, 3);
    let a = pool.get_space().unwrap();
    let b = pool.get_space().unwrap();
    for offset in 0..3 {
        pool.write(&a, offset, 5);
        pool.write(&b, offset, 6);
    }
    pool.release(a);
    assert_eq!(pool.storage(), &[5, 5, 5, 6, 6, 6, 0, 0, 0][..]);

    let again = pool.get_cleared_space().unwrap();
    assert_eq!(again.index(), 0);
    assert_eq!(pool.read(&again), &[0, 0, 0][..]);
    assert_eq!(pool.read(&b), &[6, 6, 6][..]);
    assert_eq!(pool.storage(), &[0, 0, 0, 6, 6, 6, 0, 0, 0][..]);
}

#[test]
fn clear_resets_the_storage_and_keeps_the_loans() {
    let mut pool: BufferPool<u8> = BufferPool::new(2, 2);
    let a = pool.get_space().unwrap();
    pool.write(&a, 0, 3);
    pool.write(&a, 1, 4);
    assert_eq!(pool.storage(), &[3, 4, 0, 0][..]);
    pool.clear();
    assert_eq!(pool.storage(), &[0, 0, 0, 0][..]);
    assert!(pool.is_borrowed());
    assert!(pool.is_slot_borrowed(0));
    assert_eq!(pool.get_space().unwrap().index(), 1);
}

#[test]
fn write_changes_one_element() {
    let mut pool: BufferPool<u8> = BufferPool::new(3, 2);
    let a = pool.get_space().unwrap();
    let b = pool.get_space().unwrap();
    pool.write(&b, 2, 7);
    assert_eq!(pool.storage(), &[0, 0, 0, 0, 0, 7][..]);
    assert_eq!(pool.read(&b), &[0, 0, 7][..]);
    assert_eq!(pool.read(&a), &[0, 0, 0][..]);
    pool.write(&a, 0, 1);
    assert_eq!(pool.storage(), &[1, 0, 0, 0, 0, 7][..]);
}

#[test]
fn windows_of_two_loans_do_not_overlap() {
    let mut pool: BufferPool<f32> = BufferPoolBuilder::new()
        .with_buffer_size(10)
        .with_capacity(10)
        .build();
    let a = pool.get_space().unwrap();
    let b = pool.get_space().unwrap();
    assert_ne!(a.index(), b.index());
    fill(&mut pool, &a, 1.0);
    fill(&mut pool, &b, 2.0);
    assert_eq!(pool.storage()[0..10], [1.0f32; 10][..]);
    assert_eq!(pool.storage()[10..20], [2.0f32; 10][..]);
    assert_eq!(pool.read(&a), &[1.0f32; 10][..]);
    assert_eq!(pool.read(&b), &[2.0f32; 10][..]);
    assert_eq!(pool.storage()[20..100], [0.0f32; 80][..]);
}

#[test]
fn single_slot_pool_is_exhausted_until_released() {
    let mut pool: BufferPool<u8> = BufferPool::new(16, 1);
    let first = pool.get_space().unwrap();
    assert_eq!(pool.get_space().err(), Some(PoolError::PoolExhausted));
    pool.release(first);
    assert_eq!(pool.get_space().unwrap().index(), 0);
}

#[test]
fn reserve_adds_to_the_capacity() {
    let mut pool: BufferPool<u8> = BufferPool::new(7, 5);
    pool.reserve(0);
    assert_eq!(pool.capacity(), 5);
    pool.reserve(33);
    assert_eq!(pool.capacity(), 38);
    assert_eq!(pool.storage().len(), 38 * 7);
    for expected in 0..38 {
        assert_eq!(pool.get_space().unwrap().index(), expected);
    }
    assert!(pool.get_space().is_err());
}
