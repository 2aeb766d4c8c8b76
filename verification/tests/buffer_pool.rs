//! The buffer pool.

use phantom_transport::buffer_pool::{BufferPool, LocalPool, BATCH_SIZE, MAX_LOCAL_BUFFERS};

#[test]
fn test_buffer_pool() {
    let mut pool = BufferPool::new(1024, 4, 16);
    let mut local = LocalPool::new();

    let mut buf1 = pool.acquire(&mut local);
    buf1.as_mut().extend_from_slice(b"hello");
    assert_eq!(buf1.len(), 5);
    assert_eq!(buf1.as_ref(), b"hello");

    let buf2 = pool.acquire(&mut local);
    assert_eq!(buf2.len(), 0);
    assert!(buf2.is_empty());

    pool.return_buffer(&mut local, buf1);
    pool.return_buffer(&mut local, buf2);

    assert_eq!(local.len(), 4);
}

#[test]
fn test_thread_local_flushing() {
    let mut pool = BufferPool::new(1024, 0, 100);
    let mut local = LocalPool::new();

    let mut bufs = Vec::new();
    for _ in 0..70 {
        bufs.push(pool.acquire(&mut local));
    }
    for b in bufs {
        pool.return_buffer(&mut local, b);
    }
    assert!(local.len() <= MAX_LOCAL_BUFFERS);
    assert!(pool.stats().pool_size > 0);
    assert_eq!(pool.stats().pool_size + local.len(), 70);
}

#[test]
fn hits_and_allocations_are_counted() {
    let mut pool = BufferPool::new(8, 40, 40);
    let mut local = LocalPool::new();
    assert_eq!(pool.stats().pool_size, 40);
    assert_eq!(pool.stats().hit_rate().numerator, 0);
    let a = pool.acquire(&mut local);
    assert_eq!(pool.stats().pool_size, 40 - BATCH_SIZE);
    assert_eq!(local.len(), BATCH_SIZE - 1);
    pool.return_buffer(&mut local, a);
    let rate = pool.stats().hit_rate();
    assert_eq!((rate.numerator, rate.denominator), (1, 41));
}

#[test]
fn full_queue_drops_buffers() {
    let mut pool = BufferPool::new(8, 0, 10);
    let mut local = LocalPool::new();
    let bufs: Vec<_> = (0..65).map(|_| pool.acquire(&mut local)).collect();
    for b in bufs {
        pool.return_buffer(&mut local, b);
    }
    assert_eq!(pool.stats().pool_size, 10);
    assert_eq!(local.len(), 33);
}
