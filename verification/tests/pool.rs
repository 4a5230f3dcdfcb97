//! Buffers for copies.
use qvole::pool::{get_buffer, put_buffer, BufferPool, BUFFER_POOL_SIZE};

#[test]
fn returns_correct_size() {
    let mut pool = BufferPool::new();
    let mut buf = get_buffer(&mut pool);
    assert_eq!(buf.len(), 32 * 1024);
    put_buffer(&mut pool, &mut buf);
}

#[test]
fn capacity() {
    let mut pool = BufferPool::new();
    let mut buf = get_buffer(&mut pool);
    assert!(buf.capacity() >= 32 * 1024);
    put_buffer(&mut pool, &mut buf);
}

#[test]
fn put_zeros_contents() {
    let mut pool = BufferPool::new();
    let mut buf = get_buffer(&mut pool);
    buf.fill(0xFF);
    put_buffer(&mut pool, &mut buf);

    let mut buf2 = get_buffer(&mut pool);
    assert!(
        buf2.iter().all(|&b| b == 0),
        "PutBuffer did not zero the buffer contents"
    );
    put_buffer(&mut pool, &mut buf2);
}

#[test]
fn returns_to_pool() {
    let mut pool = BufferPool::new();
    let mut buf = get_buffer(&mut pool);
    put_buffer(&mut pool, &mut buf);
    // Should be able to get another buffer without panic.
    let mut buf2 = get_buffer(&mut pool);
    put_buffer(&mut pool, &mut buf2);
}

#[test]
fn put_buffer_empty() {
    let mut pool = BufferPool::new();
    let mut empty: Vec<u8> = Vec::new();
    put_buffer(&mut pool, &mut empty);
    let mut buf = get_buffer(&mut pool);
    assert_eq!(
        buf.len(),
        32 * 1024,
        "empty vec must not be served from pool"
    );
    put_buffer(&mut pool, &mut buf);
}

#[test]
fn buffers_are_reused() {
    let mut pool = BufferPool::new();
    let mut a = get_buffer(&mut pool);
    put_buffer(&mut pool, &mut a);
    assert!(a.is_empty());
    assert_eq!(pool.free.len(), 1);
    let b = get_buffer(&mut pool);
    assert_eq!(b.len(), BUFFER_POOL_SIZE);
    assert!(pool.free.is_empty());
}

#[test]
fn odd_sized_buffers_are_only_cleaned() {
    let mut pool = BufferPool::new();
    let mut a = vec![7u8; 100];
    put_buffer(&mut pool, &mut a);
    assert_eq!(a, vec![0u8; 100]);
    assert!(pool.free.is_empty());
}
