use mbuf::MBuf;
use mbuf::MBufPool;

#[test]
fn test_mbuf_pool() {
    let mut pool = MBufPool::new();
    pool.initialize();

    let buf1 = pool.take(1024).unwrap();
    let buf2 = pool.take(2048).unwrap();
    let buf3 = pool.take(4096).unwrap();
    let buf4 = pool.take(8192).unwrap();
    let buf5 = pool.take(16384).unwrap();

    pool.give(buf1);
    pool.give(buf2);

    let mut buf6 = pool.take(1023).unwrap();
    assert_eq!(buf6.data(), b"");
    buf6.append(b"Hello, world!").unwrap();
    assert_eq!(buf6.data(), b"Hello, world!");

    drop(buf3);
    drop(buf4);
    drop(buf5);
}

#[test]
fn take_before_initialize_returns_nothing() {
    let mut pool = MBufPool::new();
    assert!(pool.take(100).is_none());
    assert!(pool.take(1024).is_none());
}

#[test]
fn take_resolves_to_strictly_larger_class() {
    let mut pool = MBufPool::new();
    pool.initialize();
    assert_eq!(pool.take(0).unwrap().capacity(), 1024);
    assert_eq!(pool.take(1023).unwrap().capacity(), 1024);
    assert_eq!(pool.take(1024).unwrap().capacity(), 2048);
    assert_eq!(pool.take(2047).unwrap().capacity(), 2048);
    assert_eq!(pool.take(2048).unwrap().capacity(), 4096);
    assert_eq!(pool.take(4096).unwrap().capacity(), 8192);
    assert_eq!(pool.take(8192).unwrap().capacity(), 16384);
    assert_eq!(pool.take(16384).unwrap().capacity(), 32768);
    assert_eq!(pool.take(32767).unwrap().capacity(), 32768);
}

#[test]
fn take_of_largest_class_or_more_returns_nothing() {
    let mut pool = MBufPool::new();
    pool.initialize();
    assert!(pool.take(32768).is_none());
    assert!(pool.take(32769).is_none());
    assert!(pool.take(1_000_000).is_none());
}

#[test]
fn give_take_round_trip_returns_same_buffer() {
    let mut pool = MBufPool::new();
    pool.initialize();
    let mut b = MBuf::new(2048);
    b.append(b"marker").unwrap();
    pool.give(b);
    // LIFO: the buffer just given back comes out first, capacity unchanged
    // and contents untouched (the pool does not clear on return).
    let back = pool.take(1024).unwrap();
    assert_eq!(back.capacity(), 2048);
    assert_eq!(back.data(), b"marker");
}

#[test]
fn give_of_non_ladder_capacity_is_not_pooled() {
    let mut pool = MBufPool::new();
    pool.initialize();
    let mut b = MBuf::new(3000);
    b.append(b"marker").unwrap();
    pool.give(b);
    // 3000 matches no class, so the buffer was released: the next take of
    // the class it would fall near hands out a fresh, empty warm-up buffer.
    let other = pool.take(2048).unwrap();
    assert_eq!(other.capacity(), 4096);
    assert_eq!(other.data(), b"");
}

#[test]
fn pool_miss_falls_back_to_fresh_allocation() {
    let mut pool = MBufPool::new();
    pool.initialize();
    // The largest class is warmed up with two buffers; a third take of the
    // same class must still succeed with a fresh allocation.
    let a = pool.take(20000).unwrap();
    let b = pool.take(20000).unwrap();
    let c = pool.take(20000).unwrap();
    assert_eq!(a.capacity(), 32768);
    assert_eq!(b.capacity(), 32768);
    assert_eq!(c.capacity(), 32768);
    assert_eq!(c.data(), b"");
}

#[test]
fn initialize_fills_full_quota_per_class() {
    let mut pool = MBufPool::new();
    pool.initialize();
    // The 8192 class is warmed up with ten buffers: ten takes in a row all
    // find an idle buffer, and each is empty and of the class capacity.
    for _ in 0..10 {
        let b = pool.take(5000).unwrap();
        assert_eq!(b.capacity(), 8192);
        assert_eq!(b.length(), 0);
    }
}

#[test]
fn grown_buffer_returns_to_its_new_class() {
    let mut pool = MBufPool::new();
    pool.initialize();
    let mut b = pool.take(1000).unwrap();
    assert_eq!(b.capacity(), 1024);
    let big = vec![7u8; 1024];
    b.append(&big).unwrap();
    // 0 + 1024 fits exactly, no growth yet; one more byte forces growth.
    assert_eq!(b.capacity(), 1024);
    b.append(b"!").unwrap();
    assert_eq!(b.capacity(), 1025);
    // 1025 is no ladder class, so the buffer is dropped on give.
    pool.give(b);
    let next = pool.take(1000).unwrap();
    assert_eq!(next.capacity(), 1024);
    assert_eq!(next.data(), b"");
}
