use libbacnet::stack::invoke_id::InvokeIdPool;


#[test]
fn test_allocate_sequential() {
    let mut pool = InvokeIdPool::new();
    assert_eq!(pool.allocate(), Some(0));
    assert_eq!(pool.allocate(), Some(1));
    assert_eq!(pool.allocate(), Some(2));
}

#[test]
fn test_free_and_reuse() {
    let mut pool = InvokeIdPool::new();
    // Allocate all 256, then free a few and verify they can be reallocated.
    let ids: Vec<u8> = (0..256).filter_map(|_| pool.allocate()).collect();
    assert_eq!(ids.len(), 256);
    assert_eq!(pool.allocate(), None);

    pool.free(42);
    pool.free(100);
    let a = pool.allocate().unwrap();
    let b = pool.allocate().unwrap();
    let mut got = [a, b];
    got.sort_unstable();
    assert_eq!(got, [42, 100]);
    assert_eq!(pool.allocate(), None);
}

#[test]
fn test_exhaust_returns_none() {
    let mut pool = InvokeIdPool::new();
    for _ in 0..256 {
        assert!(pool.allocate().is_some());
    }
    assert_eq!(pool.allocate(), None);
}

#[test]
fn test_free_allows_new_allocation() {
    let mut pool = InvokeIdPool::new();
    for _ in 0..256 {
        pool.allocate().unwrap();
    }
    pool.free(42);
    assert_eq!(pool.allocate(), Some(42));
    assert_eq!(pool.allocate(), None);
}
