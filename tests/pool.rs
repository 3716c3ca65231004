use blobstore::sync_pool::{PoolError, SyncPool};

#[test]
fn pool_hands_out_and_takes_back() {
    let pool = SyncPool::new(vec![10u32]);
    {
        let g = pool.lock().unwrap();
        assert_eq!(*g.get(), 10);
    }
    let g = pool.lock().unwrap();
    assert_eq!(*g.get(), 10);
}

#[test]
fn pool_with_two_values() {
    let pool = SyncPool::new(vec![1u32, 2u32]);
    let a = pool.lock().unwrap();
    let b = pool.lock().unwrap();
    let mut got = vec![*a.get(), *b.get()];
    got.sort();
    assert_eq!(got, vec![1, 2]);
}

#[test]
fn pool_value_can_be_changed() {
    let pool = SyncPool::new(vec![String::from("a")]);
    {
        let mut g = pool.lock().unwrap();
        g.get_mut().push('b');
    }
    let g = pool.lock().unwrap();
    assert_eq!(g.get(), "ab");
}

#[test]
fn take_wraps_or_reports_exhausted() {
    let pool = SyncPool::new(Vec::<u32>::new());
    let g = pool.take(Some(5)).unwrap();
    assert_eq!(*g.get(), 5);
    assert!(matches!(pool.take(None), Err(PoolError::Exhausted)));
}
