use transcribe_chunks::pool::WorkerPool;

#[test]
fn fresh_pool_is_idle() {
    let pool = WorkerPool::new(3);
    assert_eq!(pool.capacity(), 3);
    assert_eq!(pool.in_flight(), 0);
    for w in 0..4 {
        assert!(!pool.is_busy(w));
    }
}

#[test]
fn one_more_acquire_than_workers_has_to_wait() {
    let mut pool = WorkerPool::new(3);
    assert_eq!(pool.acquire(), Some(0));
    assert_eq!(pool.acquire(), Some(1));
    assert_eq!(pool.acquire(), Some(2));
    assert_eq!(pool.in_flight(), 3);
    assert_eq!(pool.acquire(), None);
    assert_eq!(pool.acquire(), None);
    assert_eq!(pool.in_flight(), 3);
    assert!(pool.release(1));
    assert_eq!(pool.in_flight(), 2);
    assert_eq!(pool.acquire(), Some(1));
    assert_eq!(pool.acquire(), None);
}

#[test]
fn released_worker_is_available_at_once() {
    let mut pool = WorkerPool::new(1);
    let worker = pool.acquire();
    assert_eq!(worker, Some(0));
    // Whatever became of the job, the worker goes back.
    assert!(pool.release(0));
    assert_eq!(pool.acquire(), Some(0));
}

#[test]
fn worker_is_never_handed_out_twice() {
    let mut pool = WorkerPool::new(8);
    let mut out: Vec<usize> = Vec::new();
    while let Some(w) = pool.acquire() {
        assert!(!out.contains(&w));
        assert!(pool.is_busy(w));
        out.push(w);
        assert_eq!(pool.in_flight(), out.len());
    }
    assert_eq!(out.len(), 8);
}

#[test]
fn acquire_hands_out_the_lowest_idle_worker() {
    let mut pool = WorkerPool::new(4);
    for _ in 0..4 {
        pool.acquire();
    }
    assert!(pool.release(2));
    assert!(pool.release(0));
    assert!(pool.release(3));
    assert_eq!(pool.acquire(), Some(0));
    assert_eq!(pool.acquire(), Some(2));
    assert_eq!(pool.acquire(), Some(3));
}

#[test]
fn release_of_what_is_not_out_changes_nothing() {
    let mut pool = WorkerPool::new(2);
    assert!(!pool.release(0));
    assert!(!pool.release(2));
    assert_eq!(pool.acquire(), Some(0));
    assert!(pool.release(0));
    assert!(!pool.release(0));
    assert_eq!(pool.in_flight(), 0);
}

#[test]
fn empty_pool_never_hands_out() {
    let mut pool = WorkerPool::new(0);
    assert_eq!(pool.capacity(), 0);
    assert_eq!(pool.acquire(), None);
    assert!(!pool.release(0));
}
