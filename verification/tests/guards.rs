use hybrid_cache::miss_guard::{OriginFillConfig, OriginFillLimiter, OriginFillRejectReason};
use hybrid_cache::pending_write::{
    allocation_bytes, PendingRegisterError, PendingWaitOutcome, PendingWriteDirectory, PENDING_WRITE_SHARD_OVERHEAD_BYTES,
};

#[test]
fn limiter_enforces_rate_and_concurrency_without_leaking_permits() {
    let mut limiter = OriginFillLimiter::try_new(OriginFillConfig::new(2, 1), 0).unwrap();
    let first = limiter.try_acquire(0).unwrap();
    assert!(matches!(
        limiter.try_acquire(0),
        Err(OriginFillRejectReason::ConcurrencyLimited)
    ));
    limiter.release(first);
    let second = limiter.try_acquire(0).unwrap();
    limiter.release(second);
    assert!(matches!(limiter.try_acquire(0), Err(OriginFillRejectReason::RateLimited)));
    let stats = limiter.snapshot();
    assert_eq!(stats.admitted, 2);
    assert_eq!(stats.concurrency_limited, 1);
    assert_eq!(stats.rate_limited, 1);
    assert_eq!(stats.in_flight, 0);
    assert_eq!(stats.in_flight_peak, 1);
}

#[test]
fn fill_tokens_come_back_with_time() {
    let mut limiter = OriginFillLimiter::try_new(OriginFillConfig::new(2, 9), 0).unwrap();
    limiter.try_acquire(0).unwrap();
    limiter.try_acquire(0).unwrap();
    assert!(limiter.try_acquire(499_999_999).is_err());
    assert!(limiter.try_acquire(500_000_000).is_ok());
    assert!(limiter.try_acquire(500_000_001).is_err());
    assert_eq!(limiter.snapshot().attempts, 5);
}

#[test]
fn a_limiter_needs_a_rate_and_room() {
    assert_eq!(
        OriginFillLimiter::try_new(OriginFillConfig::new(0, 1), 0).unwrap_err(),
        "origin fills_per_second must be greater than zero"
    );
    assert_eq!(
        OriginFillLimiter::try_new(OriginFillConfig::new(1, 0), 0).unwrap_err(),
        "origin max_in_flight must be greater than zero"
    );
    assert_eq!(
        OriginFillRejectReason::Disabled.message(),
        "origin fill protection is not configured"
    );
}

#[test]
fn exact_keys_sharing_a_hash_have_independent_fences() {
    let mut directory = PendingWriteDirectory::try_new(4).unwrap();
    let first = directory.try_register(7, b"first", 11, 100).unwrap();
    let second = directory.try_register(7, b"second", 11, 200).unwrap();

    assert!(directory.find(7, b"first", 11).is_some());
    assert!(directory.find(7, b"second", 11).is_some());
    assert!(directory.find(8, b"first", 11).is_none());
    assert_eq!(directory.snapshot().entries, 2);

    directory.finish(&first);
    assert!(directory.find(7, b"first", 11).is_none());
    assert!(directory.find(7, b"second", 11).is_some());
    directory.finish(&second);
    assert_eq!(directory.snapshot().entries, 0);
    assert_eq!(directory.snapshot().bytes, 0);
}

#[test]
fn duplicate_exact_key_is_rejected_until_owner_finishes() {
    let mut directory = PendingWriteDirectory::try_new(2).unwrap();
    let slot = directory.try_register(3, b"key", 5, 64).unwrap();
    assert!(matches!(
        directory.try_register(3, b"key", 5, 64),
        Err(PendingRegisterError::AlreadyPending)
    ));
    directory.finish(&slot);
    assert!(directory.try_register(3, b"key", 5, 64).is_ok());
}

#[test]
fn a_failed_write_stays_fenced() {
    let mut directory = PendingWriteDirectory::try_new(2).unwrap();
    let slot = directory.try_register(3, b"key", 5, 64).unwrap();
    assert_eq!(directory.outcome(&slot), None);
    directory.fail(&slot);
    assert!(directory.failed(&slot));
    assert_eq!(directory.outcome(&slot), Some(PendingWaitOutcome::Failed));
    directory.finish(&slot);
    assert!(directory.find(3, b"key", 5).is_some());
    assert_eq!(directory.snapshot().bytes, 64);
}

#[test]
fn a_finished_owner_does_not_end_its_successor() {
    let mut directory = PendingWriteDirectory::try_new(1).unwrap();
    let first = directory.try_register(3, b"key", 5, 64).unwrap();
    directory.finish(&first);
    let second = directory.try_register(3, b"key", 5, 32).unwrap();
    directory.finish(&first);
    assert_eq!(directory.outcome(&first), Some(PendingWaitOutcome::Finished));
    assert_eq!(directory.outcome(&second), None);
    let snapshot = directory.snapshot();
    assert_eq!((snapshot.entries, snapshot.entries_peak), (1, 1));
    assert_eq!((snapshot.bytes, snapshot.bytes_peak), (32, 64));
}

#[test]
fn the_number_of_shards_is_a_power_of_two() {
    assert!(PendingWriteDirectory::try_new(0).is_err());
    assert!(PendingWriteDirectory::try_new(3).is_err());
    assert_eq!(allocation_bytes(4), Some(4 * PENDING_WRITE_SHARD_OVERHEAD_BYTES));
    assert_eq!(allocation_bytes(usize::MAX), None);
}

#[test]
fn a_second_key_joins_the_chain_of_its_hash() {
    let mut directory = PendingWriteDirectory::try_new(4).unwrap();
    directory.try_register(0, b"first", 9, 10).unwrap();
    directory.try_register(0, b"second", 9, 20).unwrap();
    let snapshot = directory.snapshot();
    assert_eq!((snapshot.entries, snapshot.bytes), (2, 30));
}
