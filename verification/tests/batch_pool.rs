use ordinum::db::batch::BatchRuntimeState;
use ordinum::db::batch_object::{
    BatchAllocation, BatchObject, BatchPtr, OwnedBatchFactory, OwnedBatchPtr, SealedBatch,
    UnCommitted,
};
use ordinum::db::batch_pool::{
    retention, BatchPool, BatchPoolImpl, BatchPoolStats, ThreadBatchCache,
};
use ordinum::db::write_pipeline::WritePipeline;
use ordinum::db::write_pipeline::WriterEnv;
use ordinum::db::batch_object::BatchRef;
use ordinum::thread_local_storage::registry::ThreadRegistry;
use ordinum::thread_local_storage::thread_local_ptr::ThreadLocalObject;
use ordinum::version::SeqNumState;
use ordinum::wal::{SyncSem, WalSyncResultState};
use ordinum::{Error, Result};
use std::sync::Arc;

type Uncommitted = BatchObject<UnCommitted, OwnedBatchPtr>;
type Cache<const CAP: usize, const TARGET: usize> = ThreadBatchCache<CAP, TARGET, OwnedBatchPtr>;
type Pool<const S: usize, const M: usize, const C: usize, const T: usize> =
    BatchPoolImpl<S, M, C, T, OwnedBatchFactory>;

fn entry(name: u64) -> OwnedBatchPtr {
    Uncommitted::new(BatchPtr(name)).into_inner()
}

struct EnvStub;

impl WriterEnv for EnvStub {
    fn apply_commit<'env>(&self, _batch: &'env BatchRef<'env>) -> Result<()> {
        Ok(())
    }
    fn prepare_commit<'env>(&self, _batch: &'env BatchRef<'env>) -> Result<()> {
        Ok(())
    }
}

#[test]
fn empty_try_acquire() {
    let pool = BatchPool::new();
    let mut registry = ThreadRegistry::new();
    let thread = registry.add_thread();
    registry.ensure_registered(thread);

    registry.ctxs[thread].db_instance(0).thread_batch_cache_mut(|cache| {
        let result = pool.try_acquire_from_tls(cache);

        assert!(result.is_none());

        // A cached allocation is returned as an acquired batch.
        assert!(cache.push(entry(1)).is_ok());
    });

    registry.ctxs[thread].db_instance(0).thread_batch_cache_mut(|cache| {
        let result = pool.try_acquire_from_tls(cache);

        assert!(result.is_some());
    });
}

#[test]
fn basic_acquire() {
    let mut pool = BatchPool::new();
    assert!(pool.pool[0].push(entry(7)).is_ok());

    // Two threads, each with a cache of its own.
    let mut first = ThreadBatchCache::new();
    let mut second = ThreadBatchCache::new();
    let _one = pool.acquire(&mut first);
    let _two = pool.acquire(&mut second);

    // We should have missed tls twice
    assert_eq!(pool.stats.tls_misses, 2);
    // We should have only allocated once
    assert_eq!(pool.stats.allocations, 1);
}

#[test]
fn shard_index() {
    let mut pool = BatchPool::new();
    let mut first = ThreadBatchCache::new();
    let mut second = ThreadBatchCache::new();
    pool.assign_shard_idx(&mut first);
    pool.assign_shard_idx(&mut second);

    // We should have two shards - next shard should be idx 2
    assert!(pool.next_shard == 2);
}

#[test]
fn thread_cache_pop_empty_returns_none() {
    let mut cache = ThreadBatchCache::new();
    assert!(cache.pop().is_none());
    assert!(cache.cache_len() == 0);
}

#[test]
fn spill_to_retain() {
    let mut thread_batch = Cache::<4, 2>::new_with_const_size();

    for name in 0..4 {
        assert!(thread_batch.push(entry(name)).is_ok());
    }

    assert_eq!(thread_batch.cache_len(), 4);

    let hot_batch = entry(10);
    let hot_ptr = hot_batch.as_non_null();

    let spilled = thread_batch.spill_cache_to_target_retained();

    assert_eq!(spilled.len(), 3);
    assert_eq!(thread_batch.cache_len(), 1);
    assert_eq!(spilled[2].as_non_null(), BatchPtr(3));

    assert!(thread_batch.push(hot_batch).is_ok());

    assert_eq!(thread_batch.cache_len(), 2);
    assert_eq!(thread_batch.pop().unwrap().as_non_null(), hot_ptr);

    drop(thread_batch.pop());
}

#[test]
fn release_to_full_tls_back_to_global() {
    let mut bp = Pool::<2, 2, 2, 2>::new_with_const_size(OwnedBatchFactory::default());
    let mut cache = Cache::<2, 2>::new_with_const_size();

    // Fill up the tls cache so we have to spill to global
    let _ = cache.push(entry(1));
    let _ = cache.push(entry(2));

    let caller_owned_batch = Uncommitted::new(BatchPtr(3));

    bp.release(caller_owned_batch, &mut cache);

    assert_eq!(bp.pool[0].batches.len(), 1);
    assert_eq!(bp.pool[0].batches[0].as_non_null(), BatchPtr(2));
    assert_eq!(cache.pop().unwrap().as_non_null(), BatchPtr(3));
    assert_eq!(cache.pop().unwrap().as_non_null(), BatchPtr(1));
    assert_eq!(bp.stats.batches_dropped, 0);
}

#[test]
fn state_lifecycle() {
    let mut pool = Pool::<1, 1, 1, 1>::new_with_const_size(OwnedBatchFactory::default());
    let mut cache = Cache::<1, 1>::new_with_const_size();

    let batch = pool.acquire(&mut cache);
    assert_eq!(batch.state(), BatchRuntimeState::Acquired);

    pool.release(batch, &mut cache);
    assert_eq!(cache.batches[0].batch().runtime_commit_state, BatchRuntimeState::Idle);

    let batch = Uncommitted::acquire(cache.pop().unwrap());
    assert_eq!(batch.state(), BatchRuntimeState::Acquired);
    assert!(cache.push(batch.into_inner()).is_ok());

    let batch = pool.acquire(&mut cache);
    assert_eq!(batch.state(), BatchRuntimeState::Acquired);
    pool.release(batch, &mut cache);

    // TLS is full, so releasing another acquired batch spills one idle batch to global.

    let b = Uncommitted::new(BatchPtr(50));
    assert_eq!(b.state(), BatchRuntimeState::Acquired);

    pool.release(b, &mut cache);
    let b = Uncommitted::acquire(pool.pool[0].pop().unwrap());
    assert_eq!(b.state(), BatchRuntimeState::Acquired);
}

#[test]
fn thread_cache_push_then_pop_returns_same_batch() {
    let mut cache = Cache::<4, 2>::new_with_const_size();
    assert!(cache.push(entry(5)).is_ok());
    let popped = cache.pop().unwrap();
    assert_eq!(popped.as_non_null(), BatchPtr(5));
    assert_eq!(popped.batch().runtime_commit_state, BatchRuntimeState::Idle);
}

#[test]
fn thread_cache_pop_is_lifo() {
    let mut cache = Cache::<4, 2>::new_with_const_size();
    assert!(cache.push(entry(1)).is_ok());
    assert!(cache.push(entry(2)).is_ok());
    assert_eq!(cache.pop().unwrap().as_non_null(), BatchPtr(2));
    assert_eq!(cache.pop().unwrap().as_non_null(), BatchPtr(1));
}

#[test]
fn thread_cache_push_full_returns_err() {
    let mut cache = Cache::<2, 1>::new_with_const_size();
    assert!(cache.push(entry(1)).is_ok());
    assert!(cache.push(entry(2)).is_ok());
    let extra = match cache.push(entry(3)) {
        Ok(()) => panic!("a full cache took a batch"),
        Err(extra) => extra,
    };
    assert_eq!(extra.as_non_null(), BatchPtr(3));
    assert_eq!(extra.batch().runtime_commit_state, BatchRuntimeState::Acquired);
    assert_eq!(cache.cache_len(), 2);
}

#[test]
fn try_acquire_from_tls_empty_returns_none() {
    let pool = BatchPool::new();
    let mut cache = ThreadBatchCache::new();
    assert!(pool.try_acquire_from_tls(&mut cache).is_none());
}

#[test]
fn try_acquire_from_tls_pops_cached_batch() {
    let pool = BatchPool::new();
    let mut cache = ThreadBatchCache::new();
    assert!(cache.push(entry(1)).is_ok());
    let taken: Option<Uncommitted> = pool.try_acquire_from_tls(&mut cache);
    assert_eq!(taken.unwrap().state(), BatchRuntimeState::Acquired);
    assert!(pool.try_acquire_from_tls(&mut cache).is_none());
}

#[test]
fn acquire_allocates_when_tls_and_shard_empty() {
    let mut pool = BatchPool::new();
    let mut cache = ThreadBatchCache::new();
    let batch = pool.acquire(&mut cache);
    assert_eq!(pool.stats.allocations, 1);
    assert_eq!(pool.stats.tls_misses, 1);
    assert_eq!(pool.stats.allocated_bytes, 12);
    assert_eq!(batch.as_non_null(), BatchPtr(0));
}

#[test]
fn acquire_uses_shard_before_allocating() {
    let mut pool = BatchPool::new();
    let mut cache = ThreadBatchCache::new();
    assert!(pool.push_to_global(0, entry(42)).is_ok());
    let batch = pool.acquire(&mut cache);
    assert_eq!(pool.stats.allocations, 0);
    assert_eq!(pool.stats.global_batches_reused, 1);
    assert_eq!(batch.as_non_null(), BatchPtr(42));
}

#[test]
fn refill_tls_hydrates_cache_from_shard() {
    let mut pool = BatchPool::new();
    let mut cache = ThreadBatchCache::new();
    for name in 0..8 {
        assert!(pool.push_to_global(0, entry(name)).is_ok());
    }
    let batch = pool.acquire(&mut cache);
    assert_eq!(batch.as_non_null(), BatchPtr(7));
    assert_eq!(cache.cache_len(), 4);
    let cached: Vec<BatchPtr> = cache.batches.iter().map(|entry| entry.as_non_null()).collect();
    assert_eq!(cached, vec![BatchPtr(6), BatchPtr(5), BatchPtr(4), BatchPtr(3)]);
    assert_eq!(pool.pool[0].batches.len(), 3);
    assert_eq!(pool.stats.global_batches_reused, 5);
}

#[test]
fn shard_assignment_is_sticky_per_thread_cache() {
    let mut pool = BatchPool::new();
    let mut cache = ThreadBatchCache::new();
    let first = pool.shard_idx_for_cache(&mut cache);
    let second = pool.shard_idx_for_cache(&mut cache);
    assert_eq!(first, second);
    assert_eq!(pool.next_shard, 1);
}

#[test]
fn shard_assignment_round_robins_across_caches() {
    let mut pool = BatchPool::new();
    let mut assigned = Vec::new();
    for _ in 0..6 {
        let mut cache = ThreadBatchCache::new();
        assigned.push(pool.shard_idx_for_cache(&mut cache));
    }
    assert_eq!(assigned, vec![0, 1, 2, 3, 0, 1]);
}

#[test]
fn thread_batch_cache_unref_drops_cached_batches() {
    let mut cache = Cache::<4, 2>::new_with_const_size();
    for name in 0..3 {
        assert!(cache.push(entry(name)).is_ok());
    }
    assert!(Cache::<4, 2>::handler().is_some());
    assert_eq!(cache.unref(), 3);
}

#[test]
fn a_full_shard_drops_what_is_spilled() {
    let mut pool = Pool::<1, 1, 3, 1>::new();
    let mut cache = Cache::<3, 1>::new_with_const_size();
    for name in 0..3 {
        assert!(cache.push(entry(name)).is_ok());
    }
    pool.release(Uncommitted::new(BatchPtr(9)), &mut cache);
    assert_eq!(cache.cache_len(), 1);
    assert_eq!(cache.batches[0].as_non_null(), BatchPtr(9));
    assert_eq!(pool.pool[0].batches.len(), 1);
    assert_eq!(pool.pool[0].batches[0].as_non_null(), BatchPtr(2));
    assert_eq!(pool.snapshot_stats().batches_dropped, 2);
}

#[test]
fn a_released_batch_is_empty() {
    let mut pool = Pool::<1, 1, 2, 1>::new();
    let mut cache = Cache::<2, 1>::new_with_const_size();
    let mut batch = pool.acquire(&mut cache);
    batch.put(b"key", &[0u8; 5000]);
    assert_eq!(batch.as_inner().count, 1);
    pool.release(batch, &mut cache);
    let entry = cache.pop().unwrap();
    assert_eq!(entry.batch().count, 0);
    assert_eq!(entry.batch().data.len(), 0);
    assert!(entry.batch().data.capacity() <= 2048);
}

#[test]
fn a_full_cache_gives_the_batch_back() {
    let pool = Pool::<1, 1, 1, 1>::new();
    let mut cache = Cache::<1, 1>::new_with_const_size();
    assert!(pool.try_return_to_cache(Uncommitted::new(BatchPtr(1)), &mut cache).is_ok());
    match pool.try_return_to_cache(Uncommitted::new(BatchPtr(2)), &mut cache) {
        Ok(()) => panic!("a full cache took a batch"),
        Err(batch) => assert_eq!(batch.as_non_null(), BatchPtr(2)),
    }
}

#[test]
fn large_batches_hand_memory_back() {
    assert_eq!(retention(0), None);
    assert_eq!(retention(2047), None);
    assert_eq!(retention(2048), Some(1024));
    assert_eq!(retention(usize::MAX), Some(1024));

    let mut pool = Pool::<1, 1, 1, 1>::new();
    let mut cache = Cache::<1, 1>::new_with_const_size();
    for size in [1500, 3000] {
        let mut batch = pool.acquire(&mut cache);
        batch.put(b"key", &vec![0; size]);
        pool.release(batch, &mut cache);
        let batch = pool.acquire(&mut cache);
        assert_eq!(batch.as_inner().data.len(), 0);
        assert_eq!(batch.as_inner().data.capacity() >= size, size < 2048);
        pool.release(batch, &mut cache);
    }
}

#[test]
fn correct_api() {
    // SETUP ===================================

    let env = Arc::new(EnvStub);

    let wp = WritePipeline::<1, EnvStub>::new_with_size(
        env,
        SeqNumState::default(),
        SyncSem::default(),
    );

    let mut pool = Pool::<1, 1, 1, 1>::new();
    let mut cache = Cache::<1, 1>::new_with_const_size();
    let done = Ok(());

    // ============================================

    // Want stats:
    //
    // TLS MISSES: 3
    // GLOBAL BATCHES REUSED: 1
    // ALLOCATIONS: 2
    // ALLOCATED BYTES: 24
    // BATCHES DROPPED: 0

    let one = pool.acquire_batch(&mut cache); // Fresh allocation
    let two = pool.acquire_batch(&mut cache); // Fresh allocation

    one.close(&mut pool, &mut cache, done).unwrap(); // Give back to TLS
    two.close(&mut pool, &mut cache, done).unwrap(); // Give back to Global

    let _three = pool.acquire_batch(&mut cache); // Acquire from TLS

    let mut b = pool.acquire_batch(&mut cache); // Miss on TLS - Acquire from Global

    b.put(b"Hello", b"There");

    let sealed_batch = b.seal();
    assert_eq!(sealed_batch.batch_ptr(), sealed_batch.inner().as_non_null());

    wp.commit(sealed_batch.inner())
        .expect("sealed batch commit should succeed");

    let object = sealed_batch.reset(done);

    let _ = object.close(&mut pool, &mut cache, done);

    let stats: BatchPoolStats = pool.snapshot_stats();
    println!("{:?}", stats);

    assert_eq!(stats.tls_misses, 3);
    assert_eq!(stats.global_batches_reused, 1);
    assert_eq!(stats.allocations, 2);
    assert_eq!(stats.allocated_bytes, 24);
    assert_eq!(stats.batches_dropped, 0);
}

#[test]
fn a_batch_whose_sync_failed_does_not_go_back() {
    let mut pool = Pool::<1, 1, 1, 1>::new();
    let mut cache = Cache::<1, 1>::new_with_const_size();
    let mut batch = pool.acquire_batch(&mut cache);
    batch.batch.inner.batch_mut().prime_sync_waiter();
    let result = batch.close(&mut pool, &mut cache, Err(WalSyncResultState::IoError));
    assert!(matches!(result, Err(Error::WalError)));
    assert_eq!(cache.cache_len(), 0);
}

#[test]
fn a_batch_goes_back_with_its_sync_done() {
    let mut pool = Pool::<1, 1, 1, 1>::new();
    let mut cache = Cache::<1, 1>::new_with_const_size();
    let failed = Err(WalSyncResultState::IoError);

    let mut batch = pool.acquire_batch(&mut cache);
    batch.batch.inner.batch_mut().prime_sync_waiter();
    assert!(batch.close(&mut pool, &mut cache, Ok(())).is_ok());

    // Nobody asked for a sync since.
    let mut batch = pool.acquire_batch(&mut cache);
    assert_eq!(batch.inner().as_inner().sync_waiter_state(), WalSyncResultState::SyncDone);
    assert!(batch.wait(failed).is_ok());

    batch.batch.inner.batch_mut().prime_sync_waiter();
    let batch = batch.reset(Ok(()));
    assert_eq!(batch.inner().as_inner().sync_waiter_state(), WalSyncResultState::SyncDone);
}
