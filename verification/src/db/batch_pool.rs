//! The pool that recycles batches.
//!
//! A thread takes a batch from its own cache; where that is empty, from the
//! shard of the pool that it is assigned to; and where that is empty too, from
//! the factory. It gives a batch back to its cache. A cache that is full first
//! spills batches to its shard, and what the shard has no room for is dropped.

use crate::db::batch::{
    self, BatchInner, BatchRecordKind, BatchRuntimeState, DEFAULT_BATCH_INIT_SIZE,
};
use crate::db::batch_object::{
    self, BatchAllocation, BatchCommitState, BatchFactory, BatchObject, BatchPtr,
    OwnedBatchFactory, OwnedBatchPtr, Sealed, SealedBatch, UnCommitted,
};
use crate::db::record::Record;
use crate::db::DEFAULT_CF_ID;
use crate::error::Result;
use crate::thread_local_storage::thread_local::UnrefHandler;
use crate::thread_local_storage::thread_local_ptr::ThreadLocalObject;
use crate::wal::WalSyncResultState;
use vstd::prelude::*;

verus! {

pub const DEFAULT_SHARDS_PER_POOL: usize = 4;

pub const DEFAULT_MAX_BATCHES_PER_SHARD: usize = 16;

pub const DEFAULT_THREAD_BATCH_CACHE_CAPACITY: usize = 8;

pub const DEFAULT_THREAD_BATCH_CACHE_TARGET_RETAINED: usize = 4;

/// The batches in a row of allocations, each with its name.
pub open spec fn held<P: BatchAllocation>(batches: Seq<P>) -> Seq<(BatchPtr, BatchInner)> {
    batches.map_values(|entry: P| (entry.ptr(), entry.inner()))
}

/// A batch that nobody uses.
pub open spec fn idle(batch: BatchInner) -> BatchInner {
    BatchInner { runtime_commit_state: BatchRuntimeState::Idle, ..batch }
}

/// A batch that a caller uses.
pub open spec fn acquired(batch: BatchInner) -> BatchInner {
    BatchInner { runtime_commit_state: BatchRuntimeState::Acquired, ..batch }
}

/// Each of the batches is well formed, and nobody uses it.
pub open spec fn all_idle<P: BatchAllocation>(batches: Seq<P>) -> bool {
    forall|i: int|
        0 <= i < batches.len() ==> (#[trigger] batches[i]).inner().wf()
            && batches[i].inner().runtime_commit_state == BatchRuntimeState::Idle
}

/// How much memory a batch that held `size` bytes keeps when it is used again:
/// one that had grown large hands the rest back, another keeps what it has.
pub fn retention(size: usize) -> (kept: Option<usize>)
    ensures
        kept == (if size >= 2 * DEFAULT_BATCH_INIT_SIZE {
            Some(DEFAULT_BATCH_INIT_SIZE)
        } else {
            None
        }),
        kept is Some <==> size >= 0x800,
        kept matches Some(bytes) ==> bytes == 0x400,
{
    if size >= DEFAULT_BATCH_INIT_SIZE * 2 {
        Some(DEFAULT_BATCH_INIT_SIZE)
    } else {
        None
    }
}

/// A thread's own cache of batches.
///
/// It holds at most `CACHE_CAP` of them. When it spills, it keeps
/// `TARGET_RETAINED` with the one that comes in.
pub struct ThreadBatchCache<
    const CACHE_CAP: usize,
    const TARGET_RETAINED: usize,
    P: BatchAllocation,
> {
    /// The shard of the pool that the thread is assigned to.
    pub shard_idx: Option<usize>,
    pub batches: Vec<P>,
}

impl ThreadBatchCache<
    DEFAULT_THREAD_BATCH_CACHE_CAPACITY,
    DEFAULT_THREAD_BATCH_CACHE_TARGET_RETAINED,
    OwnedBatchPtr,
> {
    /// An empty cache of the default size.
    pub fn new() -> (cache: Self)
        ensures
            cache.wf(),
            cache.shard_idx is None,
            cache.batches@.len() == 0,
    {
        Self::new_with_const_size()
    }
}

impl<
    const CACHE_CAP: usize,
    const TARGET_RETAINED: usize,
    P: BatchAllocation,
> ThreadBatchCache<CACHE_CAP, TARGET_RETAINED, P> {
    /// The sizes make sense, and the batches are at rest.
    pub open spec fn wf(&self) -> bool {
        &&& 0 < TARGET_RETAINED <= CACHE_CAP <= 255
        &&& self.batches@.len() <= CACHE_CAP
        &&& all_idle(self.batches@)
    }

    /// An empty cache.
    pub fn new_with_const_size() -> (cache: Self)
        requires
            0 < TARGET_RETAINED <= CACHE_CAP <= 255,
        ensures
            cache.wf(),
            cache.shard_idx is None,
            cache.batches@.len() == 0,
    {
        ThreadBatchCache { shard_idx: None, batches: Vec::new() }
    }

    /// How many batches there are.
    pub fn cache_len(&self) -> (len: usize)
        ensures
            len == self.batches@.len(),
    {
        self.batches.len()
    }

    /// Puts a batch into the cache, or gives it back where the cache is full.
    pub fn push(&mut self, entry: P) -> (result: std::result::Result<(), P>)
        requires
            old(self).wf(),
            entry.inner().wf(),
        ensures
            final(self).wf(),
            final(self).shard_idx == old(self).shard_idx,
            if old(self).batches@.len() == CACHE_CAP {
                result == Err::<(), P>(entry) && final(self).batches@ == old(self).batches@
            } else {
                &&& result is Ok
                &&& held(final(self).batches@) == held(old(self).batches@).push(
                    (entry.ptr(), idle(entry.inner())),
                )
            },
            result is Ok <==> old(self).batches@.len() < CACHE_CAP,
            result is Ok ==> {
                &&& final(self).batches@.len() == old(self).batches@.len() + 1
                &&& final(self).batches@.drop_last() == old(self).batches@
                &&& final(self).batches@.last().ptr() == entry.ptr()
                &&& final(self).batches@.last().inner() == (BatchInner {
                    runtime_commit_state: BatchRuntimeState::Idle,
                    ..entry.inner()
                })
            },
    {
        if self.batches.len() == CACHE_CAP {
            return Err(entry);
        }
        let mut entry = entry;
        entry.batch_mut().set_runtime_state(BatchRuntimeState::Idle);
        self.batches.push(entry);
        proof {
            assert(held(self.batches@) =~= held(old(self).batches@).push(
                (entry.ptr(), entry.inner()),
            ));
            assert(self.batches@.drop_last() =~= old(self).batches@);
        }
        Ok(())
    }

    /// Takes out the batch that was put in last.
    pub fn pop(&mut self) -> (entry: Option<P>)
        requires
            old(self).wf(),
        ensures
            final(self).wf(),
            final(self).shard_idx == old(self).shard_idx,
            if old(self).batches@.len() == 0 {
                entry is None && final(self).batches@ == old(self).batches@
            } else {
                entry == Some(old(self).batches@.last()) && final(self).batches@
                    == old(self).batches@.drop_last()
            },
    {
        self.batches.pop()
    }

    /// Takes out batches until there is room for one more within the target.
    /// They are returned in the order in which they stood, so the last of them
    /// came out first.
    pub fn spill_cache_to_target_retained(&mut self) -> (spilled: Vec<P>)
        requires
            old(self).wf(),
        ensures
            final(self).wf(),
            final(self).shard_idx == old(self).shard_idx,
            if old(self).batches@.len() < TARGET_RETAINED {
                spilled@.len() == 0 && final(self).batches@ == old(self).batches@
            } else {
                &&& spilled@ == old(self).batches@.skip(TARGET_RETAINED - 1)
                &&& final(self).batches@ == old(self).batches@.take(TARGET_RETAINED - 1)
            },
    {
        if self.batches.len() < TARGET_RETAINED {
            Vec::new()
        } else {
            self.batches.split_off(TARGET_RETAINED - 1)
        }
    }

    /// Lets go of the cache: drops the batches that it still holds, and returns
    /// how many they were.
    pub fn unref(self) -> (dropped: usize)
        requires
            self.wf(),
        ensures
            dropped == self.batches@.len(),
    {
        let mut cache = self;
        let mut dropped: usize = 0;
        while cache.batches.len() > 0
            invariant
                cache.wf(),
                dropped + cache.batches@.len() == self.batches@.len(),
                self.batches@.len() <= 255,
            decreases cache.batches@.len(),
        {
            let _ = cache.pop();
            dropped = dropped + 1;
        }
        dropped
    }
}

impl<
    const CACHE_CAP: usize,
    const TARGET_RETAINED: usize,
    P: BatchAllocation,
> ThreadLocalObject for ThreadBatchCache<CACHE_CAP, TARGET_RETAINED, P> {
    /// Names `unref`.
    fn handler() -> (handler: Option<UnrefHandler>)
        ensures
            handler == Some(UnrefHandler(1)),
    {
        Some(UnrefHandler(1))
    }
}

/// One shard of the pool.
pub struct BatchPoolShardInner<const CAP: usize, P: BatchAllocation> {
    pub batches: Vec<P>,
}

impl<const CAP: usize, P: BatchAllocation> BatchPoolShardInner<CAP, P> {
    /// The size makes sense, and the batches are at rest.
    pub open spec fn wf(&self) -> bool {
        &&& 0 < CAP <= 255
        &&& self.batches@.len() <= CAP
        &&& all_idle(self.batches@)
    }

    /// An empty shard.
    pub fn new() -> (shard: Self)
        requires
            0 < CAP <= 255,
        ensures
            shard.wf(),
            shard.batches@.len() == 0,
    {
        BatchPoolShardInner { batches: Vec::new() }
    }

    /// Takes out the batch that was put in last.
    pub fn pop(&mut self) -> (entry: Option<P>)
        requires
            old(self).wf(),
        ensures
            final(self).wf(),
            if old(self).batches@.len() == 0 {
                entry is None && final(self).batches@ == old(self).batches@
            } else {
                entry == Some(old(self).batches@.last()) && final(self).batches@
                    == old(self).batches@.drop_last()
            },
    {
        self.batches.pop()
    }

    /// Puts a batch into the shard, or gives it back where the shard is full.
    pub fn push(&mut self, batch: P) -> (result: std::result::Result<(), P>)
        requires
            old(self).wf(),
            batch.inner().wf(),
        ensures
            final(self).wf(),
            if old(self).batches@.len() == CAP {
                result == Err::<(), P>(batch) && final(self).batches@ == old(self).batches@
            } else {
                &&& result is Ok
                &&& held(final(self).batches@) == held(old(self).batches@).push(
                    (batch.ptr(), idle(batch.inner())),
                )
            },
            result is Ok <==> old(self).batches@.len() < CAP,
            result is Ok ==> {
                &&& final(self).batches@.len() == old(self).batches@.len() + 1
                &&& final(self).batches@.drop_last() == old(self).batches@
                &&& final(self).batches@.last().ptr() == batch.ptr()
                &&& final(self).batches@.last().inner() == (BatchInner {
                    runtime_commit_state: BatchRuntimeState::Idle,
                    ..batch.inner()
                })
            },
    {
        if self.batches.len() == CAP {
            return Err(batch);
        }
        let mut batch = batch;
        batch.batch_mut().set_runtime_state(BatchRuntimeState::Idle);
        self.batches.push(batch);
        proof {
            assert(held(self.batches@) =~= held(old(self).batches@).push(
                (batch.ptr(), batch.inner()),
            ));
            assert(self.batches@.drop_last() =~= old(self).batches@);
        }
        Ok(())
    }
}

/// What the pool counts. The counts wrap around at the end of their range.
#[derive(Debug, Clone, Copy, PartialEq, Eq, Structural)]
pub struct BatchPoolStats {
    /// How often a thread's cache was empty.
    pub tls_misses: usize,
    /// How many batches came from a shard.
    pub global_batches_reused: usize,
    /// How many batches came from the factory.
    pub allocations: usize,
    /// How many bytes those batches came to.
    pub allocated_bytes: usize,
    /// How many batches there was no room for.
    pub batches_dropped: usize,
}

impl Default for BatchPoolStats {
    fn default() -> (stats: Self)
        ensures
            stats == no_stats(),
            stats.tls_misses == 0,
            stats.global_batches_reused == 0,
            stats.allocations == 0,
            stats.allocated_bytes == 0,
            stats.batches_dropped == 0,
    {
        Self::new()
    }
}

/// Nothing has happened yet.
pub open spec fn no_stats() -> BatchPoolStats {
    BatchPoolStats {
        tls_misses: 0,
        global_batches_reused: 0,
        allocations: 0,
        allocated_bytes: 0,
        batches_dropped: 0,
    }
}

impl BatchPoolStats {
    /// Nothing has happened yet.
    pub fn new() -> (stats: Self)
        ensures
            stats == no_stats(),
            stats.tls_misses == 0,
            stats.global_batches_reused == 0,
            stats.allocations == 0,
            stats.allocated_bytes == 0,
            stats.batches_dropped == 0,
    {
        BatchPoolStats {
            tls_misses: 0,
            global_batches_reused: 0,
            allocations: 0,
            allocated_bytes: 0,
            batches_dropped: 0,
        }
    }
}

/// `a + b`, wrapped around at the end of the range of `usize`.
pub open spec fn wrapping(a: usize, b: int) -> int {
    if a + b > usize::MAX {
        a + b - usize::MAX - 1
    } else {
        a + b
    }
}

/// A pool of batches.
pub struct BatchPoolImpl<
    const SHARDS_PER_POOL: usize,
    const MAX_BATCH_PER_SHARD: usize,
    const TLS_CAP: usize,
    const TLS_TARGET_RETAINED: usize,
    F: BatchFactory,
> {
    pub pool: Vec<BatchPoolShardInner<MAX_BATCH_PER_SHARD, F::Allocation>>,
    pub factory: F,
    /// Counts the threads that were assigned to a shard.
    pub next_shard: usize,
    pub stats: BatchPoolStats,
}

impl<
    const SHARDS_PER_POOL: usize,
    const MAX_BATCH_PER_SHARD: usize,
    const TLS_CAP: usize,
    const TLS_TARGET_RETAINED: usize,
    F: BatchFactory,
> BatchPoolImpl<SHARDS_PER_POOL, MAX_BATCH_PER_SHARD, TLS_CAP, TLS_TARGET_RETAINED, F> {
    /// The shards are there, and well formed.
    pub open spec fn wf(&self) -> bool {
        &&& 0 < SHARDS_PER_POOL
        &&& self.pool@.len() == SHARDS_PER_POOL
        &&& forall|i: int| 0 <= i < self.pool@.len() ==> (#[trigger] self.pool@[i]).wf()
    }

    /// The cache can be one of a thread that uses this pool.
    pub open spec fn serves(
        &self,
        cache: &ThreadBatchCache<TLS_CAP, TLS_TARGET_RETAINED, F::Allocation>,
    ) -> bool {
        &&& self.wf()
        &&& cache.wf()
        &&& cache.shard_idx matches Some(idx) ==> idx < SHARDS_PER_POOL
    }

    /// The shard of a thread: the one that it is assigned to, or the next in
    /// turn.
    pub open spec fn shard_of(&self, shard_idx: Option<usize>) -> int {
        match shard_idx {
            Some(idx) => idx as int,
            None => self.next_shard as int % SHARDS_PER_POOL as int,
        }
    }

    /// The count of assigned threads after the thread has its shard.
    pub open spec fn next_shard_after(&self, shard_idx: Option<usize>) -> usize {
        match shard_idx {
            Some(_) => self.next_shard,
            None => wrapping(self.next_shard, 1) as usize,
        }
    }

    /// `after` differs in the shard `idx` at most.
    pub open spec fn same_other_shards(&self, after: &Self, idx: int) -> bool {
        &&& after.pool@.len() == self.pool@.len()
        &&& forall|i: int|
            0 <= i < self.pool@.len() && i != idx ==> #[trigger] after.pool@[i] == self.pool@[i]
    }

    /// A pool with empty shards.
    pub fn new_with_const_size(factory: F) -> (pool: Self)
        requires
            0 < SHARDS_PER_POOL,
            0 < MAX_BATCH_PER_SHARD <= 255,
        ensures
            pool.wf(),
            forall|i: int|
                0 <= i < SHARDS_PER_POOL ==> (#[trigger] pool.pool@[i]).batches@.len() == 0,
            pool.factory == factory,
            pool.next_shard == 0,
            pool.stats == no_stats(),
    {
        let mut shards: Vec<BatchPoolShardInner<MAX_BATCH_PER_SHARD, F::Allocation>> = Vec::new();
        let mut i: usize = 0;
        while i < SHARDS_PER_POOL
            invariant
                i <= SHARDS_PER_POOL,
                0 < MAX_BATCH_PER_SHARD <= 255,
                shards@.len() == i,
                forall|j: int|
                    0 <= j < i ==> (#[trigger] shards@[j]).wf() && shards@[j].batches@.len() == 0,
            decreases SHARDS_PER_POOL - i,
        {
            shards.push(BatchPoolShardInner::new());
            i = i + 1;
        }
        BatchPoolImpl { pool: shards, factory, next_shard: 0, stats: BatchPoolStats::new() }
    }

    /// Assigns the thread to the next shard in turn.
    pub fn assign_shard_idx(
        &mut self,
        cache: &mut ThreadBatchCache<TLS_CAP, TLS_TARGET_RETAINED, F::Allocation>,
    ) -> (idx: usize)
        requires
            0 < SHARDS_PER_POOL,
        ensures
            idx == old(self).next_shard as int % SHARDS_PER_POOL as int,
            *final(cache) == (ThreadBatchCache { shard_idx: Some(idx), ..*old(cache) }),
            *final(self) == (BatchPoolImpl {
                next_shard: wrapping(old(self).next_shard, 1) as usize,
                ..*old(self)
            }),
    {
        let idx = self.next_shard % SHARDS_PER_POOL;
        self.next_shard = self.next_shard.wrapping_add(1);
        cache.shard_idx = Some(idx);
        idx
    }

    /// The shard of the thread, which stays the same from the first time on.
    pub fn shard_idx_for_cache(
        &mut self,
        cache: &mut ThreadBatchCache<TLS_CAP, TLS_TARGET_RETAINED, F::Allocation>,
    ) -> (idx: usize)
        requires
            0 < SHARDS_PER_POOL,
        ensures
            idx == old(self).shard_of(old(cache).shard_idx),
            match old(cache).shard_idx {
                Some(there) => idx == there && *final(cache) == *old(cache) && *final(self)
                    == *old(self),
                None => idx == old(self).next_shard as int % SHARDS_PER_POOL as int,
            },
            *final(cache) == (ThreadBatchCache { shard_idx: Some(idx), ..*old(cache) }),
            *final(self) == (BatchPoolImpl {
                next_shard: old(self).next_shard_after(old(cache).shard_idx),
                ..*old(self)
            }),
    {
        match cache.shard_idx {
            Some(idx) => idx,
            None => self.assign_shard_idx(cache),
        }
    }

    /// Puts a batch into a shard, or gives it back where the shard is full.
    pub fn push_to_global(&mut self, shard_idx: usize, batch_ptr: F::Allocation) -> (result:
        std::result::Result<(), F::Allocation>)
        requires
            old(self).wf(),
            shard_idx < SHARDS_PER_POOL,
            batch_ptr.inner().wf(),
        ensures
            final(self).wf(),
            old(self).same_other_shards(final(self), shard_idx as int),
            *final(self) == (BatchPoolImpl { pool: final(self).pool, ..*old(self) }),
            ({
                let before = old(self).pool@[shard_idx as int].batches@;
                let after = final(self).pool@[shard_idx as int].batches@;
                if before.len() == MAX_BATCH_PER_SHARD {
                    result == Err::<(), F::Allocation>(batch_ptr) && after == before
                } else {
                    &&& result is Ok
                    &&& held(after) == held(before).push(
                        (batch_ptr.ptr(), idle(batch_ptr.inner())),
                    )
                }
            }),
    {
        self.pool[shard_idx].push(batch_ptr)
    }

    /// Takes a batch from the thread's cache.
    pub fn try_acquire_from_tls(
        &self,
        cache: &mut ThreadBatchCache<TLS_CAP, TLS_TARGET_RETAINED, F::Allocation>,
    ) -> (object: Option<BatchObject<UnCommitted, F::Allocation>>)
        requires
            old(cache).wf(),
        ensures
            final(cache).wf(),
            final(cache).shard_idx == old(cache).shard_idx,
            if old(cache).batches@.len() == 0 {
                object is None && final(cache).batches@ == old(cache).batches@
            } else {
                &&& object matches Some(taken) && {
                    &&& taken.inner.ptr() == old(cache).batches@.last().ptr()
                    &&& taken.inner.inner() == acquired(old(cache).batches@.last().inner())
                }
                &&& final(cache).batches@ == old(cache).batches@.drop_last()
            },
    {
        match cache.pop() {
            Some(entry) => Some(BatchObject::acquire(entry)),
            None => None,
        }
    }

    /// How many batches a refill puts into a cache that holds `cached`, out of a
    /// shard that holds `pooled`: the first goes to the caller, and then the
    /// cache is filled up to half.
    pub open spec fn hydrated(pooled: int, cached: int) -> int {
        let wanted = TLS_CAP as int / 2 - cached;
        let there = pooled - 1;
        if wanted <= 0 || there <= 0 {
            0
        } else if wanted < there {
            wanted
        } else {
            there
        }
    }

    /// What a refill does: from `before` and the thread's `cache` to `after` and
    /// `refilled`, with `object` for the caller.
    pub open spec fn refills(
        before: Self,
        cache: ThreadBatchCache<TLS_CAP, TLS_TARGET_RETAINED, F::Allocation>,
        after: Self,
        refilled: ThreadBatchCache<TLS_CAP, TLS_TARGET_RETAINED, F::Allocation>,
        object: BatchObject<UnCommitted, F::Allocation>,
    ) -> bool {
        let idx = before.shard_of(cache.shard_idx);
        let shard = held(before.pool@[idx].batches@);
        let left = held(after.pool@[idx].batches@);
        let n = shard.len() as int;
        let moved = Self::hydrated(n, cache.batches@.len() as int);
        &&& after.serves(&refilled)
        &&& refilled.shard_idx == Some(idx as usize)
        &&& after.next_shard == before.next_shard_after(cache.shard_idx)
        &&& before.same_other_shards(&after, idx)
        &&& after.stats.tls_misses == wrapping(before.stats.tls_misses, 1)
        &&& after.stats.batches_dropped == before.stats.batches_dropped
        &&& if n == 0 {
            &&& object.inner.inner().fresh()
            &&& object.inner.ptr() == before.factory.upcoming()
            &&& after.factory == before.factory.advanced()
            &&& held(refilled.batches@) == held(cache.batches@)
            &&& left == shard
            &&& after.stats.allocations == wrapping(before.stats.allocations, 1)
            &&& after.stats.allocated_bytes == wrapping(before.stats.allocated_bytes, 12)
            &&& after.stats.global_batches_reused == before.stats.global_batches_reused
        } else {
            &&& object.inner.inner() == acquired(shard[n - 1].1)
            &&& object.inner.ptr() == shard[n - 1].0
            &&& after.factory == before.factory
            &&& held(refilled.batches@) == held(cache.batches@) + shard.subrange(
                n - 1 - moved,
                n - 1,
            ).reverse()
            &&& left == shard.take(n - 1 - moved)
            &&& after.stats.allocations == before.stats.allocations
            &&& after.stats.allocated_bytes == before.stats.allocated_bytes
            &&& after.stats.global_batches_reused == wrapping(
                before.stats.global_batches_reused,
                1 + moved,
            )
        }
    }

    /// Gets a batch for a thread whose cache has none: from the thread's shard,
    /// or else from the factory. On the way the cache is filled up to half from
    /// the shard.
    #[verifier::spinoff_prover]
    #[verifier::rlimit(40)]
    pub fn refill_tls_cache(
        &mut self,
        cache: &mut ThreadBatchCache<TLS_CAP, TLS_TARGET_RETAINED, F::Allocation>,
    ) -> (object: BatchObject<UnCommitted, F::Allocation>)
        requires
            old(self).serves(old(cache)),
        ensures
            Self::refills(*old(self), *old(cache), *final(self), *final(cache), object),
            old(cache).shard_idx matches Some(i) ==> {
                &&& final(cache).shard_idx == Some(i)
                &&& final(self).next_shard == old(self).next_shard
                &&& final(self).pool@.len() == old(self).pool@.len()
                &&& forall|k: int|
                    0 <= k < old(self).pool@.len() && k != i ==> #[trigger] final(self).pool@[k]
                        == old(self).pool@[k]
            },
            old(cache).shard_idx matches Some(i) ==> old(cache).batches@.len() == 0 && old(
                self,
            ).pool@[i as int].batches@.len() > 0 ==> object.inner.ptr() == old(
                self,
            ).pool@[i as int].batches@.last().ptr() && final(self).factory == old(self).factory,
    {
        let ghost before = *self;
        let ghost cached = held(cache.batches@);
        let ghost shard_idx = cache.shard_idx;
        let idx = self.shard_idx_for_cache(cache);
        let ghost shard = held(self.pool@[idx as int].batches@);
        let mut reused: usize = 0;
        let mut allocated: usize = 0;
        let mut allocated_bytes: usize = 0;
        let returnable = match self.pool[idx].pop() {
            Some(batch) => {
                reused = 1;
                batch
            },
            None => {
                let (size, batch) = self.factory.allocate();
                allocated = 1;
                allocated_bytes = size;
                batch
            },
        };
        let ghost rest = held(self.pool@[idx as int].batches@);
        let ghost made = self.factory;
        let ghost mut moved: int = 0;
        let mut open = true;
        proof {
            if shard.len() > 0 {
                assert(rest =~= shard.drop_last());
            } else {
                assert(rest =~= shard);
            }
            assert(rest.take(rest.len() as int) =~= rest);
            assert(cached + rest.subrange(rest.len() as int, rest.len() as int).reverse()
                =~= cached);
        }
        while open && cache.batches.len() < TLS_CAP / 2
            invariant
                self.serves(cache),
                idx < SHARDS_PER_POOL,
                cache.shard_idx == Some(idx),
                before.same_other_shards(self, idx as int),
                self.factory == made,
                self.next_shard == before.next_shard_after(shard_idx),
                self.stats == before.stats,
                0 <= moved <= rest.len(),
                moved <= 255,
                reused == (if shard.len() > 0 {
                    1 + moved
                } else {
                    0
                }),
                shard.len() > 0 ==> rest == shard.drop_last(),
                shard.len() == 0 ==> rest.len() == 0,
                held(self.pool@[idx as int].batches@) == rest.take(rest.len() - moved),
                held(cache.batches@) == cached + rest.subrange(
                    rest.len() - moved,
                    rest.len() as int,
                ).reverse(),
                moved > 0 ==> cached.len() + moved <= TLS_CAP / 2,
                !open ==> moved == rest.len(),
            decreases TLS_CAP - cache.batches@.len(), open as int,
        {
            let ghost pooled = self.pool@[idx as int].batches@;
            match self.pool[idx].pop() {
                Some(batch) => {
                    proof {
                        assert(held(pooled).last() == (batch.ptr(), batch.inner()));
                        assert(held(pooled.drop_last()) =~= rest.take(rest.len() - moved - 1));
                        assert(idle(batch.inner()) == batch.inner());
                    }
                    let _ = cache.push(batch);
                    reused = reused + 1;
                    proof {
                        moved = moved + 1;
                        assert(held(cache.batches@) =~= cached + rest.subrange(
                            rest.len() - moved,
                            rest.len() as int,
                        ).reverse());
                        assert(held(cache.batches@).len() == cache.batches@.len());
                    }
                },
                None => {
                    open = false;
                    proof {
                        assert(held(pooled).len() == 0);
                    }
                },
            }
        }
        self.stats.tls_misses = self.stats.tls_misses.wrapping_add(1);
        if allocated != 0 {
            self.stats.allocations = self.stats.allocations.wrapping_add(allocated);
            self.stats.allocated_bytes = self.stats.allocated_bytes.wrapping_add(allocated_bytes);
        }
        if reused != 0 {
            self.stats.global_batches_reused = self.stats.global_batches_reused.wrapping_add(
                reused,
            );
        }
        proof {
            let n = shard.len() as int;
            assert(held(cache.batches@).len() == cache.batches@.len());
            if n > 0 {
                assert(moved == Self::hydrated(n, cached.len() as int));
                assert(rest.take(rest.len() - moved) =~= shard.take(n - 1 - moved));
                assert(rest.subrange(rest.len() - moved, rest.len() as int) =~= shard.subrange(
                    n - 1 - moved,
                    n - 1,
                ));
            } else {
                assert(rest =~= shard);
                assert(held(cache.batches@) =~= cached);
                assert(held(self.pool@[idx as int].batches@) =~= shard);
            }
        }
        BatchObject::acquire(returnable)
    }

    /// Gets a batch for the calling thread, which owns it alone: from the
    /// thread's cache, or as `refill_tls_cache` says.
    pub fn acquire(
        &mut self,
        cache: &mut ThreadBatchCache<TLS_CAP, TLS_TARGET_RETAINED, F::Allocation>,
    ) -> (object: BatchObject<UnCommitted, F::Allocation>)
        requires
            old(self).serves(old(cache)),
        ensures
            final(self).serves(final(cache)),
            if old(cache).batches@.len() > 0 {
                &&& object.inner.ptr() == old(cache).batches@.last().ptr()
                &&& object.inner.inner() == acquired(old(cache).batches@.last().inner())
                &&& final(cache).batches@ == old(cache).batches@.drop_last()
                &&& final(cache).shard_idx == old(cache).shard_idx
                &&& *final(self) == *old(self)
            } else {
                Self::refills(*old(self), *old(cache), *final(self), *final(cache), object)
            },
            old(cache).shard_idx matches Some(i) ==> {
                &&& final(cache).shard_idx == Some(i)
                &&& final(self).next_shard == old(self).next_shard
                &&& final(self).pool@.len() == old(self).pool@.len()
                &&& forall|k: int|
                    0 <= k < old(self).pool@.len() && k != i ==> #[trigger] final(self).pool@[k]
                        == old(self).pool@[k]
            },
            old(cache).shard_idx matches Some(i) ==> old(cache).batches@.len() == 0 && old(
                self,
            ).pool@[i as int].batches@.len() > 0 ==> object.inner.ptr() == old(
                self,
            ).pool@[i as int].batches@.last().ptr() && final(self).factory == old(self).factory,
            object.inner.inner().runtime_commit_state is Acquired,
            old(cache).batches@.len() > 0 ==> {
                &&& object.inner.ptr() == old(cache).batches@.last().ptr()
                &&& final(cache).batches@ == old(cache).batches@.drop_last()
                &&& *final(self) == *old(self)
            },
    {
        match self.try_acquire_from_tls(cache) {
            Some(object) => object,
            None => self.refill_tls_cache(cache),
        }
    }

    /// Puts a batch back into the thread's cache, or gives it back, in use,
    /// where the cache is full.
    pub fn try_return_to_cache(
        &self,
        batch: BatchObject<UnCommitted, F::Allocation>,
        cache: &mut ThreadBatchCache<TLS_CAP, TLS_TARGET_RETAINED, F::Allocation>,
    ) -> (result: std::result::Result<(), BatchObject<UnCommitted, F::Allocation>>)
        requires
            old(cache).wf(),
            batch.inner.inner().wf(),
        ensures
            final(cache).wf(),
            final(cache).shard_idx == old(cache).shard_idx,
            if old(cache).batches@.len() == TLS_CAP {
                &&& result matches Err(object) && object.inner.ptr() == batch.inner.ptr()
                    && object.inner.inner() == acquired(batch.inner.inner())
                &&& final(cache).batches@ == old(cache).batches@
            } else {
                &&& result is Ok
                &&& held(final(cache).batches@) == held(old(cache).batches@).push(
                    (batch.inner.ptr(), idle(batch.inner.inner())),
                )
            },
    {
        match cache.push(batch.into_inner()) {
            Ok(()) => Ok(()),
            Err(entry) => Err(BatchObject::acquire(entry)),
        }
    }

    /// How many of `spilled` batches a shard that holds `pooled` has room for.
    pub open spec fn accepted(pooled: int, spilled: int) -> int {
        let room = MAX_BATCH_PER_SHARD - pooled;
        if spilled < room {
            spilled
        } else {
            room
        }
    }

    /// What a release of `batch`, named `ptr`, does: from `before` and the
    /// thread's `cache` to `after` and `returned`.
    ///
    /// The batch ends up in the thread's cache. Where that was full, it first
    /// spills to the thread's shard what is above its target, and what the
    /// shard has no room for is dropped.
    pub open spec fn releases(
        before: Self,
        cache: ThreadBatchCache<TLS_CAP, TLS_TARGET_RETAINED, F::Allocation>,
        ptr: BatchPtr,
        batch: BatchInner,
        after: Self,
        returned: ThreadBatchCache<TLS_CAP, TLS_TARGET_RETAINED, F::Allocation>,
    ) -> bool {
        let cached = held(cache.batches@);
        let kept = held(returned.batches@);
        &&& after.serves(&returned)
        &&& kept.len() > 0
        &&& kept.last().0 == ptr
        &&& kept.last().1.cleared(idle(batch))
        &&& after.factory == before.factory
        &&& if cached.len() < TLS_CAP {
            &&& kept.drop_last() == cached
            &&& returned.shard_idx == cache.shard_idx
            &&& after == before
        } else {
            let idx = before.shard_of(cache.shard_idx);
            let shard = held(before.pool@[idx].batches@);
            let spilled = cached.skip(TLS_TARGET_RETAINED - 1).reverse();
            let taken = Self::accepted(shard.len() as int, spilled.len() as int);
            &&& kept.drop_last() == cached.take(TLS_TARGET_RETAINED - 1)
            &&& held(after.pool@[idx].batches@) == shard + spilled.take(taken)
            &&& returned.shard_idx == Some(idx as usize)
            &&& after.next_shard == before.next_shard_after(cache.shard_idx)
            &&& before.same_other_shards(&after, idx)
            &&& after.stats == (BatchPoolStats {
                batches_dropped: wrapping(
                    before.stats.batches_dropped,
                    spilled.len() - taken,
                ) as usize,
                ..before.stats
            })
        }
    }

    /// Takes back a batch that nobody else can reach any more, and empties it.
    /// A batch that had grown large hands memory back, as `retention` says. How
    /// much memory the allocator then keeps is left unsaid.
    #[verifier::spinoff_prover]
    #[verifier::rlimit(40)]
    pub fn release<B: BatchCommitState>(
        &mut self,
        batch: BatchObject<B, F::Allocation>,
        cache: &mut ThreadBatchCache<TLS_CAP, TLS_TARGET_RETAINED, F::Allocation>,
    )
        requires
            old(self).serves(old(cache)),
            batch.inner.inner().wf(),
            batch::reset_safe(batch.inner.inner().runtime_commit_state),
        ensures
            Self::releases(
                *old(self),
                *old(cache),
                batch.inner.ptr(),
                batch.inner.inner(),
                *final(self),
                *final(cache),
            ),
            final(cache).batches@.len() > 0,
            final(cache).batches@.last().ptr() == batch.inner.ptr(),
            old(cache).shard_idx matches Some(i) ==> {
                &&& final(cache).shard_idx == Some(i)
                &&& final(self).next_shard == old(self).next_shard
                &&& final(self).pool@.len() == old(self).pool@.len()
                &&& forall|k: int|
                    0 <= k < old(self).pool@.len() && k != i ==> #[trigger] final(self).pool@[k]
                        == old(self).pool@[k]
            },
    {
        let ghost released = batch.inner.inner();
        let size = batch.as_inner().get_batch_size();
        let mut batch = batch.reset_batch();
        if let Some(kept) = retention(size) {
            batch.shrink_to(kept);
        }
        let entry = batch.into_inner();
        proof {
            assert(idle(entry.inner()).cleared(idle(released)));
        }
        match cache.push(entry) {
            Ok(()) => {
                proof {
                    let kept = held(cache.batches@);
                    assert(kept.drop_last() =~= held(old(cache).batches@));
                    assert(held(old(cache).batches@).len() == old(cache).batches@.len());
                }
            },
            Err(entry) => {
                self.spill_and_keep(entry, cache);
                proof {
                    let cached = held(old(cache).batches@);
                    assert(cached.len() == old(cache).batches@.len());
                    assert(held(cache.batches@).last() == (
                        cache.batches@.last().ptr(),
                        cache.batches@.last().inner(),
                    ));
                    assert(held(cache.batches@).drop_last() =~= cached.take(
                        TLS_TARGET_RETAINED - 1,
                    ));
                }
            },
        }
    }

    /// Makes room in a full cache, and puts `entry` there.
    #[verifier::spinoff_prover]
    #[verifier::rlimit(40)]
    fn spill_and_keep(
        &mut self,
        entry: F::Allocation,
        cache: &mut ThreadBatchCache<TLS_CAP, TLS_TARGET_RETAINED, F::Allocation>,
    )
        requires
            old(self).serves(old(cache)),
            old(cache).batches@.len() == TLS_CAP,
            entry.inner().wf(),
        ensures
            final(self).serves(final(cache)),
            final(self).factory == old(self).factory,
            ({
                let cached = held(old(cache).batches@);
                let idx = old(self).shard_of(old(cache).shard_idx);
                let shard = held(old(self).pool@[idx].batches@);
                let spilled = cached.skip(TLS_TARGET_RETAINED - 1).reverse();
                let taken = Self::accepted(shard.len() as int, spilled.len() as int);
                &&& held(final(cache).batches@) == cached.take(TLS_TARGET_RETAINED - 1).push(
                    (entry.ptr(), idle(entry.inner())),
                )
                &&& held(final(self).pool@[idx].batches@) == shard + spilled.take(taken)
                &&& final(cache).shard_idx == Some(idx as usize)
                &&& final(self).next_shard == old(self).next_shard_after(old(cache).shard_idx)
                &&& old(self).same_other_shards(final(self), idx)
                &&& final(self).stats == (BatchPoolStats {
                    batches_dropped: wrapping(
                        old(self).stats.batches_dropped,
                        spilled.len() - taken,
                    ) as usize,
                    ..old(self).stats
                })
            }),
    {
        let ghost before = *self;
        let ghost cached = held(cache.batches@);
        let ghost shard_idx = cache.shard_idx;
        let idx = self.shard_idx_for_cache(cache);
        let ghost shard = held(self.pool@[idx as int].batches@);
        let mut rest = cache.spill_cache_to_target_retained();
        let ghost out = held(rest@).reverse();
        proof {
            assert(held(cache.batches@) =~= cached.take(TLS_TARGET_RETAINED - 1));
            assert(out =~= cached.skip(TLS_TARGET_RETAINED - 1).reverse());
            assert(shard + out.take(0) =~= shard);
        }
        let ghost total = out.len() as int;
        let ghost mut done: int = 0;
        let mut dropped: usize = 0;
        while rest.len() > 0
            invariant
                self.wf(),
                idx < SHARDS_PER_POOL,
                before.same_other_shards(self, idx as int),
                self.factory == before.factory,
                self.next_shard == before.next_shard_after(shard_idx),
                self.stats == before.stats,
                0 <= done <= total,
                total == out.len(),
                total <= 255,
                rest@.len() == total - done,
                all_idle(rest@),
                held(rest@) == out.reverse().take(total - done),
                shard.len() <= MAX_BATCH_PER_SHARD,
                held(self.pool@[idx as int].batches@) == shard + out.take(
                    Self::accepted(shard.len() as int, done),
                ),
                dropped == done - Self::accepted(shard.len() as int, done),
            decreases rest@.len(),
        {
            let ghost waiting = rest@;
            let ghost pooled = self.pool@[idx as int].batches@;
            if let Some(b) = rest.pop() {
                proof {
                    assert(held(waiting).last() == (b.ptr(), b.inner()));
                    assert(out.reverse().take(total - done).last() == out[done]);
                    assert(held(rest@) =~= held(waiting).drop_last());
                    assert(held(rest@) =~= out.reverse().take(total - done - 1));
                    assert(held(pooled).len() == pooled.len());
                    assert(idle(b.inner()) == b.inner());
                }
                if self.push_to_global(idx, b).is_err() {
                    dropped = dropped + 1;
                }
                proof {
                    done = done + 1;
                    assert(held(self.pool@[idx as int].batches@) =~= shard + out.take(
                        Self::accepted(shard.len() as int, done),
                    ));
                }
            }
        }
        self.stats.batches_dropped = self.stats.batches_dropped.wrapping_add(dropped);
        let _ = cache.push(entry);
    }

    /// What the pool has counted so far.
    pub fn snapshot_stats(&self) -> (stats: BatchPoolStats)
        ensures
            stats == self.stats,
    {
        self.stats
    }
}

/// The pool that the engine uses.
pub type BatchPool = BatchPoolImpl<
    DEFAULT_SHARDS_PER_POOL,
    DEFAULT_MAX_BATCHES_PER_SHARD,
    DEFAULT_THREAD_BATCH_CACHE_CAPACITY,
    DEFAULT_THREAD_BATCH_CACHE_TARGET_RETAINED,
    OwnedBatchFactory,
>;

impl<
    const SHARDS_PER_POOL: usize,
    const MAX_BATCH_PER_SHARD: usize,
    const TLS_CAP: usize,
    const TLS_TARGET_RETAINED: usize,
> BatchPoolImpl<
    SHARDS_PER_POOL,
    MAX_BATCH_PER_SHARD,
    TLS_CAP,
    TLS_TARGET_RETAINED,
    OwnedBatchFactory,
> {
    /// A pool with empty shards, of batches on the heap.
    pub fn new() -> (pool: Self)
        requires
            0 < SHARDS_PER_POOL,
            0 < MAX_BATCH_PER_SHARD <= 255,
        ensures
            pool.wf(),
            forall|i: int|
                0 <= i < SHARDS_PER_POOL ==> (#[trigger] pool.pool@[i]).batches@.len() == 0,
            pool.factory.next == 0,
            pool.next_shard == 0,
            pool.stats == no_stats(),
    {
        Self::new_with_const_size(OwnedBatchFactory { next: 0 })
    }

    /// Gets a batch for the calling thread, to be filled and committed.
    pub fn acquire_batch(
        &mut self,
        cache: &mut ThreadBatchCache<TLS_CAP, TLS_TARGET_RETAINED, OwnedBatchPtr>,
    ) -> (batch: Batch<UnCommitted>)
        requires
            old(self).serves(old(cache)),
        ensures
            final(self).serves(final(cache)),
            if old(cache).batches@.len() > 0 {
                &&& batch.batch.inner.ptr == old(cache).batches@.last().ptr
                &&& *batch.batch.inner.batch == acquired(*old(cache).batches@.last().batch)
                &&& final(cache).batches@ == old(cache).batches@.drop_last()
                &&& final(cache).shard_idx == old(cache).shard_idx
                &&& *final(self) == *old(self)
            } else {
                Self::refills(*old(self), *old(cache), *final(self), *final(cache), batch.batch)
            },
    {
        Batch::new(self.acquire(cache))
    }
}

/// A batch as a caller holds it.
pub struct Batch<S: BatchCommitState> {
    pub batch: BatchObject<S, OwnedBatchPtr>,
}

impl<S: BatchCommitState> Batch<S> {
    pub fn new(batch: BatchObject<S, OwnedBatchPtr>) -> (made: Self)
        ensures
            made.batch == batch,
    {
        Batch { batch }
    }

    pub fn inner(&self) -> (batch: &BatchObject<S, OwnedBatchPtr>)
        ensures
            *batch == self.batch,
    {
        &self.batch
    }

    /// Empties the batch, so that the caller can fill it again. A log sync that
    /// is under way was waited for, and `waited` is what that came to: the batch
    /// can be used again only where it went well.
    pub fn reset(self, waited: std::result::Result<(), WalSyncResultState>) -> (batch: Batch<
        UnCommitted,
    >)
        requires
            self.batch.inner.batch.wf(),
            batch::reset_safe(self.batch.inner.batch.runtime_commit_state),
            batch_object::reusable(self.batch.inner.batch.sync_waiter.state, waited) is Ok,
        ensures
            batch.batch.inner.ptr == self.batch.inner.ptr,
            batch.batch.inner.batch.cleared(
                acquired(batch_object::awaited(*self.batch.inner.batch, waited)),
            ),
            self.batch.inner.batch.sync_waiter.state == WalSyncResultState::Primed
                ==> batch.batch.inner.batch.sync_waiter.state == WalSyncResultState::SyncDone,
    {
        let mut batch = self;
        let _ = batch.wait(waited);
        Batch { batch: batch.batch.reset_batch() }
    }

    /// Says whether the log is done with the batch, as
    /// `BatchObject::wait_until_reusable` does.
    pub fn wait(&mut self, waited: std::result::Result<(), WalSyncResultState>) -> (result: Result<
        (),
    >)
        ensures
            result == batch_object::reusable(
                old(self).batch.inner.batch.sync_waiter.state,
                waited,
            ),
            *final(self).batch.inner.batch == batch_object::awaited(
                *old(self).batch.inner.batch,
                waited,
            ),
            final(self).batch.inner.ptr == old(self).batch.inner.ptr,
    {
        self.batch.wait_until_reusable(waited)
    }

    /// Gives the batch back to the pool. A log sync that is under way was waited
    /// for, and `waited` is what that came to: a batch whose sync went well goes
    /// back with its sync done, and where the log failed, the batch does not go
    /// back.
    pub fn close<
        const SHARDS_PER_POOL: usize,
        const MAX_BATCH_PER_SHARD: usize,
        const TLS_CAP: usize,
        const TLS_TARGET_RETAINED: usize,
    >(
        self,
        pool: &mut BatchPoolImpl<
            SHARDS_PER_POOL,
            MAX_BATCH_PER_SHARD,
            TLS_CAP,
            TLS_TARGET_RETAINED,
            OwnedBatchFactory,
        >,
        cache: &mut ThreadBatchCache<TLS_CAP, TLS_TARGET_RETAINED, OwnedBatchPtr>,
        waited: std::result::Result<(), WalSyncResultState>,
    ) -> (result: Result<()>)
        requires
            old(pool).serves(old(cache)),
            self.batch.inner.batch.wf(),
            batch::reset_safe(self.batch.inner.batch.runtime_commit_state),
        ensures
            result == batch_object::reusable(self.batch.inner.batch.sync_waiter.state, waited),
            if result is Ok {
                BatchPoolImpl::<
                    SHARDS_PER_POOL,
                    MAX_BATCH_PER_SHARD,
                    TLS_CAP,
                    TLS_TARGET_RETAINED,
                    OwnedBatchFactory,
                >::releases(
                    *old(pool),
                    *old(cache),
                    self.batch.inner.ptr,
                    batch_object::awaited(*self.batch.inner.batch, waited),
                    *final(pool),
                    *final(cache),
                )
            } else {
                *final(pool) == *old(pool) && *final(cache) == *old(cache)
            },
    {
        let mut batch = self;
        match batch.wait(waited) {
            Ok(()) => {
                pool.release(batch.batch, cache);
                Ok(())
            },
            Err(error) => Err(error),
        }
    }
}

impl Batch<UnCommitted> {
    /// Adds an operation that puts `value` under `key` in the default column
    /// family. Where the batch does not take the record, it is as it was.
    pub fn put(&mut self, key: &[u8], value: &[u8])
        requires
            old(self).batch.inner.batch.wf(),
        ensures
            final(self).batch.inner.ptr == old(self).batch.inner.ptr,
            match batch::put_error(*old(self).batch.inner.batch, key@.len(), value@.len()) {
                Some(_) => *final(self).batch.inner.batch == *old(self).batch.inner.batch,
                None => batch::appended(
                    *old(self).batch.inner.batch,
                    *final(self).batch.inner.batch,
                    Record {
                        kind: BatchRecordKind::Put,
                        cf_id: DEFAULT_CF_ID,
                        key: key@,
                        value: value@,
                    },
                ),
            },
    {
        self.batch.put(key, value);
    }

    /// Closes the batch: from here on it takes no operations.
    pub fn seal(self) -> (batch: Batch<Sealed>)
        ensures
            batch.batch.inner == self.batch.inner,
    {
        Batch { batch: self.batch.seal() }
    }
}

impl SealedBatch for Batch<Sealed> {
    open spec fn sealed_ptr(&self) -> BatchPtr {
        self.batch.inner.ptr
    }

    fn batch_ptr(&self) -> (ptr: BatchPtr) {
        self.batch.as_non_null()
    }
}

/// The names of the batches in a row.
pub open spec fn names(entries: Seq<(BatchPtr, BatchInner)>) -> Seq<BatchPtr> {
    entries.map_values(|entry: (BatchPtr, BatchInner)| entry.0)
}

/// A release loses no batch and makes none: those in the thread's cache and its
/// shard, with those that were dropped, are the ones from before with the one
/// that was released.
#[verifier::spinoff_prover]
#[verifier::rlimit(40)]
pub proof fn law_release_keeps_every_batch<
    const SHARDS_PER_POOL: usize,
    const MAX_BATCH_PER_SHARD: usize,
    const TLS_CAP: usize,
    const TLS_TARGET_RETAINED: usize,
    F: BatchFactory,
>(
    before: BatchPoolImpl<
        SHARDS_PER_POOL,
        MAX_BATCH_PER_SHARD,
        TLS_CAP,
        TLS_TARGET_RETAINED,
        F,
    >,
    cache: ThreadBatchCache<TLS_CAP, TLS_TARGET_RETAINED, F::Allocation>,
    ptr: BatchPtr,
    batch: BatchInner,
    after: BatchPoolImpl<
        SHARDS_PER_POOL,
        MAX_BATCH_PER_SHARD,
        TLS_CAP,
        TLS_TARGET_RETAINED,
        F,
    >,
    returned: ThreadBatchCache<TLS_CAP, TLS_TARGET_RETAINED, F::Allocation>,
)
    requires
        before.serves(&cache),
        BatchPoolImpl::<
            SHARDS_PER_POOL,
            MAX_BATCH_PER_SHARD,
            TLS_CAP,
            TLS_TARGET_RETAINED,
            F,
        >::releases(before, cache, ptr, batch, after, returned),
    ensures
        ({
            let idx = before.shard_of(cache.shard_idx);
            let there = names(held(cache.batches@)) + names(held(before.pool@[idx].batches@));
            let now = names(held(returned.batches@)) + names(held(after.pool@[idx].batches@));
            exists|dropped: Seq<BatchPtr>|
                {
                    &&& #[trigger] (now + dropped).to_multiset() == there.push(ptr).to_multiset()
                    &&& after.stats.batches_dropped == wrapping(
                        before.stats.batches_dropped,
                        dropped.len() as int,
                    )
                }
        }),
{
    let idx = before.shard_of(cache.shard_idx);
    let cached = held(cache.batches@);
    let shard = held(before.pool@[idx].batches@);
    let kept = held(returned.batches@);
    let pooled = held(after.pool@[idx].batches@);
    let there = names(cached) + names(shard);
    let now = names(kept) + names(pooled);
    let last = seq![ptr];
    if cached.len() < TLS_CAP {
        let dropped = Seq::<BatchPtr>::empty();
        assert(names(kept) =~= names(cached) + last);
        assert(now + dropped =~= names(cached) + last + names(shard));
        assert(there.push(ptr) =~= names(cached) + names(shard) + last);
        lemma_multiset_sums(names(cached), last, names(shard));
        lemma_multiset_sums(names(cached), names(shard), last);
        assert((now + dropped).to_multiset() =~= there.push(ptr).to_multiset());
    } else {
        let at = TLS_TARGET_RETAINED - 1;
        let low = names(cached.take(at));
        let high = names(cached.skip(at));
        let spilled = cached.skip(at).reverse();
        let taken = BatchPoolImpl::<
            SHARDS_PER_POOL,
            MAX_BATCH_PER_SHARD,
            TLS_CAP,
            TLS_TARGET_RETAINED,
            F,
        >::accepted(shard.len() as int, spilled.len() as int);
        let dropped = names(spilled.skip(taken));
        assert(held(before.pool@[idx].batches@).len() == before.pool@[idx].batches@.len());
        assert(names(kept) =~= low + last);
        assert(names(pooled) =~= names(shard) + names(spilled.take(taken)));
        assert(names(spilled.take(taken)) + dropped =~= high.reverse());
        assert(now + dropped =~= low + last + (names(shard) + high.reverse()));
        assert(there.push(ptr) =~= low + high + (names(shard) + last));
        lemma_multiset_sums(low, last, names(shard) + high.reverse());
        lemma_multiset_sums(names(shard), high.reverse(), Seq::empty());
        lemma_multiset_sums(low, high, names(shard) + last);
        lemma_multiset_sums(names(shard), last, Seq::empty());
        assert(names(shard) + high.reverse() + Seq::<BatchPtr>::empty() =~= names(shard)
            + high.reverse());
        assert(names(shard) + last + Seq::<BatchPtr>::empty() =~= names(shard) + last);
        lemma_reverse_multiset(high);
        assert((now + dropped).to_multiset() =~= there.push(ptr).to_multiset());
    }
}

/// A refill loses no batch: those in the thread's cache and its shard, with the
/// one that the caller got from there, are the ones from before.
#[verifier::spinoff_prover]
#[verifier::rlimit(40)]
pub proof fn law_refill_keeps_every_batch<
    const SHARDS_PER_POOL: usize,
    const MAX_BATCH_PER_SHARD: usize,
    const TLS_CAP: usize,
    const TLS_TARGET_RETAINED: usize,
    F: BatchFactory,
>(
    before: BatchPoolImpl<
        SHARDS_PER_POOL,
        MAX_BATCH_PER_SHARD,
        TLS_CAP,
        TLS_TARGET_RETAINED,
        F,
    >,
    cache: ThreadBatchCache<TLS_CAP, TLS_TARGET_RETAINED, F::Allocation>,
    after: BatchPoolImpl<
        SHARDS_PER_POOL,
        MAX_BATCH_PER_SHARD,
        TLS_CAP,
        TLS_TARGET_RETAINED,
        F,
    >,
    refilled: ThreadBatchCache<TLS_CAP, TLS_TARGET_RETAINED, F::Allocation>,
    object: BatchObject<UnCommitted, F::Allocation>,
)
    requires
        before.serves(&cache),
        BatchPoolImpl::<
            SHARDS_PER_POOL,
            MAX_BATCH_PER_SHARD,
            TLS_CAP,
            TLS_TARGET_RETAINED,
            F,
        >::refills(before, cache, after, refilled, object),
    ensures
        ({
            let idx = before.shard_of(cache.shard_idx);
            let there = names(held(cache.batches@)) + names(held(before.pool@[idx].batches@));
            let now = names(held(refilled.batches@)) + names(held(after.pool@[idx].batches@));
            if before.pool@[idx].batches@.len() == 0 {
                now == there
            } else {
                now.push(object.inner.ptr()).to_multiset() == there.to_multiset()
            }
        }),
{
    let idx = before.shard_of(cache.shard_idx);
    let cached = held(cache.batches@);
    let shard = held(before.pool@[idx].batches@);
    let kept = held(refilled.batches@);
    let left = held(after.pool@[idx].batches@);
    let there = names(cached) + names(shard);
    let now = names(kept) + names(left);
    assert(shard.len() == before.pool@[idx].batches@.len());
    if shard.len() > 0 {
        let n = shard.len() as int;
        let moved = BatchPoolImpl::<
            SHARDS_PER_POOL,
            MAX_BATCH_PER_SHARD,
            TLS_CAP,
            TLS_TARGET_RETAINED,
            F,
        >::hydrated(n, cached.len() as int);
        assert(cached.len() == cache.batches@.len());
        let middle = names(shard.subrange(n - 1 - moved, n - 1));
        let last = seq![object.inner.ptr()];
        assert(names(kept) =~= names(cached) + middle.reverse());
        assert(now.push(object.inner.ptr()) =~= names(cached) + middle.reverse() + (names(left)
            + last));
        assert(names(shard) =~= names(left) + middle + last);
        assert(there =~= names(cached) + (names(left) + middle) + last);
        lemma_multiset_sums(names(cached), middle.reverse(), names(left) + last);
        lemma_multiset_sums(names(left), last, Seq::empty());
        assert(names(left) + last + Seq::<BatchPtr>::empty() =~= names(left) + last);
        lemma_multiset_sums(names(cached), names(left) + middle, last);
        lemma_multiset_sums(names(left), middle, Seq::empty());
        assert(names(left) + middle + Seq::<BatchPtr>::empty() =~= names(left) + middle);
        lemma_reverse_multiset(middle);
        assert(now.push(object.inner.ptr()).to_multiset() =~= there.to_multiset());
    } else {
        assert(now =~= there);
    }
}

/// A thread stays with its shard. A cache that is assigned to the shard `i`, or
/// whose turn is to get it, is assigned to it after a refill; the refill takes from
/// no other shard, assigns no shard to a cache that has one, and gives the batch on top of the shard `i`, without making
/// one, wherever that shard has one.
pub proof fn law_refill_stays_with_the_shard<
    const SHARDS_PER_POOL: usize,
    const MAX_BATCH_PER_SHARD: usize,
    const TLS_CAP: usize,
    const TLS_TARGET_RETAINED: usize,
    F: BatchFactory,
>(
    before: BatchPoolImpl<
        SHARDS_PER_POOL,
        MAX_BATCH_PER_SHARD,
        TLS_CAP,
        TLS_TARGET_RETAINED,
        F,
    >,
    cache: ThreadBatchCache<TLS_CAP, TLS_TARGET_RETAINED, F::Allocation>,
    after: BatchPoolImpl<
        SHARDS_PER_POOL,
        MAX_BATCH_PER_SHARD,
        TLS_CAP,
        TLS_TARGET_RETAINED,
        F,
    >,
    refilled: ThreadBatchCache<TLS_CAP, TLS_TARGET_RETAINED, F::Allocation>,
    object: BatchObject<UnCommitted, F::Allocation>,
    i: usize,
)
    requires
        before.serves(&cache),
        match cache.shard_idx {
            Some(idx) => i == idx,
            None => i == before.next_shard as int % SHARDS_PER_POOL as int,
        },
        BatchPoolImpl::<
            SHARDS_PER_POOL,
            MAX_BATCH_PER_SHARD,
            TLS_CAP,
            TLS_TARGET_RETAINED,
            F,
        >::refills(before, cache, after, refilled, object),
    ensures
        refilled.shard_idx == Some(i),
        cache.shard_idx is Some ==> after.next_shard == before.next_shard,
        after.pool@.len() == before.pool@.len(),
        forall|k: int|
            0 <= k < before.pool@.len() && k != i ==> #[trigger] after.pool@[k] == before.pool@[k],
        before.pool@[i as int].batches@.len() > 0 ==> {
            let top = before.pool@[i as int].batches@.last();
            &&& object.inner.ptr() == top.ptr()
            &&& object.inner.inner() == (BatchInner {
                runtime_commit_state: BatchRuntimeState::Acquired,
                ..top.inner()
            })
            &&& after.factory == before.factory
            &&& after.stats.allocations == before.stats.allocations
            &&& after.stats.allocated_bytes == before.stats.allocated_bytes
        },
        before.pool@[i as int].batches@.len() == 0 ==> {
            &&& object.inner.ptr() == before.factory.upcoming()
            &&& after.factory == before.factory.advanced()
            &&& after.pool@[i as int].batches@.len() == 0
        },
{
    let shard = before.pool@[i as int].batches@;
    assert(held(shard).len() == shard.len());
    assert(held(after.pool@[i as int].batches@).len() == after.pool@[i as int].batches@.len());
    if shard.len() > 0 {
        assert(held(shard)[shard.len() - 1] == (shard.last().ptr(), shard.last().inner()));
    }
}

/// A thread stays with its shard when it gives a batch back too: a cache that is
/// assigned to the shard `i` stays assigned to it, what it spills goes to no other
/// shard, and nobody else is assigned one. A cache with room spills nothing.
pub proof fn law_release_stays_with_the_shard<
    const SHARDS_PER_POOL: usize,
    const MAX_BATCH_PER_SHARD: usize,
    const TLS_CAP: usize,
    const TLS_TARGET_RETAINED: usize,
    F: BatchFactory,
>(
    before: BatchPoolImpl<
        SHARDS_PER_POOL,
        MAX_BATCH_PER_SHARD,
        TLS_CAP,
        TLS_TARGET_RETAINED,
        F,
    >,
    cache: ThreadBatchCache<TLS_CAP, TLS_TARGET_RETAINED, F::Allocation>,
    ptr: BatchPtr,
    batch: BatchInner,
    after: BatchPoolImpl<
        SHARDS_PER_POOL,
        MAX_BATCH_PER_SHARD,
        TLS_CAP,
        TLS_TARGET_RETAINED,
        F,
    >,
    returned: ThreadBatchCache<TLS_CAP, TLS_TARGET_RETAINED, F::Allocation>,
    i: usize,
)
    requires
        before.serves(&cache),
        cache.shard_idx == Some(i),
        BatchPoolImpl::<
            SHARDS_PER_POOL,
            MAX_BATCH_PER_SHARD,
            TLS_CAP,
            TLS_TARGET_RETAINED,
            F,
        >::releases(before, cache, ptr, batch, after, returned),
    ensures
        returned.shard_idx == Some(i),
        after.next_shard == before.next_shard,
        after.factory == before.factory,
        after.pool@.len() == before.pool@.len(),
        forall|k: int|
            0 <= k < before.pool@.len() && k != i ==> #[trigger] after.pool@[k] == before.pool@[k],
        cache.batches@.len() < TLS_CAP ==> after == before,
{
    assert(held(cache.batches@).len() == cache.batches@.len());
}

/// Threads are assigned to the shards in turn: a cache without a shard gets the one
/// that is next, and the turn passes on by one. So of as many threads as there are
/// shards that come one after the other, no two share a shard.
pub proof fn law_shards_are_assigned_in_turn<
    const SHARDS_PER_POOL: usize,
    const MAX_BATCH_PER_SHARD: usize,
    const TLS_CAP: usize,
    const TLS_TARGET_RETAINED: usize,
    F: BatchFactory,
>(
    before: BatchPoolImpl<
        SHARDS_PER_POOL,
        MAX_BATCH_PER_SHARD,
        TLS_CAP,
        TLS_TARGET_RETAINED,
        F,
    >,
    cache: ThreadBatchCache<TLS_CAP, TLS_TARGET_RETAINED, F::Allocation>,
    after: BatchPoolImpl<
        SHARDS_PER_POOL,
        MAX_BATCH_PER_SHARD,
        TLS_CAP,
        TLS_TARGET_RETAINED,
        F,
    >,
    refilled: ThreadBatchCache<TLS_CAP, TLS_TARGET_RETAINED, F::Allocation>,
    object: BatchObject<UnCommitted, F::Allocation>,
)
    requires
        before.serves(&cache),
        cache.shard_idx is None,
        before.next_shard < usize::MAX,
        BatchPoolImpl::<
            SHARDS_PER_POOL,
            MAX_BATCH_PER_SHARD,
            TLS_CAP,
            TLS_TARGET_RETAINED,
            F,
        >::refills(before, cache, after, refilled, object),
    ensures
        refilled.shard_idx == Some((before.next_shard as int % SHARDS_PER_POOL as int) as usize),
        after.next_shard == before.next_shard + 1,
{
}

/// What a refill leaves where. The cache comes to half its size at most, unless it
/// held more before, and only as far as the shard has batches: where the cache is
/// below half afterwards, the shard is empty. Nothing that the cache held is lost,
/// and what is added came from the top of the shard, so the shard keeps its lower
/// part as it was.
pub proof fn law_refill_fills_half_the_cache<
    const SHARDS_PER_POOL: usize,
    const MAX_BATCH_PER_SHARD: usize,
    const TLS_CAP: usize,
    const TLS_TARGET_RETAINED: usize,
    F: BatchFactory,
>(
    before: BatchPoolImpl<
        SHARDS_PER_POOL,
        MAX_BATCH_PER_SHARD,
        TLS_CAP,
        TLS_TARGET_RETAINED,
        F,
    >,
    cache: ThreadBatchCache<TLS_CAP, TLS_TARGET_RETAINED, F::Allocation>,
    after: BatchPoolImpl<
        SHARDS_PER_POOL,
        MAX_BATCH_PER_SHARD,
        TLS_CAP,
        TLS_TARGET_RETAINED,
        F,
    >,
    refilled: ThreadBatchCache<TLS_CAP, TLS_TARGET_RETAINED, F::Allocation>,
    object: BatchObject<UnCommitted, F::Allocation>,
    i: usize,
)
    requires
        before.serves(&cache),
        match cache.shard_idx {
            Some(idx) => i == idx,
            None => i == before.next_shard as int % SHARDS_PER_POOL as int,
        },
        BatchPoolImpl::<
            SHARDS_PER_POOL,
            MAX_BATCH_PER_SHARD,
            TLS_CAP,
            TLS_TARGET_RETAINED,
            F,
        >::refills(before, cache, after, refilled, object),
    ensures
        ({
            let shard = held(before.pool@[i as int].batches@);
            let left = held(after.pool@[i as int].batches@);
            let had = held(cache.batches@);
            let has = held(refilled.batches@);
            let got = has.len() - had.len();
            &&& has.len() >= had.len()
            &&& has.take(had.len() as int) == had
            &&& got > 0 ==> 2 * has.len() <= TLS_CAP
            &&& 2 * (has.len() + 1) <= TLS_CAP ==> left.len() == 0
            &&& left == shard.take(left.len() as int)
            &&& shard.len() > 0 ==> left.len() + got + 1 == shard.len()
            &&& shard.len() == 0 ==> got == 0
            &&& forall|k: int|
                0 <= k < got ==> #[trigger] has[had.len() + k] == shard[shard.len() - 2 - k]
        }),
{
    let shard = held(before.pool@[i as int].batches@);
    let left = held(after.pool@[i as int].batches@);
    let had = held(cache.batches@);
    let has = held(refilled.batches@);
    assert(had.len() == cache.batches@.len());
    assert(shard.len() == before.pool@[i as int].batches@.len());
    assert(has.take(had.len() as int) =~= had);
    if shard.len() > 0 {
        assert(left =~= shard.take(left.len() as int));
    } else {
        assert(left =~= shard.take(0));
    }
}

/// The pool counts what it does. Each refill is one miss. A batch that comes from
/// the factory counts as one allocation, of the twelve bytes that it holds; one that
/// comes from the shard counts as used again, and so does each that moves from the
/// shard to the cache. Nothing is dropped.
pub proof fn law_refill_is_counted<
    const SHARDS_PER_POOL: usize,
    const MAX_BATCH_PER_SHARD: usize,
    const TLS_CAP: usize,
    const TLS_TARGET_RETAINED: usize,
    F: BatchFactory,
>(
    before: BatchPoolImpl<
        SHARDS_PER_POOL,
        MAX_BATCH_PER_SHARD,
        TLS_CAP,
        TLS_TARGET_RETAINED,
        F,
    >,
    cache: ThreadBatchCache<TLS_CAP, TLS_TARGET_RETAINED, F::Allocation>,
    after: BatchPoolImpl<
        SHARDS_PER_POOL,
        MAX_BATCH_PER_SHARD,
        TLS_CAP,
        TLS_TARGET_RETAINED,
        F,
    >,
    refilled: ThreadBatchCache<TLS_CAP, TLS_TARGET_RETAINED, F::Allocation>,
    object: BatchObject<UnCommitted, F::Allocation>,
    i: usize,
)
    requires
        before.serves(&cache),
        match cache.shard_idx {
            Some(idx) => i == idx,
            None => i == before.next_shard as int % SHARDS_PER_POOL as int,
        },
        BatchPoolImpl::<
            SHARDS_PER_POOL,
            MAX_BATCH_PER_SHARD,
            TLS_CAP,
            TLS_TARGET_RETAINED,
            F,
        >::refills(before, cache, after, refilled, object),
        before.stats.tls_misses < usize::MAX,
        before.stats.allocations < usize::MAX,
        before.stats.allocated_bytes + 12 <= usize::MAX,
        before.stats.global_batches_reused + MAX_BATCH_PER_SHARD <= usize::MAX,
    ensures
        ({
            let shard = before.pool@[i as int].batches@.len();
            let left = after.pool@[i as int].batches@.len();
            let made = if shard == 0 {
                1int
            } else {
                0
            };
            &&& after.stats.tls_misses == before.stats.tls_misses + 1
            &&& after.stats.allocations == before.stats.allocations + made
            &&& after.stats.allocated_bytes == before.stats.allocated_bytes + 12 * made
            &&& after.stats.global_batches_reused == before.stats.global_batches_reused + (shard
                - left)
            &&& after.stats.batches_dropped == before.stats.batches_dropped
            &&& shard == 0 ==> object.inner.inner().data@.len() == 12
        }),
{
    assert(held(before.pool@[i as int].batches@).len() == before.pool@[i as int].batches@.len());
    assert(held(after.pool@[i as int].batches@).len() == after.pool@[i as int].batches@.len());
    assert(held(cache.batches@).len() == cache.batches@.len());
    assert(before.pool@[i as int].wf());
}

/// What a release leaves where. The batch that is given back is on top of the
/// thread's cache, so the next acquire gets it. A full cache keeps the oldest of
/// what it held, one fewer than its target, and the rest goes to the shard from the
/// newest on, as far as the shard has room; nothing that was in the shard moves.
pub proof fn law_release_spills_the_newest<
    const SHARDS_PER_POOL: usize,
    const MAX_BATCH_PER_SHARD: usize,
    const TLS_CAP: usize,
    const TLS_TARGET_RETAINED: usize,
    F: BatchFactory,
>(
    before: BatchPoolImpl<
        SHARDS_PER_POOL,
        MAX_BATCH_PER_SHARD,
        TLS_CAP,
        TLS_TARGET_RETAINED,
        F,
    >,
    cache: ThreadBatchCache<TLS_CAP, TLS_TARGET_RETAINED, F::Allocation>,
    ptr: BatchPtr,
    batch: BatchInner,
    after: BatchPoolImpl<
        SHARDS_PER_POOL,
        MAX_BATCH_PER_SHARD,
        TLS_CAP,
        TLS_TARGET_RETAINED,
        F,
    >,
    returned: ThreadBatchCache<TLS_CAP, TLS_TARGET_RETAINED, F::Allocation>,
    i: usize,
)
    requires
        before.serves(&cache),
        match cache.shard_idx {
            Some(idx) => i == idx,
            None => i == before.next_shard as int % SHARDS_PER_POOL as int,
        },
        BatchPoolImpl::<
            SHARDS_PER_POOL,
            MAX_BATCH_PER_SHARD,
            TLS_CAP,
            TLS_TARGET_RETAINED,
            F,
        >::releases(before, cache, ptr, batch, after, returned),
    ensures
        ({
            let shard = held(before.pool@[i as int].batches@);
            let now = held(after.pool@[i as int].batches@);
            let had = held(cache.batches@);
            let has = held(returned.batches@);
            let moved = now.len() - shard.len();
            &&& has.len() > 0
            &&& has.last().0 == ptr
            &&& has.last().1.records@.len() == 0
            &&& has.last().1.data@.len() == 0
            &&& has.last().1.runtime_commit_state == BatchRuntimeState::Idle
            &&& had.len() < TLS_CAP ==> has.drop_last() == had && now == shard
            &&& had.len() == TLS_CAP ==> {
                let spilled = TLS_CAP - (TLS_TARGET_RETAINED - 1);
                &&& has.len() == TLS_TARGET_RETAINED
                &&& has.drop_last() == had.take(TLS_TARGET_RETAINED - 1)
                &&& now.take(shard.len() as int) == shard
                &&& 0 <= moved <= spilled
                &&& moved < spilled ==> now.len() == MAX_BATCH_PER_SHARD
                &&& now.len() <= MAX_BATCH_PER_SHARD
                &&& forall|k: int|
                    0 <= k < moved ==> #[trigger] now[shard.len() + k] == had[TLS_CAP - 1 - k]
                &&& before.stats.batches_dropped + (spilled - moved) <= usize::MAX
                    ==> after.stats.batches_dropped == before.stats.batches_dropped + (spilled
                    - moved)
            }
        }),
{
    let shard = held(before.pool@[i as int].batches@);
    let now = held(after.pool@[i as int].batches@);
    let had = held(cache.batches@);
    let has = held(returned.batches@);
    assert(had.len() == cache.batches@.len());
    assert(has.len() == returned.batches@.len());
    assert(shard.len() == before.pool@[i as int].batches@.len());
    assert(now.len() == after.pool@[i as int].batches@.len());
    assert(has.last().1.cleared(idle(batch)));
    if had.len() < TLS_CAP {
        assert(after == before);
    } else {
        let moved = now.len() - shard.len();
        let spilled = had.skip(TLS_TARGET_RETAINED - 1).reverse();
        assert(now.take(shard.len() as int) =~= shard);
        assert(has.drop_last().len() == TLS_TARGET_RETAINED - 1);
        assert(spilled.len() == TLS_CAP - (TLS_TARGET_RETAINED - 1));
        assert forall|k: int| 0 <= k < moved implies #[trigger] now[shard.len() + k] == had[TLS_CAP
            - 1 - k] by {
            assert(now[shard.len() + k] == spilled[k]);
        }
    }
}

/// A batch that a thread gives back is the one that it gets next: after a release,
/// the thread's next acquire finds its cache not empty, and the top of it is the
/// batch that was given back, emptied, with its limit and its waiter as they were.
pub proof fn law_released_batch_comes_back<
    const SHARDS_PER_POOL: usize,
    const MAX_BATCH_PER_SHARD: usize,
    const TLS_CAP: usize,
    const TLS_TARGET_RETAINED: usize,
    F: BatchFactory,
>(
    before: BatchPoolImpl<
        SHARDS_PER_POOL,
        MAX_BATCH_PER_SHARD,
        TLS_CAP,
        TLS_TARGET_RETAINED,
        F,
    >,
    cache: ThreadBatchCache<TLS_CAP, TLS_TARGET_RETAINED, F::Allocation>,
    ptr: BatchPtr,
    batch: BatchInner,
    after: BatchPoolImpl<
        SHARDS_PER_POOL,
        MAX_BATCH_PER_SHARD,
        TLS_CAP,
        TLS_TARGET_RETAINED,
        F,
    >,
    returned: ThreadBatchCache<TLS_CAP, TLS_TARGET_RETAINED, F::Allocation>,
)
    requires
        before.serves(&cache),
        BatchPoolImpl::<
            SHARDS_PER_POOL,
            MAX_BATCH_PER_SHARD,
            TLS_CAP,
            TLS_TARGET_RETAINED,
            F,
        >::releases(before, cache, ptr, batch, after, returned),
    ensures
        returned.batches@.len() > 0,
        returned.batches@.last().ptr() == ptr,
        ({
            let back = returned.batches@.last().inner();
            &&& back.data@.len() == 0
            &&& back.count == 0
            &&& back.records@.len() == 0
            &&& back.max_batch_size == batch.max_batch_size
            &&& back.sync_waiter == batch.sync_waiter
            &&& back.batch_meta.first_seen_cf_id == 0 && !back.batch_meta.multiple_cf_ids
            &&& back.cf_table.len == 0 && back.cf_table.vec@.len() == 0
            &&& back.runtime_commit_state == BatchRuntimeState::Idle
        }),
{
    let kept = held(returned.batches@);
    assert(kept.len() == returned.batches@.len());
    assert(kept.last() == (returned.batches@.last().ptr(), returned.batches@.last().inner()));
}

/// What three rows hold is what they hold together.
proof fn lemma_multiset_sums(a: Seq<BatchPtr>, b: Seq<BatchPtr>, c: Seq<BatchPtr>)
    ensures
        (a + b + c).to_multiset() =~= a.to_multiset().add(b.to_multiset()).add(c.to_multiset()),
{
    vstd::seq_lib::lemma_multiset_commutative(a, b);
    vstd::seq_lib::lemma_multiset_commutative(a + b, c);
}

/// A row holds the same from its end.
proof fn lemma_reverse_multiset(a: Seq<BatchPtr>)
    ensures
        a.reverse().to_multiset() == a.to_multiset(),
    decreases a.len(),
{
    broadcast use vstd::seq_lib::group_to_multiset_ensures;

    if a.len() > 0 {
        let front = a.drop_last();
        lemma_reverse_multiset(front);
        assert(a.reverse() =~= seq![a.last()] + front.reverse());
        vstd::seq_lib::lemma_multiset_commutative(seq![a.last()], front.reverse());
        assert(front.push(a.last()) =~= a);
        assert(seq![a.last()] =~= Seq::<BatchPtr>::empty().push(a.last()));
        assert(a.reverse().to_multiset() =~= a.to_multiset());
    } else {
        assert(a.reverse() =~= a);
    }
}

/// Counts count on, and wrap around at the end of their range.
pub proof fn law_counts_wrap_around(a: usize, b: usize)
    ensures
        0 <= wrapping(a, b as int) <= usize::MAX,
        a + b <= usize::MAX ==> wrapping(a, b as int) == a + b,
        a + b > usize::MAX ==> wrapping(a, b as int) == a + b - usize::MAX - 1,
{
}

/// Batches at rest are at rest: whatever a cache holds, or a shard of the pool that it is
/// used with, is well formed and in nobody's hands, and there are no more of them than
/// there is room for.
pub proof fn law_pooled_batches_rest<
    const SHARDS_PER_POOL: usize,
    const MAX_BATCH_PER_SHARD: usize,
    const TLS_CAP: usize,
    const TLS_TARGET_RETAINED: usize,
    F: BatchFactory,
>(
    pool: BatchPoolImpl<SHARDS_PER_POOL, MAX_BATCH_PER_SHARD, TLS_CAP, TLS_TARGET_RETAINED, F>,
    cache: ThreadBatchCache<TLS_CAP, TLS_TARGET_RETAINED, F::Allocation>,
    shard: int,
    i: int,
)
    requires
        pool.serves(&cache),
        0 <= shard < SHARDS_PER_POOL,
    ensures
        cache.batches@.len() <= TLS_CAP,
        pool.pool@.len() == SHARDS_PER_POOL,
        pool.pool@[shard].batches@.len() <= MAX_BATCH_PER_SHARD,
        cache.shard_idx matches Some(idx) ==> idx < SHARDS_PER_POOL,
        0 <= i < cache.batches@.len() ==> cache.batches@[i].inner().runtime_commit_state is Idle
            && cache.batches@[i].inner().wf(),
        0 <= i < pool.pool@[shard].batches@.len()
            ==> pool.pool@[shard].batches@[i].inner().runtime_commit_state is Idle
            && pool.pool@[shard].batches@[i].inner().wf(),
{
    assert(pool.pool@[shard].wf());
}

} // verus!
