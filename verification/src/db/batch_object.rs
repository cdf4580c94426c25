//! Who owns a batch, and what the owner may do with it.

use crate::db::batch::{self, BatchInner, BatchRecordKind, BatchRuntimeState};
use crate::db::record::Record;
use crate::db::DEFAULT_CF_ID;
use crate::error::{Error, Result};
use crate::wal::WalSyncResultState;
use std::marker::PhantomData;
use vstd::prelude::*;

verus! {

/// What tells one batch's allocation from another's.
///
/// It stays the same for as long as the allocation lives, and names the batch
/// to those who do not own it.
#[derive(Debug, Clone, Copy, PartialEq, Eq, Hash, Structural)]
pub struct BatchPtr(pub u64);

/// Whether a batch still takes operations.
pub trait BatchCommitState {

}

/// The batch takes operations.
#[derive(Debug)]
pub struct UnCommitted {}

impl BatchCommitState for UnCommitted {

}

/// The batch is closed, and may be committed.
#[derive(Debug)]
pub struct Sealed {}

impl BatchCommitState for Sealed {

}

/// A batch that can be handed to the pipeline.
pub trait SealedBatch {
    /// The batch's name.
    spec fn sealed_ptr(&self) -> BatchPtr;

    fn batch_ptr(&self) -> (ptr: BatchPtr)
        ensures
            ptr == self.sealed_ptr(),
    ;
}

/// An allocation that holds a batch.
pub trait BatchAllocation: Sized {
    /// The batch.
    spec fn inner(&self) -> BatchInner;

    /// The batch's name.
    spec fn ptr(&self) -> BatchPtr;

    fn batch_ptr(&self) -> (ptr: BatchPtr)
        ensures
            ptr == self.ptr(),
    ;

    fn batch(&self) -> (batch: &BatchInner)
        ensures
            *batch == self.inner(),
    ;

    fn batch_mut(&mut self) -> (batch: &mut BatchInner)
        ensures
            *batch == old(self).inner(),
            final(self).inner() == *final(batch),
            final(self).ptr() == old(self).ptr(),
    ;

    /// Empties what the allocation holds, so that it can be used again.
    fn reset_for_reuse(&mut self)
        requires
            batch::reset_safe(old(self).inner().runtime_commit_state),
            old(self).inner().wf(),
        ensures
            final(self).inner().cleared(old(self).inner()),
            final(self).ptr() == old(self).ptr(),
    ;
}

/// A batch on the heap.
///
/// At any time an allocation is in one place: in a thread's cache, in a shard of
/// the pool, or with an active `BatchObject`.
pub struct OwnedBatchPtr {
    pub ptr: BatchPtr,
    pub batch: Box<BatchInner>,
}

impl OwnedBatchPtr {
    /// The allocation `ptr`, which holds `batch`.
    pub fn new(ptr: BatchPtr, batch: Box<BatchInner>) -> (owned: Self)
        ensures
            owned.ptr == ptr,
            *owned.batch == *batch,
    {
        OwnedBatchPtr { ptr, batch }
    }

    /// The batch's name.
    pub fn as_non_null(&self) -> (ptr: BatchPtr)
        ensures
            ptr == self.ptr,
    {
        self.ptr
    }
}

impl BatchAllocation for OwnedBatchPtr {
    open spec fn inner(&self) -> BatchInner {
        *self.batch
    }

    open spec fn ptr(&self) -> BatchPtr {
        self.ptr
    }

    fn batch_ptr(&self) -> (ptr: BatchPtr) {
        self.ptr
    }

    fn batch(&self) -> (batch: &BatchInner) {
        &*self.batch
    }

    fn batch_mut(&mut self) -> (batch: &mut BatchInner) {
        &mut *self.batch
    }

    fn reset_for_reuse(&mut self) {
        self.batch.clear();
    }
}

/// Makes an allocation when a pool has none to use again.
pub trait BatchFactory: Sized {
    type Allocation: BatchAllocation;

    /// The name of the next allocation.
    spec fn upcoming(&self) -> BatchPtr;

    /// The factory after it has made one.
    spec fn advanced(&self) -> Self;

    /// Makes an allocation with an empty batch, and says how many bytes the
    /// batch comes to.
    fn allocate(&mut self) -> (made: (usize, Self::Allocation))
        ensures
            made.1.inner().fresh(),
            made.1.ptr() == old(self).upcoming(),
            made.0 == made.1.inner().data@.len(),
            *final(self) == old(self).advanced(),
    ;

    /// As `allocate`, with room for `cap` bytes of operations.
    fn allocate_with_capacity(&mut self, cap: usize) -> (made: (usize, Self::Allocation))
        requires
            cap + 12 <= batch::MAX_BATCH_SIZE,
        ensures
            made.1.inner().fresh(),
            made.1.ptr() == old(self).upcoming(),
            made.0 == made.1.inner().data@.len(),
            *final(self) == old(self).advanced(),
    ;
}

/// Makes batches on the heap, and numbers them.
#[derive(Debug)]
pub struct OwnedBatchFactory {
    pub next: u64,
}

impl Default for OwnedBatchFactory {
    fn default() -> (factory: Self)
        ensures
            factory.next == 0,
    {
        OwnedBatchFactory { next: 0 }
    }
}

impl OwnedBatchFactory {
    /// The next name. Names wrap around at the end of their range.
    fn next_ptr(&mut self) -> (ptr: BatchPtr)
        ensures
            ptr == BatchPtr(old(self).next),
            final(self).next == (old(self).next + 1) % 0x1_0000_0000_0000_0000,
    {
        let ptr = BatchPtr(self.next);
        self.next = self.next.wrapping_add(1);
        ptr
    }
}

impl BatchFactory for OwnedBatchFactory {
    type Allocation = OwnedBatchPtr;

    open spec fn upcoming(&self) -> BatchPtr {
        BatchPtr(self.next)
    }

    open spec fn advanced(&self) -> Self {
        OwnedBatchFactory { next: ((self.next + 1) % 0x1_0000_0000_0000_0000) as u64 }
    }

    fn allocate(&mut self) -> (made: (usize, OwnedBatchPtr)) {
        let ptr = self.next_ptr();
        let batch = Box::new(BatchInner::new());
        (batch.data.len(), OwnedBatchPtr::new(ptr, batch))
    }

    fn allocate_with_capacity(&mut self, cap: usize) -> (made: (usize, OwnedBatchPtr)) {
        let ptr = self.next_ptr();
        let batch = Box::new(BatchInner::new_with_capacity(cap));
        (batch.data.len(), OwnedBatchPtr::new(ptr, batch))
    }
}

/// The batch after its log sync was waited for: a sync that was under way has
/// ended, and came to `waited`.
pub open spec fn awaited(
    batch: BatchInner,
    waited: std::result::Result<(), WalSyncResultState>,
) -> BatchInner {
    if batch.sync_waiter.state == WalSyncResultState::Primed {
        let state = match waited {
            Ok(()) => WalSyncResultState::SyncDone,
            Err(WalSyncResultState::IoError) => WalSyncResultState::IoError,
            Err(_) => WalSyncResultState::WalError,
        };
        BatchInner { sync_waiter: crate::wal::SyncLogWaiter { state }, ..batch }
    } else {
        batch
    }
}

/// A batch is used again only when no log sync of it is under way: after the
/// wait, none was ever asked for, or the last one went well. A wait that failed
/// stays failed.
pub proof fn law_reused_batch_awaits_no_sync(
    batch: BatchInner,
    waited: std::result::Result<(), WalSyncResultState>,
    again: std::result::Result<(), WalSyncResultState>,
)
    ensures
        reusable(batch.sync_waiter.state, waited) is Ok <==> {
            ||| awaited(batch, waited).sync_waiter.state == WalSyncResultState::Init
            ||| awaited(batch, waited).sync_waiter.state == WalSyncResultState::SyncDone
        },
        reusable(awaited(batch, waited).sync_waiter.state, again) == reusable(
            batch.sync_waiter.state,
            waited,
        ),
{
}

/// The result of waiting until the log is done with a batch whose sync is in
/// `state`. Where the sync is under way, it is what the wait came to.
pub open spec fn reusable(
    state: WalSyncResultState,
    waited: std::result::Result<(), WalSyncResultState>,
) -> Result<()> {
    match state {
        WalSyncResultState::Init | WalSyncResultState::SyncDone => Ok(()),
        WalSyncResultState::Primed => match waited {
            Ok(()) => Ok(()),
            Err(_) => Err(Error::WalError),
        },
        WalSyncResultState::IoError | WalSyncResultState::WalError => Err(Error::WalError),
    }
}

/// A batch in use: the type says whether it still takes operations.
pub struct BatchObject<B: BatchCommitState, P: BatchAllocation> {
    pub state: PhantomData<B>,
    pub inner: P,
}

impl<B: BatchCommitState, P: BatchAllocation> BatchObject<B, P> {
    /// The same batch under another type.
    fn transition<S: BatchCommitState>(self) -> (object: BatchObject<S, P>)
        ensures
            object.inner == self.inner,
    {
        BatchObject { state: PhantomData, inner: self.inner }
    }

    /// The batch.
    pub fn as_inner(&self) -> (batch: &BatchInner)
        ensures
            *batch == self.inner.inner(),
    {
        self.inner.batch()
    }

    /// The batch's name.
    pub fn as_non_null(&self) -> (ptr: BatchPtr)
        ensures
            ptr == self.inner.ptr(),
    {
        self.inner.batch_ptr()
    }

    /// Stores where in its life the batch is.
    pub fn set_runtime_state(&mut self, state: BatchRuntimeState)
        ensures
            final(self).inner.inner() == (BatchInner {
                runtime_commit_state: state,
                ..old(self).inner.inner()
            }),
            final(self).inner.ptr() == old(self).inner.ptr(),
    {
        self.inner.batch_mut().set_runtime_state(state);
    }

    /// Where in its life the batch is.
    pub fn state(&self) -> (state: BatchRuntimeState)
        ensures
            state == self.inner.inner().runtime_commit_state,
    {
        self.inner.batch().runtime_commit_state
    }

    /// Whether the batch is there in its life.
    pub fn is_state(&self, state: BatchRuntimeState) -> (is: bool)
        ensures
            is == (self.inner.inner().runtime_commit_state == state),
    {
        self.inner.batch().runtime_commit_state == state
    }

    /// Says whether the log is done with the batch, so that it may be used
    /// again. A sync that is under way must be waited for; `waited` is what that
    /// came to, and the batch's waiter then says so. It is not looked at otherwise.
    pub fn wait_until_reusable(
        &mut self,
        waited: std::result::Result<(), WalSyncResultState>,
    ) -> (result: Result<()>)
        ensures
            result == reusable(old(self).inner.inner().sync_waiter.state, waited),
            final(self).inner.inner() == awaited(old(self).inner.inner(), waited),
            final(self).inner.ptr() == old(self).inner.ptr(),
            match old(self).inner.inner().sync_waiter.state {
                WalSyncResultState::Init => result is Ok && final(self).inner.inner() == old(
                    self,
                ).inner.inner(),
                WalSyncResultState::SyncDone => result is Ok && final(self).inner.inner() == old(
                    self,
                ).inner.inner(),
                WalSyncResultState::Primed => {
                    &&& result is Ok <==> waited is Ok
                    &&& final(self).inner.inner().sync_waiter.state is SyncDone <==> waited is Ok
                    &&& !(final(self).inner.inner().sync_waiter.state is Primed)
                },
                _ => result is Err && final(self).inner.inner() == old(self).inner.inner(),
            },
            result matches Err(error) ==> error is WalError,
    {
        match self.inner.batch().sync_waiter_state() {
            WalSyncResultState::Init => Ok(()),
            WalSyncResultState::Primed => match waited {
                Ok(()) => {
                    self.inner.batch_mut().sync_waiter.signal(WalSyncResultState::SyncDone);
                    Ok(())
                },
                Err(WalSyncResultState::IoError) => {
                    self.inner.batch_mut().sync_waiter.signal(WalSyncResultState::IoError);
                    Err(Error::WalError)
                },
                Err(_) => {
                    self.inner.batch_mut().sync_waiter.signal(WalSyncResultState::WalError);
                    Err(Error::WalError)
                },
            },
            WalSyncResultState::SyncDone => Ok(()),
            WalSyncResultState::IoError | WalSyncResultState::WalError => Err(Error::WalError),
        }
    }

    /// Whether the batch may be reset now.
    pub fn can_reset(&self) -> (can: bool)
        ensures
            can == batch::reset_safe(self.inner.inner().runtime_commit_state),
            can <==> self.inner.inner().runtime_commit_state is Acquired
                || self.inner.inner().runtime_commit_state is Applied,
    {
        self.state().is_reset_safe()
    }

    /// Empties the batch for use at once. Its buffer keeps its memory.
    pub fn reset_batch(self) -> (object: BatchObject<UnCommitted, P>)
        requires
            self.inner.inner().wf(),
            batch::reset_safe(self.inner.inner().runtime_commit_state),
        ensures
            object.inner.inner().cleared(
                BatchInner {
                    runtime_commit_state: BatchRuntimeState::Acquired,
                    ..self.inner.inner()
                },
            ),
            object.inner.ptr() == self.inner.ptr(),
    {
        let mut object = self;
        object.inner.reset_for_reuse();
        object.set_runtime_state(BatchRuntimeState::Acquired);
        object.transition()
    }
}

impl BatchObject<UnCommitted, OwnedBatchPtr> {
    /// An empty batch in the allocation `ptr`.
    pub fn new(ptr: BatchPtr) -> (object: Self)
        ensures
            object.inner.batch.fresh(),
            object.inner.ptr == ptr,
    {
        BatchObject {
            state: PhantomData,
            inner: OwnedBatchPtr::new(ptr, Box::new(BatchInner::new())),
        }
    }

    /// An empty batch in the allocation `ptr`, with room for `cap` bytes of
    /// operations.
    pub fn new_with_capacity(ptr: BatchPtr, cap: usize) -> (object: Self)
        requires
            cap + 12 <= batch::MAX_BATCH_SIZE,
        ensures
            object.inner.batch.fresh(),
            object.inner.ptr == ptr,
    {
        BatchObject {
            state: PhantomData,
            inner: OwnedBatchPtr::new(ptr, Box::new(BatchInner::new_with_capacity(cap))),
        }
    }

    /// Adds an operation that puts `value` under `key` in the default column
    /// family. Where the batch does not take the record, it is as it was.
    pub fn put(&mut self, key: &[u8], value: &[u8])
        requires
            old(self).inner.batch.wf(),
        ensures
            final(self).inner.ptr == old(self).inner.ptr,
            match batch::put_error(*old(self).inner.batch, key@.len(), value@.len()) {
                Some(_) => *final(self).inner.batch == *old(self).inner.batch,
                None => batch::appended(
                    *old(self).inner.batch,
                    *final(self).inner.batch,
                    Record {
                        kind: BatchRecordKind::Put,
                        cf_id: DEFAULT_CF_ID,
                        key: key@,
                        value: value@,
                    },
                ),
            },
            ({
                let key_width: int = if key@.len() < 0x80 {
                    1
                } else if key@.len() < 0x4000 {
                    2
                } else {
                    3
                };
                let value_width: int = if value@.len() < 0x80 {
                    1
                } else if value@.len() < 0x4000 {
                    2
                } else if value@.len() < 0x20_0000 {
                    3
                } else if value@.len() < 0x1000_0000 {
                    4
                } else {
                    5
                };
                let size = 9 + key_width + key@.len() + value_width + value@.len();
                let current = if old(self).inner.batch.data@.len() == 0 {
                    12
                } else {
                    old(self).inner.batch.data@.len() as int
                };
                key@.len() <= 0x1_0000 && value@.len() <= 0xffff_ffff && current + size <= old(self).inner.batch.max_batch_size
            }) ==> final(self).inner.batch.records@ == old(self).inner.batch.records@.push(
                Record {
                    kind: BatchRecordKind::Put,
                    cf_id: 0,
                    key: key@,
                    value: value@,
                },
            ),
    {
        proof {
            batch::law_record_that_fits_is_taken(*self.inner.batch, key.len(), value.len());
        }
        self.put_cf(Self::default_cf(), key, value);
    }

    /// As `put`, in the column family `cf_id`.
    pub fn put_cf(&mut self, cf_id: u64, key: &[u8], value: &[u8])
        requires
            old(self).inner.batch.wf(),
        ensures
            final(self).inner.ptr == old(self).inner.ptr,
            match batch::put_error(*old(self).inner.batch, key@.len(), value@.len()) {
                Some(_) => *final(self).inner.batch == *old(self).inner.batch,
                None => batch::appended(
                    *old(self).inner.batch,
                    *final(self).inner.batch,
                    Record { kind: BatchRecordKind::Put, cf_id, key: key@, value: value@ },
                ),
            },
            ({
                let key_width: int = if key@.len() < 0x80 {
                    1
                } else if key@.len() < 0x4000 {
                    2
                } else {
                    3
                };
                let value_width: int = if value@.len() < 0x80 {
                    1
                } else if value@.len() < 0x4000 {
                    2
                } else if value@.len() < 0x20_0000 {
                    3
                } else if value@.len() < 0x1000_0000 {
                    4
                } else {
                    5
                };
                let size = 9 + key_width + key@.len() + value_width + value@.len();
                let current = if old(self).inner.batch.data@.len() == 0 {
                    12
                } else {
                    old(self).inner.batch.data@.len() as int
                };
                key@.len() <= 0x1_0000 && value@.len() <= 0xffff_ffff && current + size <= old(self).inner.batch.max_batch_size
            }) ==> final(self).inner.batch.records@ == old(self).inner.batch.records@.push(
                Record {
                    kind: BatchRecordKind::Put,
                    cf_id,
                    key: key@,
                    value: value@,
                },
            ),
    {
        let _ = self.inner.batch.put(cf_id, key, value);
    }
}

impl<P: BatchAllocation> BatchObject<UnCommitted, P> {
    /// The column family that a put goes to unless told otherwise.
    pub fn default_cf() -> (cf_id: u64)
        ensures
            cf_id == DEFAULT_CF_ID,
    {
        DEFAULT_CF_ID
    }

    /// Takes an allocation into use.
    pub fn acquire(inner: P) -> (object: Self)
        ensures
            object.inner.inner() == (BatchInner {
                runtime_commit_state: BatchRuntimeState::Acquired,
                ..inner.inner()
            }),
            object.inner.ptr() == inner.ptr(),
    {
        let mut object = BatchObject { state: PhantomData, inner };
        object.set_runtime_state(BatchRuntimeState::Acquired);
        object
    }

    /// The allocation.
    pub fn into_inner(self) -> (inner: P)
        ensures
            inner == self.inner,
    {
        self.inner
    }

    /// Says that the batch is in use.
    pub fn set_acquired_state(&mut self)
        ensures
            final(self).inner.inner() == (BatchInner {
                runtime_commit_state: BatchRuntimeState::Acquired,
                ..old(self).inner.inner()
            }),
            final(self).inner.ptr() == old(self).inner.ptr(),
    {
        self.set_runtime_state(BatchRuntimeState::Acquired);
    }

    /// Closes the batch: from here on it takes no operations.
    pub fn seal(self) -> (object: BatchObject<Sealed, P>)
        ensures
            object.inner == self.inner,
    {
        BatchObject { state: PhantomData, inner: self.inner }
    }

    /// Makes room for `new_size` more bytes. The contents stay. How much memory the
    /// allocator gives is left unsaid; no buffer is larger than `isize::MAX` bytes.
    pub fn resize_to(&mut self, new_size: usize)
        requires
            old(self).inner.inner().data@.len() + new_size <= isize::MAX,
        ensures
            batch::same_contents(old(self).inner.inner(), final(self).inner.inner()),
            final(self).inner.ptr() == old(self).inner.ptr(),
    {
        self.inner.batch_mut().data.reserve(new_size);
    }

    /// Hands back memory down to `new_size` bytes. The contents stay. How much
    /// memory is kept is up to the allocator, and is left unsaid.
    pub fn shrink_to(&mut self, new_size: usize)
        ensures
            batch::same_contents(old(self).inner.inner(), final(self).inner.inner()),
            final(self).inner.ptr() == old(self).inner.ptr(),
    {
        self.inner.batch_mut().shrink_batch_to(new_size);
    }
}

/// A batch as an environment sees it that prepares or applies it.
pub struct BatchRef<'env> {
    pub batch: &'env BatchInner,
}

impl<'env> BatchRef<'env> {
    /// A view of `batch`.
    pub fn from_batch(batch: &'env BatchInner) -> (view: Self)
        ensures
            *view.batch == *batch,
    {
        BatchRef { batch }
    }
}

/// What a wait for the log comes to: a batch for which no sync was asked, or whose sync
/// is done, can be used again at once; one whose sync is under way exactly when the wait
/// went well; and one whose sync failed never. Only the waiter changes, and only where
/// the sync was under way: it then says what the wait came to.
pub proof fn law_wait_for_the_log(
    batch: BatchInner,
    waited: std::result::Result<(), WalSyncResultState>,
)
    ensures
        batch.sync_waiter.state is Init || batch.sync_waiter.state is SyncDone ==> {
            &&& reusable(batch.sync_waiter.state, waited) is Ok
            &&& awaited(batch, waited) == batch
        },
        batch.sync_waiter.state is IoError || batch.sync_waiter.state is WalError ==> {
            &&& reusable(batch.sync_waiter.state, waited) == Err::<(), Error>(Error::WalError)
            &&& awaited(batch, waited) == batch
        },
        batch.sync_waiter.state is Primed ==> {
            &&& reusable(batch.sync_waiter.state, waited) is Ok <==> waited is Ok
            &&& waited is Ok <==> awaited(batch, waited).sync_waiter.state is SyncDone
            &&& waited is Err ==> reusable(batch.sync_waiter.state, waited) == Err::<(), Error>(
                Error::WalError,
            )
            &&& waited == Err::<(), WalSyncResultState>(WalSyncResultState::IoError) ==> awaited(
                batch,
                waited,
            ).sync_waiter.state is IoError
            &&& waited == Err::<(), WalSyncResultState>(WalSyncResultState::WalError) ==> awaited(
                batch,
                waited,
            ).sync_waiter.state is WalError
        },
        awaited(batch, waited).data == batch.data,
        awaited(batch, waited).records == batch.records,
        awaited(batch, waited).count == batch.count,
        awaited(batch, waited).max_batch_size == batch.max_batch_size,
        awaited(batch, waited).runtime_commit_state == batch.runtime_commit_state,
{
}

/// A factory gives each batch another name: names count on from the first, and as long as
/// they do not wrap around no two are the same.
pub proof fn law_factory_counts_its_batches(factory: OwnedBatchFactory)
    ensures
        factory.upcoming() == BatchPtr(factory.next),
        factory.advanced().upcoming() != factory.upcoming(),
        factory.next < u64::MAX ==> factory.advanced().next == factory.next + 1,
        factory.next == u64::MAX ==> factory.advanced().next == 0,
{
}

} // verus!
