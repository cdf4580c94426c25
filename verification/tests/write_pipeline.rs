use ordinum::db::batch::BatchInner;
use ordinum::db::batch_object::{
    BatchAllocation, BatchObject, BatchPtr, BatchRef, OwnedBatchPtr, Sealed, UnCommitted,
};
use ordinum::db::db::DB;
use ordinum::db::write_pipeline::{
    BatchQueue, DequeueStep, EnqueueStep, HeadTail, PipelineAdmission, ReserveStep, ReserveWait, WritePipeline,
    WriterEnv,
};
use ordinum::thread_local_storage::registry::ThreadRegistry;
use ordinum::version::SeqNumState;
use ordinum::wal::SyncSem;
use ordinum::{Error, Result};
use std::sync::Arc;

struct EnvStub;

impl WriterEnv for EnvStub {
    fn apply_commit<'env>(&self, _batch: &'env BatchRef<'env>) -> Result<()> {
        Ok(())
    }
    fn prepare_commit<'env>(&self, _batch: &'env BatchRef<'env>) -> Result<()> {
        Ok(())
    }
}

/// Refuses batches that hold nothing.
struct Picky;

impl WriterEnv for Picky {
    fn apply_commit<'env>(&self, _batch: &'env BatchRef<'env>) -> Result<()> {
        Ok(())
    }
    fn prepare_commit<'env>(&self, batch: &'env BatchRef<'env>) -> Result<()> {
        if batch.batch.get_batch_count() == 0 {
            Err(Error::Shutdown)
        } else {
            Ok(())
        }
    }
}

fn pipeline_of<const N: usize, E: WriterEnv>(env: E) -> WritePipeline<N, E> {
    WritePipeline::new_with_size(Arc::new(env), SeqNumState::default(), SyncSem::default())
}

fn sealed(name: u64, operations: u32) -> BatchObject<Sealed, OwnedBatchPtr> {
    let mut batch = BatchObject::<UnCommitted, OwnedBatchPtr>::new(BatchPtr(name));
    for _ in 0..operations {
        batch.put(b"key", b"value");
    }
    batch.seal()
}

#[test]
fn enqueue_batch() {
    let batch = sealed(11, 0);
    let b_ptr = batch.as_non_null();

    let mut batch_q = BatchQueue::<4>::new();

    batch_q.enqueue(b_ptr);

    assert!(batch_q.slots[0] == Some(batch.as_non_null()));
    let (h, _) = HeadTail::unpack_unchecked(batch_q.head_tail.raw());
    assert!(h == 1);
}

#[test]
fn two_consumers_race_dequeue() {
    let mut queue = BatchQueue::<2>::new();
    queue.enqueue(BatchPtr(1));
    queue.enqueue(BatchPtr(2));

    // The first batch is the only applied one. Whoever comes first takes it, and
    // exactly one consumer takes a batch.
    let applied = |batch: BatchPtr| batch == BatchPtr(1);
    let first = queue.try_dequeue(applied);
    let second = queue.try_dequeue(applied);
    assert_eq!(first, Some(BatchPtr(1)));
    assert_eq!(second, None);
}

#[test]
fn dequeue_preserves_fifo_order() {
    let mut queue = BatchQueue::<4>::new();
    for name in 0..4 {
        queue.enqueue(BatchPtr(name));
    }
    assert!(BatchQueue::<4>::is_full(queue.head_tail));
    for name in 0..4 {
        assert_eq!(queue.try_dequeue(|_| true), Some(BatchPtr(name)));
    }
    assert_eq!(queue.try_dequeue(|_| true), None);
}

#[test]
fn applied_later_batch_does_not_skip_unapplied_head() {
    let mut queue = BatchQueue::<4>::new();
    queue.enqueue(BatchPtr(1));
    queue.enqueue(BatchPtr(2));
    assert_eq!(queue.try_dequeue(|batch| batch == BatchPtr(2)), None);
    assert_eq!(queue.try_dequeue(|_| true), Some(BatchPtr(1)));
    assert_eq!(queue.try_dequeue(|batch| batch == BatchPtr(2)), Some(BatchPtr(2)));
}

#[test]
fn wraparound_reuses_cleared_slots() {
    let mut queue = BatchQueue::<2>::new();
    queue.head_tail = HeadTail::pack(u32::MAX, u32::MAX);
    for name in 0..7 {
        queue.enqueue(BatchPtr(name));
        assert_eq!(queue.try_dequeue(|_| true), Some(BatchPtr(name)));
        assert_eq!(queue.slots, vec![None, None]);
    }
    assert_eq!(queue.head_tail.unpack(), (6, 6));
    assert_eq!(queue.size(), 2);
}

#[test]
fn head_and_tail_share_a_word() {
    let positions = HeadTail::pack(5, 1);
    assert_eq!(positions.raw(), 0x5_0000_0001);
    assert_eq!(positions.unpack(), (5, 1));
    assert_eq!(HeadTail::from_raw(0xffff_ffff_0000_0002).unpack(), (u32::MAX, 2));
    assert!(BatchQueue::<4>::is_full(positions));
    assert!(!BatchQueue::<8>::is_full(positions));
    assert!(BatchQueue::<4>::is_full(HeadTail::pack(1, u32::MAX - 2)));
    assert_eq!(BatchQueue::<4>::slot_index(7), 3);
}

#[test]
fn steps_of_a_consumer() {
    type Queue = BatchQueue<4>;
    let positions = HeadTail::pack(5, u32::MAX);
    let batch = Some(BatchPtr(1));
    assert_eq!(Queue::dequeue_step(HeadTail::pack(3, 3), batch, true), DequeueStep::Nothing);
    assert_eq!(Queue::dequeue_step(positions, None, true), DequeueStep::Nothing);
    assert_eq!(Queue::dequeue_step(positions, batch, false), DequeueStep::Nothing);
    assert_eq!(
        Queue::dequeue_step(positions, batch, true),
        DequeueStep::Claim { next: HeadTail::pack(5, 0) }
    );
}

#[test]
fn steps_of_the_producer() {
    type Queue = BatchQueue<4>;
    let batch = Some(BatchPtr(1));
    assert_eq!(Queue::enqueue_step(HeadTail::pack(5, 1), None), EnqueueStep::Full);
    assert_eq!(Queue::enqueue_step(HeadTail::pack(5, 1), batch), EnqueueStep::Full);
    assert_eq!(Queue::enqueue_step(HeadTail::pack(5, 2), batch), EnqueueStep::Wait);
    assert_eq!(
        Queue::enqueue_step(HeadTail::pack(u32::MAX, u32::MAX - 3), None),
        EnqueueStep::Store { next: HeadTail::pack(0, u32::MAX - 3) }
    );
}

#[test]
fn a_producer_waits_for_a_slot_to_be_cleared() {
    let mut queue = BatchQueue::<2>::new();
    queue.enqueue(BatchPtr(1));
    queue.enqueue(BatchPtr(2));
    assert_eq!(queue.try_enqueue(BatchPtr(3)), EnqueueStep::Full);

    // A consumer has taken the first batch, and has not cleared its slot.
    assert_eq!(queue.claim(|_| false), None);
    assert_eq!(queue.claim(|_| true), Some((BatchPtr(1), 0)));
    assert_eq!(queue.try_enqueue(BatchPtr(3)), EnqueueStep::Wait);
    assert_eq!(queue.slots, vec![Some(BatchPtr(1)), Some(BatchPtr(2))]);
    assert_eq!(queue.head_tail, HeadTail::pack(2, 1));

    queue.clear(0);
    assert_eq!(
        queue.try_enqueue(BatchPtr(3)),
        EnqueueStep::Store { next: HeadTail::pack(3, 1) }
    );
    assert_eq!(queue.slots, vec![Some(BatchPtr(3)), Some(BatchPtr(2))]);
    assert_eq!(queue.try_dequeue(|_| true), Some(BatchPtr(2)));
    assert_eq!(queue.try_dequeue(|_| true), Some(BatchPtr(3)));
}

#[test]
fn try_reserve() {
    let env = Arc::new(EnvStub {});

    let mut wp = WritePipeline::<1, EnvStub>::new_with_size(env, SeqNumState::default(), SyncSem::default());

    assert!(wp.batch_queue.size() == 1);

    assert!(wp.try_reserve_space());
    assert!(!wp.try_reserve_space());
    assert_eq!(wp.commit_sem.available_permits(), 0);

    // A waiting thread polls, then sleeps, until room comes back.
    let mut wait = ReserveWait::new();
    for _ in 0..200 {
        assert_eq!(wp.reserve_space(&mut wait), ReserveStep::Spin);
    }
    assert_eq!(wp.reserve_space(&mut wait), ReserveStep::Block);

    wp.release_queue_space();
    assert_eq!(wp.reserve_space(&mut wait), ReserveStep::Reserved);
    assert_eq!(wp.commit_sem.available_permits(), 0);
    wp.release_queue_space();

    assert_eq!(wp.commit_sem.available_permits(), 1);
}

#[test]
fn reserve_release_simple() {
    let mut wp = pipeline_of::<1, EnvStub>(EnvStub);
    let mut first = ReserveWait::new();
    let mut second = ReserveWait::new();
    assert_eq!(wp.reserve_space(&mut first), ReserveStep::Reserved);
    assert_eq!(wp.reserve_space(&mut second), ReserveStep::Spin);
    wp.release_queue_space();
    assert_eq!(wp.reserve_space(&mut second), ReserveStep::Reserved);
    wp.release_queue_space();
    assert_eq!(wp.commit_sem.available_permits(), 1);
}

#[test]
fn permits_come_back() {
    let mut admission = PipelineAdmission::<2>::new();
    admission.acquire();
    assert!(admission.try_acquire());
    assert!(!admission.try_acquire());
    admission.release();
    assert_eq!(admission.available_permits(), 1);
}

#[test]
fn batches_get_consecutive_sequence_numbers() {
    let mut pipeline = pipeline_of::<4, EnvStub>(EnvStub);
    let mut first = sealed(1, 3);
    let mut second = sealed(2, 2);
    let mut third = sealed(3, 1);
    for batch in [&mut first, &mut second, &mut third] {
        assert!(pipeline.try_reserve_space());
        assert_eq!(pipeline.reserved_space(), 1);
        assert!(pipeline.prepare(batch).is_ok());
        assert_eq!(pipeline.reserved_space(), 0);
    }
    assert_eq!(first.as_inner().seq_num(), 0);
    assert_eq!(second.as_inner().seq_num(), 3);
    assert_eq!(third.as_inner().seq_num(), 5);
    assert_eq!(pipeline.seq_state.load_log_seq_num(), 6);
    assert_eq!(pipeline.seq_state.visible_seq_num, 0);

    // A batch that is applied early waits for those before it.
    second.inner.batch_mut().mark_applied();
    let applied = |batch: BatchPtr| {
        let batches: [&BatchInner; 3] = [first.as_inner(), second.as_inner(), third.as_inner()];
        batches[batch.0 as usize - 1].is_applied()
    };
    assert_eq!(pipeline.batch_queue.try_dequeue(applied), None);
    first.inner.batch_mut().mark_applied();
    let applied = |batch: BatchPtr| {
        let batches: [&BatchInner; 3] = [first.as_inner(), second.as_inner(), third.as_inner()];
        batches[batch.0 as usize - 1].is_applied()
    };
    assert_eq!(pipeline.batch_queue.try_dequeue(applied), Some(BatchPtr(1)));
    assert_eq!(pipeline.batch_queue.try_dequeue(applied), Some(BatchPtr(2)));
    assert_eq!(pipeline.batch_queue.try_dequeue(applied), None);

    // Two batches have left the queue, and their permits come back.
    assert_eq!(pipeline.reserved_space(), 2);
    pipeline.release_queue_space();
    pipeline.release_queue_space();
    assert_eq!(pipeline.reserved_space(), 0);
    assert_eq!(pipeline.commit_sem.available_permits(), 3);
}

#[test]
fn a_pipeline_numbers_on_from_its_own_state() {
    let seq_state = SeqNumState { visible_seq_num: 4, log_seq_num: 9 };
    let mut pipeline =
        WritePipeline::<2, EnvStub>::new_with_size(Arc::new(EnvStub), seq_state, SyncSem::default());
    let mut batch = sealed(1, 2);
    assert!(pipeline.try_reserve_space());
    assert!(pipeline.prepare(&mut batch).is_ok());
    assert_eq!(batch.as_inner().seq_num(), 9);
    assert_eq!(pipeline.seq_state, SeqNumState { visible_seq_num: 4, log_seq_num: 11 });
    assert_eq!(pipeline.batch_queue.head_tail, HeadTail::pack(1, 0));
    assert_eq!(pipeline.batch_queue.slots, vec![Some(BatchPtr(1)), None]);
}

#[test]
fn the_environment_decides_on_a_batch() {
    let mut pipeline = pipeline_of::<2, Picky>(Picky);
    let mut empty = sealed(1, 0);
    let mut full = sealed(2, 1);
    assert!(pipeline.try_reserve_space());
    assert!(matches!(pipeline.prepare(&mut empty), Err(Error::Shutdown)));
    assert!(pipeline.try_reserve_space());
    assert!(pipeline.prepare(&mut full).is_ok());
    assert!(pipeline.commit(&full).is_ok());
}

#[test]
fn sequence_numbers_wrap_around() {
    let mut seq_state = SeqNumState { visible_seq_num: 0, log_seq_num: u64::MAX };
    assert_eq!(seq_state.reserve(3), u64::MAX);
    assert_eq!(seq_state.reserve(1), 2);
}

#[test]
fn opened_databases() {
    let mut registry = ThreadRegistry::new();
    let mut first = DB::open(&mut registry);
    let second = DB::open(&mut registry);
    assert_ne!(first.db_id, second.db_id);
    assert_eq!((first.db_id, second.db_id), (0, 1));
    assert_eq!(first.tls_id, 0);
    assert_eq!(second.tls_id, 1);
    assert_eq!(first.seq_state().load_log_seq_num(), 0);
    assert_eq!(first.inner.batch_pool.factory.next, 0);
    assert_eq!(first.inner.batch_pool.pool.len(), 4);
    assert_eq!(first.write_pipeline.commit_sem.available_permits(), 64);
    assert_eq!(first.write_pipeline.batch_queue.head_tail, HeadTail::pack(0, 0));
    let batch = BatchInner::new();
    assert!(first.inner.apply_commit(&BatchRef::from_batch(&batch)).is_ok());

    // What is written to a database advances its own numbers.
    let mut batch = sealed(1, 3);
    assert!(first.write_pipeline.try_reserve_space());
    assert!(first.write_pipeline.prepare(&mut batch).is_ok());
    assert_eq!(first.seq_state().load_log_seq_num(), 3);
    assert_eq!(second.seq_state().load_log_seq_num(), 0);
}

#[test]
fn database_ids_wrap_around() {
    let mut registry = ThreadRegistry { next_db_id: usize::MAX, ..ThreadRegistry::new() };
    assert_eq!(DB::open(&mut registry).db_id, usize::MAX);
    assert_eq!(DB::open(&mut registry).db_id, 0);
    assert_eq!(registry.reserve_db_id(), 1);
}
