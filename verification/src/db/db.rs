//! The database as its users see it.

use crate::db::db_impl::DbImpl;
use crate::db::options::DEFAULT_WRITE_PIPELINE_CAPACITY_SIZE;
use crate::db::write_pipeline::{HeadTail, WritePipeline};
use crate::thread_local_storage::registry::{self, ThreadRegistry};
use crate::version::SeqNumState;
use crate::wal::SyncSem;
use std::sync::Arc;
use vstd::prelude::*;

verus! {

/// An open database.
pub struct DB {
    /// Its own id, so that nothing takes it to be the only one.
    pub db_id: usize,
    /// By which threads find what they hold for this database.
    pub tls_id: usize,
    pub inner: Arc<DbImpl>,
    /// The pipeline, which also holds the sequence numbers of the database.
    pub write_pipeline: WritePipeline<DEFAULT_WRITE_PIPELINE_CAPACITY_SIZE, DbImpl>,
}

impl DB {
    /// The id of the database that is opened next. Each gets another.
    fn next_id(registry: &mut ThreadRegistry) -> (id: usize)
        ensures
            id == old(registry).next_db_id,
            *final(registry) == (ThreadRegistry {
                next_db_id: registry::id_after(id, 1),
                ..*old(registry)
            }),
    {
        registry.reserve_db_id()
    }

    /// What opening `db` does to the registry: from `before` to `after`, it hands
    /// out an id for the database, and one by which threads find it.
    pub open spec fn opens(before: ThreadRegistry, db: Self, after: ThreadRegistry) -> bool {
        &&& db.opened()
        &&& db.db_id == before.next_db_id
        &&& db.tls_id == before.next_tls_id
        &&& after == (ThreadRegistry {
            next_db_id: registry::id_after(db.db_id, 1),
            next_tls_id: registry::id_after(db.tls_id, 1),
            ..before
        })
    }

    /// Opens a database, with ids of its own.
    pub fn open(registry: &mut ThreadRegistry) -> (db: Self)
        ensures
            Self::opens(*old(registry), db, *final(registry)),
            db.db_id == old(registry).next_db_id,
            db.tls_id == old(registry).next_tls_id,
            final(registry).next_db_id == (if db.db_id == usize::MAX {
                0
            } else {
                db.db_id + 1
            }),
            final(registry).next_tls_id == (if db.tls_id == usize::MAX {
                0
            } else {
                db.tls_id + 1
            }),
            final(registry).ctxs == old(registry).ctxs,
            final(registry).order == old(registry).order,
            db.write_pipeline.batch_queue@.len() == 0,
            db.write_pipeline.commit_sem.count == 64,
            db.write_pipeline.seq_state.log_seq_num == 0,
            db.write_pipeline.seq_state.visible_seq_num == 0,
            db.write_pipeline.env == db.inner,
    {
        Self::new(registry)
    }

    /// A database as it is when it is opened: nothing is written, and the
    /// pipeline is empty.
    pub open spec fn opened(&self) -> bool {
        &&& self.inner.fresh()
        &&& self.write_pipeline.wf()
        &&& self.write_pipeline.batch_queue@.len() == 0
        &&& self.write_pipeline.batch_queue.head_tail == HeadTail(0)
        &&& self.write_pipeline.commit_sem.count == DEFAULT_WRITE_PIPELINE_CAPACITY_SIZE
        &&& self.write_pipeline.sync_sem.sync_occupancy == 0
        &&& self.write_pipeline.env == self.inner
        &&& self.write_pipeline.seq_state == (SeqNumState { visible_seq_num: 0, log_seq_num: 0 })
    }

    /// As `open`.
    pub fn new(registry: &mut ThreadRegistry) -> (db: Self)
        ensures
            Self::opens(*old(registry), db, *final(registry)),
            db.db_id == old(registry).next_db_id,
            db.tls_id == old(registry).next_tls_id,
            final(registry).next_db_id == (if db.db_id == usize::MAX {
                0
            } else {
                db.db_id + 1
            }),
            final(registry).next_tls_id == (if db.tls_id == usize::MAX {
                0
            } else {
                db.tls_id + 1
            }),
            final(registry).ctxs == old(registry).ctxs,
            final(registry).order == old(registry).order,
            db.write_pipeline.batch_queue@.len() == 0,
            db.write_pipeline.commit_sem.count == 64,
            db.write_pipeline.seq_state.log_seq_num == 0,
            db.write_pipeline.seq_state.visible_seq_num == 0,
            db.write_pipeline.env == db.inner,
    {
        let id = Self::next_id(registry);
        let inner = Arc::new(DbImpl::new());
        DB {
            db_id: id,
            tls_id: registry.reserve_tls_id(),
            inner: Arc::clone(&inner),
            write_pipeline: WritePipeline::new(inner, SeqNumState::new(), SyncSem::default()),
        }
    }

    /// The sequence numbers of the database: those that its pipeline hands out.
    pub fn seq_state(&self) -> (state: &SeqNumState)
        ensures
            *state == self.write_pipeline.seq_state,
    {
        &self.write_pipeline.seq_state
    }
}

/// Each database has its own id, and threads find each by another: of a row of
/// databases, opened one after the other, no two share either, as long as there
/// are no more of them than ids. Threads may come to the registry in between.
pub proof fn law_databases_have_their_own_ids(
    before: Seq<ThreadRegistry>,
    dbs: Seq<DB>,
    after: Seq<ThreadRegistry>,
    i: int,
    j: int,
)
    requires
        before.len() == dbs.len(),
        after.len() == dbs.len(),
        dbs.len() <= usize::MAX + 1,
        forall|k: int| 0 <= k < dbs.len() ==> #[trigger] DB::opens(before[k], dbs[k], after[k]),
        forall|k: int|
            0 <= k < dbs.len() - 1 ==> (#[trigger] before[k + 1]).next_db_id == after[k].next_db_id
                && before[k + 1].next_tls_id == after[k].next_tls_id,
        0 <= i < j < dbs.len(),
    ensures
        dbs[i].db_id != dbs[j].db_id,
        dbs[i].tls_id != dbs[j].tls_id,
{
    lemma_ids_count_on(before, dbs, after, i);
    lemma_ids_count_on(before, dbs, after, j);
}

/// The `k`-th of a row of databases has the ids `k` after those of the first.
proof fn lemma_ids_count_on(
    before: Seq<ThreadRegistry>,
    dbs: Seq<DB>,
    after: Seq<ThreadRegistry>,
    k: int,
)
    requires
        before.len() == dbs.len(),
        after.len() == dbs.len(),
        forall|k: int| 0 <= k < dbs.len() ==> #[trigger] DB::opens(before[k], dbs[k], after[k]),
        forall|k: int|
            0 <= k < dbs.len() - 1 ==> (#[trigger] before[k + 1]).next_db_id == after[k].next_db_id
                && before[k + 1].next_tls_id == after[k].next_tls_id,
        0 <= k < dbs.len(),
        dbs.len() <= usize::MAX + 1,
    ensures
        dbs[k].db_id == registry::id_after(dbs[0].db_id, k as usize),
        dbs[k].tls_id == registry::id_after(dbs[0].tls_id, k as usize),
    decreases k,
{
    assert(DB::opens(before[k], dbs[k], after[k]));
    if k > 0 {
        lemma_ids_count_on(before, dbs, after, k - 1);
        assert(DB::opens(before[k - 1], dbs[k - 1], after[k - 1]));
        assert(before[(k - 1) + 1].next_db_id == after[k - 1].next_db_id);
    }
}

} // verus!
