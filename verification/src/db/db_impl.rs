//! What an open database consists of.

use crate::db::batch_object::BatchRef;
use crate::db::batch_pool::{self, BatchPool, BatchPoolImpl};
use crate::db::write_pipeline::WriterEnv;
use crate::error::Result;
use vstd::prelude::*;

verus! {

/// The state of an open database.
pub struct DbImpl {
    pub batch_pool: BatchPool,
}

impl DbImpl {
    /// A database in which nothing is written, with an empty pool of batches.
    pub open spec fn fresh(&self) -> bool {
        &&& self.batch_pool.wf()
        &&& forall|i: int|
            0 <= i < self.batch_pool.pool@.len() ==> (
            #[trigger] self.batch_pool.pool@[i]).batches@.len() == 0
        &&& self.batch_pool.factory.next == 0
        &&& self.batch_pool.next_shard == 0
        &&& self.batch_pool.stats == batch_pool::no_stats()
    }

    /// A database in which nothing is written.
    pub fn new() -> (db: Self)
        ensures
            db.fresh(),
    {
        DbImpl { batch_pool: BatchPoolImpl::new() }
    }
}

impl WriterEnv for DbImpl {
    /// There is nothing to apply a batch to yet.
    fn apply_commit<'env>(&self, batch: &'env BatchRef<'env>) -> (result: Result<()>)
        ensures
            result is Ok,
    {
        Ok(())
    }

    /// There is nothing to prepare yet.
    fn prepare_commit<'env>(&self, batch: &'env BatchRef<'env>) -> (result: Result<()>)
        ensures
            result is Ok,
    {
        Ok(())
    }
}

} // verus!
