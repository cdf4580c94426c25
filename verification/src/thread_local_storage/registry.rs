//! What each thread holds for each open database.
//!
//! The threads are linked into a list, so that a database can visit those that
//! touch it; each thread has a row with an instance for each database, by the
//! database's id.

use crate::db::batch_object::OwnedBatchPtr;
use crate::db::batch_pool::{
    ThreadBatchCache, DEFAULT_THREAD_BATCH_CACHE_CAPACITY,
    DEFAULT_THREAD_BATCH_CACHE_TARGET_RETAINED,
};
use vstd::prelude::*;

verus! {

/// What a thread holds for one database.
pub struct DBInstanceCtx {
    pub batch_cache: ThreadBatchCache<
        DEFAULT_THREAD_BATCH_CACHE_CAPACITY,
        DEFAULT_THREAD_BATCH_CACHE_TARGET_RETAINED,
        OwnedBatchPtr,
    >,
}

impl DBInstanceCtx {
    /// The cache is empty.
    pub open spec fn fresh(&self) -> bool {
        &&& self.batch_cache.wf()
        &&& self.batch_cache.shard_idx is None
        &&& self.batch_cache.batches@.len() == 0
    }

    /// An instance with an empty cache.
    pub fn new() -> (ctx: Self)
        ensures
            ctx.fresh(),
    {
        DBInstanceCtx { batch_cache: ThreadBatchCache::new() }
    }

    /// Hands the cache of batches to `f`.
    pub fn thread_batch_cache_mut<
        R,
        F: FnOnce(
            &mut ThreadBatchCache<
                DEFAULT_THREAD_BATCH_CACHE_CAPACITY,
                DEFAULT_THREAD_BATCH_CACHE_TARGET_RETAINED,
                OwnedBatchPtr,
            >,
        ) -> R,
    >(&mut self, f: F) -> (result: R)
        requires
            forall|cache: &mut ThreadBatchCache<
                DEFAULT_THREAD_BATCH_CACHE_CAPACITY,
                DEFAULT_THREAD_BATCH_CACHE_TARGET_RETAINED,
                OwnedBatchPtr,
            >|
                *cache == old(self).batch_cache ==> #[trigger] call_requires(f, (cache,)),
        ensures
            exists|cache: &mut ThreadBatchCache<
                DEFAULT_THREAD_BATCH_CACHE_CAPACITY,
                DEFAULT_THREAD_BATCH_CACHE_TARGET_RETAINED,
                OwnedBatchPtr,
            >|
                {
                    &&& *cache == old(self).batch_cache
                    &&& *final(cache) == final(self).batch_cache
                    &&& #[trigger] call_ensures(f, (cache,), result)
                },
    {
        f(&mut self.batch_cache)
    }
}

/// A place for an instance.
pub struct Entry {
    pub ptr: Option<Box<DBInstanceCtx>>,
}

impl Entry {
    /// A place without an instance.
    pub fn new() -> (entry: Self)
        ensures
            entry.ptr is None,
    {
        Entry { ptr: None }
    }

    /// A place with this instance, or without one.
    pub fn from(ptr: Option<Box<DBInstanceCtx>>) -> (entry: Self)
        ensures
            entry.ptr == ptr,
    {
        Entry { ptr }
    }

    /// The instance; where there is none, a new one is put there first.
    pub fn get_or_insert_new(&mut self) -> (ctx: &mut DBInstanceCtx)
        ensures
            match old(self).ptr {
                Some(there) => *ctx == *there,
                None => ctx.fresh(),
            },
            final(self).ptr matches Some(now) && *now == *final(ctx),
    {
        if self.ptr.is_none() {
            self.ptr = Some(Box::new(DBInstanceCtx::new()));
        }
        match &mut self.ptr {
            Some(ctx) => &mut **ctx,
            None => vstd::pervasive::unreached(),
        }
    }
}

/// One thread's row.
pub struct ThreadCtx {
    pub next: Option<usize>,
    pub prev: Option<usize>,
    pub registered: bool,
    /// The instances, by the id of their database.
    pub instances: Vec<Entry>,
}

impl ThreadCtx {
    /// A row that is not linked, and holds nothing.
    pub fn new() -> (ctx: Self)
        ensures
            ctx.next is None,
            ctx.prev is None,
            !ctx.registered,
            ctx.instances@.len() == 0,
    {
        ThreadCtx { next: None, prev: None, registered: false, instances: Vec::new() }
    }

    /// `after` is this row, with empty places added up to a length of `len`
    /// where it was shorter.
    pub open spec fn lengthened(&self, after: &Self, len: int) -> bool {
        let there = self.instances@.len() as int;
        &&& after.instances@.len() == (if there < len {
            len
        } else {
            there
        })
        &&& after.instances@.take(there) == self.instances@
        &&& forall|i: int|
            there <= i < after.instances@.len() ==> (#[trigger] after.instances@[i]).ptr is None
        &&& *after == (ThreadCtx { instances: after.instances, ..*self })
    }

    /// Adds empty places up to a length of `len`.
    fn lengthen(&mut self, len: usize)
        ensures
            old(self).lengthened(final(self), len as int),
    {
        let ghost there = self.instances@;
        while self.instances.len() < len
            invariant
                there.len() <= self.instances@.len(),
                self.instances@.len() <= len || self.instances@.len() == there.len(),
                self.instances@.take(there.len() as int) == there,
                forall|i: int|
                    there.len() <= i < self.instances@.len() ==> (
                    #[trigger] self.instances@[i]).ptr is None,
                *self == (ThreadCtx { instances: self.instances, ..*old(self) }),
            decreases len - self.instances@.len(),
        {
            self.instances.push(Entry::new());
            proof {
                assert(self.instances@.take(there.len() as int) =~= there);
            }
        }
    }

    /// Makes sure that there is a place for the database `tls_id`.
    pub fn resize_instances(&mut self, tls_id: usize)
        requires
            tls_id < usize::MAX,
        ensures
            old(self).lengthened(final(self), tls_id + 1),
    {
        self.lengthen(tls_id + 1);
    }

    /// The thread's instance for the database `tls_id`, which is made where
    /// there is none.
    pub fn db_instance(&mut self, tls_id: usize) -> (ctx: &mut DBInstanceCtx)
        requires
            tls_id < usize::MAX,
        ensures
            if tls_id < old(self).instances@.len() && old(self).instances@[tls_id as int].ptr is Some {
                *ctx == *old(self).instances@[tls_id as int].ptr->0
            } else {
                ctx.fresh()
            },
            exists|row: ThreadCtx|
                {
                    &&& #[trigger] old(self).lengthened(&row, tls_id + 1)
                    &&& final(self).instances@ == row.instances@.update(
                        tls_id as int,
                        final(self).instances@[tls_id as int],
                    )
                },
            final(self).instances@[tls_id as int].ptr matches Some(now) && *now == *final(ctx),
            *final(self) == (ThreadCtx { instances: final(self).instances, ..*old(self) }),
    {
        self.resize_instances(tls_id);
        proof {
            let row = *self;
            assert(old(self).lengthened(&row, tls_id + 1));
            if tls_id < old(self).instances@.len() {
                assert(row.instances@.take(old(self).instances@.len() as int)[tls_id as int]
                    == old(self).instances@[tls_id as int]);
            }
        }
        let entry = &mut self.instances[tls_id];
        entry.get_or_insert_new()
    }
}

/// In `ctxs`, the links run through `order`, with row 0 in front of it: `next`
/// ends at the last of them, and the `prev` of row 0 is the last.
pub open spec fn list_links(ctxs: Seq<ThreadCtx>, order: Seq<usize>) -> bool {
    &&& ctxs[0].next == (if order.len() > 0 {
        Some(order[0])
    } else {
        None
    })
    &&& ctxs[0].prev == (if order.len() > 0 {
        Some(order.last())
    } else {
        None
    })
    &&& forall|i: int|
        0 <= i < order.len() ==> {
            let ctx = #[trigger] ctxs[order[i] as int];
            &&& ctx.next == (if i + 1 < order.len() {
                Some(order[i + 1])
            } else {
                None
            })
            &&& ctx.prev == Some(
                if i > 0 {
                    order[i - 1]
                } else {
                    0
                },
            )
            &&& ctx.registered
        }
}

/// The id that is handed out `n` after `id`. The ids wrap around.
pub open spec fn id_after(id: usize, n: usize) -> usize {
    if id + n <= usize::MAX {
        (id + n) as usize
    } else {
        (id + n - usize::MAX - 1) as usize
    }
}

/// The threads that have touched a database. Row 0 belongs to no thread.
pub struct ThreadRegistry {
    pub ctxs: Vec<ThreadCtx>,
    /// By which threads find the database that is opened next.
    pub next_tls_id: usize,
    /// The id of the database that is opened next.
    pub next_db_id: usize,
    /// The registered threads, from the one that came last to the first.
    pub order: Ghost<Seq<usize>>,
}

impl ThreadRegistry {
    /// The list visits each registered thread once, and no other row has links.
    pub open spec fn wf(&self) -> bool {
        &&& 0 < self.ctxs@.len()
        &&& self.order@.no_duplicates()
        &&& forall|i: int|
            0 <= i < self.order@.len() ==> 0 < (#[trigger] self.order@[i]) < self.ctxs@.len()
        &&& list_links(self.ctxs@, self.order@)
        &&& forall|thread: usize|
            0 < thread < self.ctxs@.len() && (#[trigger] self.ctxs@[thread as int]).registered
                ==> self.order@.contains(thread)
        &&& forall|thread: usize|
            0 < thread < self.ctxs@.len() && !self.order@.contains(thread) ==> {
                let ctx = #[trigger] self.ctxs@[thread as int];
                ctx.next is None && ctx.prev is None
            }
    }

    /// No thread, no database.
    pub fn new() -> (registry: Self)
        ensures
            registry.wf(),
            registry.ctxs@.len() == 1,
            registry.next_tls_id == 0,
            registry.next_db_id == 0,
            registry.order@.len() == 0,
    {
        let mut ctxs: Vec<ThreadCtx> = Vec::new();
        ctxs.push(ThreadCtx::new());
        ThreadRegistry { ctxs, next_tls_id: 0, next_db_id: 0, order: Ghost(Seq::empty()) }
    }

    /// Makes a row for a new thread, which is not registered yet.
    pub fn add_thread(&mut self) -> (thread: usize)
        requires
            old(self).wf(),
        ensures
            final(self).wf(),
            thread == old(self).ctxs@.len(),
            final(self).ctxs@.len() == thread + 1,
            forall|t: int|
                0 <= t < thread ==> #[trigger] final(self).ctxs@[t] == old(self).ctxs@[t],
            !final(self).ctxs@[thread as int].registered,
            final(self).ctxs@[thread as int].instances@.len() == 0,
            final(self).next_tls_id == old(self).next_tls_id,
            final(self).next_db_id == old(self).next_db_id,
            final(self).order == old(self).order,
    {
        let ghost before = self.ctxs@;
        let thread = self.ctxs.len();
        self.ctxs.push(ThreadCtx::new());
        proof {
            assert forall|i: int| 0 <= i < self.order@.len() implies #[trigger] self.ctxs@[
            self.order@[i] as int] == before[self.order@[i] as int] by {}
        }
        thread
    }

    /// Hands out the number by which threads find a database. The numbers wrap
    /// around at the end of their range.
    pub fn reserve_tls_id(&mut self) -> (tls_id: usize)
        ensures
            tls_id == old(self).next_tls_id,
            final(self).next_tls_id == (if tls_id == usize::MAX {
                0
            } else {
                tls_id + 1
            }),
            *final(self) == (ThreadRegistry { next_tls_id: id_after(tls_id, 1), ..*old(self) }),
    {
        let tls_id = self.next_tls_id;
        self.next_tls_id = tls_id.wrapping_add(1);
        tls_id
    }

    /// Hands out the id of a database. The ids wrap around at the end of their
    /// range.
    pub fn reserve_db_id(&mut self) -> (id: usize)
        ensures
            id == old(self).next_db_id,
            final(self).next_db_id == (if id == usize::MAX {
                0
            } else {
                id + 1
            }),
            *final(self) == (ThreadRegistry { next_db_id: id_after(id, 1), ..*old(self) }),
    {
        let id = self.next_db_id;
        self.next_db_id = id.wrapping_add(1);
        id
    }

    /// Puts the thread's row in front of the list, with a place for each
    /// database that there is, unless that was done before.
    pub fn ensure_registered(&mut self, thread: usize)
        requires
            old(self).wf(),
            0 < thread < old(self).ctxs@.len(),
        ensures
            final(self).wf(),
            final(self).next_tls_id == old(self).next_tls_id,
            final(self).next_db_id == old(self).next_db_id,
            final(self).ctxs@.len() == old(self).ctxs@.len(),
            final(self).ctxs@[thread as int].registered,
            forall|t: int|
                0 <= t < old(self).ctxs@.len() && t != thread ==> (
                #[trigger] final(self).ctxs@[t]).instances == old(self).ctxs@[t].instances
                    && final(self).ctxs@[t].registered == old(self).ctxs@[t].registered,
            if old(self).ctxs@[thread as int].registered {
                *final(self) == *old(self)
            } else {
                &&& final(self).order@ == seq![thread] + old(self).order@
                &&& ThreadCtx {
                    instances: old(self).ctxs@[thread as int].instances,
                    ..final(self).ctxs@[thread as int]
                }.lengthened(
                    &final(self).ctxs@[thread as int],
                    old(self).next_tls_id as int,
                )
            },
    {
        if self.ctxs[thread].registered {
            return;
        }
        let ghost before = self.ctxs@;
        let ghost order = self.order@;
        let tls_id = self.next_tls_id;
        proof {
            assert(!order.contains(thread)) by {
                if order.contains(thread) {
                    let i = order.index_of(thread);
                    assert(before[order[i] as int].registered);
                }
            }
            if order.len() > 0 {
                assert(order[0] != thread);
            }
        }
        self.ctxs[thread].lengthen(tls_id);
        let old_first = self.ctxs[0].next;
        self.ctxs[thread].prev = Some(0);
        self.ctxs[thread].next = old_first;
        match old_first {
            Some(first) => {
                self.ctxs[first].prev = Some(thread);
            },
            None => {
                self.ctxs[0].prev = Some(thread);
            },
        }
        self.ctxs[0].next = Some(thread);
        self.ctxs[thread].registered = true;
        self.order = Ghost(seq![thread] + order);
        proof {
            let after = self.ctxs@;
            let now = self.order@;
            assert forall|i: int| 0 <= i < now.len() implies (i == 0 ==> now[i] == thread) && (i > 0
                ==> #[trigger] now[i] == order[i - 1]) by {}
            assert forall|i: int, j: int|
                0 <= i < now.len() && 0 <= j < now.len() && i != j implies now[i] != now[j] by {
                assert(i > 0 ==> now[i] == order[i - 1]);
                assert(j > 0 ==> now[j] == order[j - 1]);
                assert(i > 0 ==> order.contains(order[i - 1]));
                assert(j > 0 ==> order.contains(order[j - 1]));
            }
            assert forall|i: int| 0 <= i < now.len() implies {
                let ctx = #[trigger] after[now[i] as int];
                &&& ctx.next == (if i + 1 < now.len() {
                    Some(now[i + 1])
                } else {
                    None
                })
                &&& ctx.prev == Some(
                    if i > 0 {
                        now[i - 1]
                    } else {
                        0
                    },
                )
                &&& ctx.registered
            } by {
                if i > 0 {
                    assert(now[i] == order[i - 1]);
                    assert(before[order[i - 1] as int].registered);
                    assert(order.contains(order[i - 1]));
                    assert(i > 1 ==> order[i - 1] != order[0]);
                }
            }
            assert forall|t: usize|
                0 < t < self.ctxs@.len() && (#[trigger] self.ctxs@[t as int]).registered implies self.order@.contains(
            t) by {
                if t == thread {
                    assert(now[0] == thread);
                } else {
                    assert(before[t as int].registered);
                    let i = order.index_of(t);
                    assert(now[i + 1] == t);
                }
            }
        }
    }
}

/// The list visits the registered threads, from row 0 on: each links to the one behind it
/// and to the one in front of it, the first back to row 0; row 0 knows the first and the
/// last; a row is registered exactly where the list visits it, and another has no links.
pub proof fn law_list_visits_the_registered(registry: ThreadRegistry, i: int, thread: usize)
    requires
        registry.wf(),
        0 <= i < registry.order@.len(),
        0 < thread < registry.ctxs@.len(),
    ensures
        registry.order@.no_duplicates(),
        registry.ctxs@[0].next == Some(registry.order@[0]),
        registry.ctxs@[0].prev == Some(registry.order@[registry.order@.len() - 1]),
        registry.ctxs@[registry.order@[i] as int].registered,
        i + 1 < registry.order@.len() ==> registry.ctxs@[registry.order@[i] as int].next == Some(
            registry.order@[i + 1],
        ),
        i + 1 == registry.order@.len() ==> registry.ctxs@[registry.order@[i] as int].next is None,
        i > 0 ==> registry.ctxs@[registry.order@[i] as int].prev == Some(registry.order@[i - 1]),
        i == 0 ==> registry.ctxs@[registry.order@[i] as int].prev == Some(0usize),
        registry.ctxs@[thread as int].registered <==> registry.order@.contains(thread),
        !registry.order@.contains(thread) ==> registry.ctxs@[thread as int].next is None
            && registry.ctxs@[thread as int].prev is None,
{
    assert(registry.ctxs@[registry.order@[i] as int].registered);
    if registry.order@.contains(thread) {
        let k = registry.order@.index_of(thread);
        assert(registry.ctxs@[registry.order@[k] as int].registered);
    }
}

/// Ids count on and wrap around at the end of their range.
pub proof fn law_ids_count_on(id: usize, n: usize)
    requires
        n < usize::MAX,
    ensures
        id_after(id, 0) == id,
        id_after(id, 1) == (if id == usize::MAX {
                0
            } else {
                id + 1
            }),
        id_after(id, (n + 1) as usize) == id_after(id_after(id, n), 1),
{
}

/// Making room for more databases moves nothing: the places that were there stay, and
/// those that are added are empty.
pub proof fn law_more_places_move_nothing(before: ThreadCtx, after: ThreadCtx, len: int, i: int)
    requires
        before.lengthened(&after, len),
        0 <= i < after.instances@.len(),
    ensures
        after.instances@.len() >= len,
        after.instances@.len() == len || after.instances@.len() == before.instances@.len(),
        i < before.instances@.len() ==> after.instances@[i] == before.instances@[i],
        i >= before.instances@.len() ==> after.instances@[i].ptr is None,
        after.next == before.next,
        after.prev == before.prev,
        after.registered == before.registered,
{
    if i < before.instances@.len() {
        assert(after.instances@.take(before.instances@.len() as int)[i] == before.instances@[i]);
    }
}

} // verus!
