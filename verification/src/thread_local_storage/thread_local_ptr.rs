//! The columns of the matrix.

use crate::thread_local_storage::thread_local::{
    self, Reclaim, ThreadData, ThreadMetaGlobal, UnrefHandler,
};
use std::marker::PhantomData;
use vstd::prelude::*;

verus! {

/// Says how an object in a cell is reclaimed.
pub trait ThreadLocalObject: Sized {
    /// What is to be done with an object of this type: nothing, unless its type
    /// says otherwise.
    fn handler() -> (handler: Option<UnrefHandler>)
        default_ensures
            handler is None,
    {
        None
    }
}

/// What the threads in `order` hold in the column, each with what is to be done
/// with it: nothing, where the column has no handler.
pub open spec fn column_reclaims(
    rows: Seq<ThreadData>,
    order: Seq<usize>,
    tls_id: int,
    handler: Option<UnrefHandler>,
) -> Seq<Reclaim> {
    order.filter_map(
        |thread: usize|
            match (handler, rows[thread as int].cell(tls_id)) {
                (Some(handler), Some(object)) => Some(Reclaim { handler, object }),
                _ => None,
            },
    )
}

/// A column: one cell in each thread's row, for an object of type `T`.
///
/// The owner of the column makes the objects. The column keeps them, and on
/// reclamation says what is to be done with them.
#[derive(Debug)]
pub struct ThreadLocalPtr<T> {
    pub tls_id: usize,
    pub object: PhantomData<T>,
}

impl<T> ThreadLocalPtr<T> {
    /// Takes a column: one that was given back, or else a new one. It is empty,
    /// and its handler is the given one.
    #[verifier::spinoff_prover]
    #[verifier::rlimit(40)]
    pub fn new_with_handler(meta: &mut ThreadMetaGlobal, handler: Option<UnrefHandler>) -> (ptr:
        Self)
        requires
            old(meta).wf(),
            old(meta).tls_id_free_list@.len() == 0 ==> old(meta).next_tls_id < usize::MAX,
        ensures
            final(meta).wf(),
            !old(meta).taken(ptr.tls_id),
            final(meta).taken(ptr.tls_id),
            if old(meta).tls_id_free_list@.len() == 0 {
                &&& ptr.tls_id == old(meta).next_tls_id
                &&& final(meta).next_tls_id == old(meta).next_tls_id + 1
                &&& final(meta).tls_id_free_list@ == old(meta).tls_id_free_list@
            } else {
                &&& ptr.tls_id == old(meta).tls_id_free_list@.last()
                &&& final(meta).next_tls_id == old(meta).next_tls_id
                &&& final(meta).tls_id_free_list@ == old(meta).tls_id_free_list@.drop_last()
            },
            final(meta).unref_handler_map@ == (match handler {
                Some(handler) => old(meta).unref_handler_map@.insert(ptr.tls_id, handler),
                None => old(meta).unref_handler_map@.remove(ptr.tls_id),
            }),
            forall|thread: usize|
                thread < final(meta).rows@.len() ==> (#[trigger] final(meta).cell(
                    thread,
                    ptr.tls_id as int,
                )) is None,
            final(meta).rows == old(meta).rows,
            final(meta).order == old(meta).order,
    {
        let tls_id = match meta.tls_id_free_list.pop() {
            Some(tls_id) => tls_id,
            None => {
                let tls_id = meta.next_tls_id;
                meta.next_tls_id = tls_id + 1;
                tls_id
            },
        };
        match handler {
            Some(handler) => {
                meta.unref_handler_map.insert(tls_id, handler);
            },
            None => {
                meta.unref_handler_map.remove(&tls_id);
            },
        }
        proof {
            let free = old(meta).tls_id_free_list@;
            let now = meta.tls_id_free_list@;
            assert(!now.contains(tls_id)) by {
                if free.len() > 0 && now.contains(tls_id) {
                    let i = now.index_of(tls_id);
                    assert(free[i] == tls_id && free[free.len() - 1] == tls_id);
                }
            }
            assert(!old(meta).taken(tls_id)) by {
                if free.len() > 0 {
                    assert(free[free.len() - 1] == tls_id);
                }
            }
            assert forall|id: usize| !meta.taken(id) implies !old(meta).taken(id) by {
                if now.contains(id) {
                    let i = now.index_of(id);
                    assert(free[i] == id);
                }
            }
            assert forall|thread: usize, id: usize|
                thread < meta.rows@.len() && !meta.taken(id) implies (#[trigger] meta.cell(
                thread,
                id as int,
            )) is None by {
                assert(old(meta).cell(thread, id as int) is None);
            }
            assert forall|thread: usize| thread < meta.rows@.len() implies (#[trigger] meta.cell(
                thread,
                tls_id as int,
            )) is None by {
                assert(old(meta).cell(thread, tls_id as int) is None);
            }
        }
        ThreadLocalPtr { tls_id, object: PhantomData }
    }

    /// Puts an object into the thread's cell, which is empty.
    pub fn init(&self, meta: &mut ThreadMetaGlobal, thread: usize, entry: usize)
        requires
            old(meta).wf(),
            old(meta).live(thread),
            old(meta).taken(self.tls_id),
            old(meta).cell(thread, self.tls_id as int) is None,
        ensures
            final(meta).wf(),
            final(meta).live(thread),
            final(meta).cell(thread, self.tls_id as int) == Some(entry),
            touched(*old(meta), *final(meta), thread, self.tls_id),
    {
        let _ = meta.with_tlp_ptr(thread, self.tls_id);
        proof {
            lemma_linked(*meta, thread);
        }
        meta.store(thread, self.tls_id, entry);
    }

    /// What the thread's cell holds.
    pub fn get(&self, meta: &mut ThreadMetaGlobal, thread: usize) -> (object: Option<usize>)
        requires
            old(meta).wf(),
            old(meta).live(thread),
            old(meta).taken(self.tls_id),
        ensures
            final(meta).wf(),
            final(meta).live(thread),
            object == old(meta).cell(thread, self.tls_id as int),
            final(meta).cell(thread, self.tls_id as int) == object,
            touched(*old(meta), *final(meta), thread, self.tls_id),
    {
        let object = meta.with_tlp_ptr(thread, self.tls_id);
        proof {
            lemma_linked(*meta, thread);
        }
        object
    }

    /// What the thread's cell holds; where it is empty, the object that `init`
    /// makes is put there first.
    pub fn get_or_init<I: FnOnce() -> usize>(
        &self,
        meta: &mut ThreadMetaGlobal,
        thread: usize,
        init: I,
    ) -> (object: usize)
        requires
            old(meta).wf(),
            old(meta).live(thread),
            old(meta).taken(self.tls_id),
            old(meta).cell(thread, self.tls_id as int) is None ==> call_requires(init, ()),
        ensures
            final(meta).wf(),
            final(meta).live(thread),
            match old(meta).cell(thread, self.tls_id as int) {
                Some(there) => object == there,
                None => call_ensures(init, (), object),
            },
            final(meta).cell(thread, self.tls_id as int) == Some(object),
            touched(*old(meta), *final(meta), thread, self.tls_id),
    {
        match self.get(meta, thread) {
            Some(object) => object,
            None => {
                let object = init();
                proof {
                    lemma_linked(*meta, thread);
                }
                meta.store(thread, self.tls_id, object);
                object
            },
        }
    }

    /// As `get_or_init`, and hands the object to `f`.
    pub fn get_or_init_mut<I: FnOnce() -> usize, R, F: FnOnce(usize) -> R>(
        &self,
        meta: &mut ThreadMetaGlobal,
        thread: usize,
        init: I,
        f: F,
    ) -> (result: R)
        requires
            old(meta).wf(),
            old(meta).live(thread),
            old(meta).taken(self.tls_id),
            old(meta).cell(thread, self.tls_id as int) is None ==> call_requires(init, ()),
            forall|object: usize| #[trigger] call_requires(f, (object,)),
        ensures
            final(meta).wf(),
            final(meta).live(thread),
            final(meta).cell(thread, self.tls_id as int) matches Some(object) && {
                &&& match old(meta).cell(thread, self.tls_id as int) {
                    Some(there) => object == there,
                    None => call_ensures(init, (), object),
                }
                &&& call_ensures(f, (object,), result)
            },
            touched(*old(meta), *final(meta), thread, self.tls_id),
    {
        let object = self.get_or_init(meta, thread, init);
        f(object)
    }

    /// Gives the column back. Its cells are emptied; returned is what they held,
    /// with what is to be done with it. The column has no handler from here on,
    /// and its id may be handed out again.
    pub fn remove_column(&self, meta: &mut ThreadMetaGlobal) -> (reclaims: Vec<Reclaim>)
        requires
            old(meta).wf(),
            old(meta).taken(self.tls_id),
        ensures
            final(meta).wf(),
            !final(meta).taken(self.tls_id),
            final(meta).tls_id_free_list@ == old(meta).tls_id_free_list@.push(self.tls_id),
            final(meta).next_tls_id == old(meta).next_tls_id,
            final(meta).unref_handler_map@ == old(meta).unref_handler_map@.remove(self.tls_id),
            final(meta).order == old(meta).order,
            reclaims@ == column_reclaims(
                old(meta).rows@,
                old(meta).order@,
                self.tls_id as int,
                if old(meta).unref_handler_map@.contains_key(self.tls_id) {
                    Some(old(meta).unref_handler_map@[self.tls_id])
                } else {
                    None
                },
            ),
            final(meta).rows@.len() == old(meta).rows@.len(),
            forall|thread: usize|
                thread < final(meta).rows@.len() ==> (#[trigger] final(meta).cell(
                    thread,
                    self.tls_id as int,
                )) is None,
            forall|thread: usize, id: int|
                thread < old(meta).rows@.len() && id != self.tls_id ==> #[trigger] final(meta).cell(
                    thread,
                    id,
                ) == old(meta).cell(thread, id),
            forall|t: int|
                0 <= t < old(meta).rows@.len() ==> same_but_cell(
                    old(meta).rows@[t],
                    #[trigger] final(meta).rows@[t],
                    self.tls_id as int,
                ),
    {
        let tls_id = self.tls_id;
        let handler = meta.unref_handler_map.remove(&tls_id);
        let reclaims = Self::clear_column(meta, tls_id, handler);
        meta.tls_id_free_list.push(tls_id);
        proof {
            lemma_column_freed(*old(meta), *meta, tls_id);
        }
        reclaims
    }

    /// Walks around the ring and empties the column's cells.
    #[verifier::spinoff_prover]
    #[verifier::rlimit(40)]
    fn clear_column(
        meta: &mut ThreadMetaGlobal,
        tls_id: usize,
        handler: Option<UnrefHandler>,
    ) -> (reclaims: Vec<Reclaim>)
        requires
            0 < old(meta).rows@.len(),
            old(meta).ring_wf(),
        ensures
            final(meta).ring_wf(),
            reclaims@ == column_reclaims(
                old(meta).rows@,
                old(meta).order@,
                tls_id as int,
                handler,
            ),
            final(meta).rows@.len() == old(meta).rows@.len(),
            forall|i: int|
                0 <= i < old(meta).order@.len() ==> (#[trigger] final(meta).rows@[
                old(meta).order@[i] as int]).cell(tls_id as int) is None,
            forall|t: int|
                0 <= t < old(meta).rows@.len() ==> same_but_cell(
                    old(meta).rows@[t],
                    #[trigger] final(meta).rows@[t],
                    tls_id as int,
                ),
            forall|t: int|
                0 <= t < old(meta).rows@.len() && !old(meta).order@.contains(t as usize)
                    ==> #[trigger] final(meta).rows@[t] == old(meta).rows@[t],
            *final(meta) == (ThreadMetaGlobal { rows: final(meta).rows, ..*old(meta) }),
    {
        let ghost before = meta.rows@;
        let ghost order = meta.order@;
        let ghost ring = meta.ring();
        let ghost mut i: int = 0;
        let mut reclaims: Vec<Reclaim> = Vec::new();
        proof {
            assert(ring[0] == 0);
            assert(before[ring[0] as int].next == Some(
                if ring.len() > 1 {
                    ring[1]
                } else {
                    ring[0]
                },
            ));
            assert(order.take(0) =~= Seq::<usize>::empty());
        }
        let mut next: usize = match meta.rows[0].next {
            Some(first) => first,
            None => 0,
        };
        while next != 0
            invariant
                0 <= i <= order.len(),
                order == meta.order@,
                ring == seq![0usize] + order,
                next == (if i < order.len() {
                    order[i]
                } else {
                    0
                }),
                ring.no_duplicates(),
                forall|j: int| 0 <= j < order.len() ==> 0 < (#[trigger] order[j]) < before.len(),
                thread_local::ring_links(before, ring),
                meta.rows@.len() == before.len(),
                reclaims@ == column_reclaims(before, order.take(i), tls_id as int, handler),
                forall|j: int|
                    0 <= j < i ==> (#[trigger] meta.rows@[order[j] as int]).cell(
                        tls_id as int,
                    ) is None,
                forall|j: int|
                    i <= j < order.len() ==> #[trigger] meta.rows@[order[j] as int]
                        == before[order[j] as int],
                forall|t: int|
                    0 <= t < before.len() ==> same_but_cell(
                        before[t],
                        #[trigger] meta.rows@[t],
                        tls_id as int,
                    ),
                forall|t: int|
                    0 <= t < before.len() && !order.contains(t as usize)
                        ==> #[trigger] meta.rows@[t] == before[t],
                *meta == (ThreadMetaGlobal { rows: meta.rows, ..*old(meta) }),
            decreases order.len() - i,
        {
            let current = next;
            let ghost rows = meta.rows@;
            proof {
                assert(ring[i + 1] == order[i]);
                assert(before[ring[i + 1] as int].next == Some(
                    if i + 2 < ring.len() {
                        ring[i + 2]
                    } else {
                        ring[0]
                    },
                ));
                assert(i + 2 < ring.len() ==> ring[i + 2] == order[i + 1]);
                assert(rows[order[i] as int] == before[order[i] as int]);
                assert(order.take(i + 1).drop_last() =~= order.take(i));
                assert(order.contains(current));
            }
            next = match meta.rows[current].next {
                Some(next) => next,
                None => 0,
            };
            if meta.rows[current].entries.len() > tls_id {
                let object = meta.rows[current].entries[tls_id];
                meta.rows[current].entries.set(tls_id, None);
                if let (Some(handler), Some(object)) = (handler, object) {
                    reclaims.push(Reclaim { handler, object });
                }
            }
            proof {
                assert(reclaims@ =~= column_reclaims(
                    before,
                    order.take(i + 1),
                    tls_id as int,
                    handler,
                ));
                assert forall|j: int| 0 <= j < order.len() && j != i implies order[j]
                    != current by {
                    assert(ring[j + 1] == order[j]);
                }
                i = i + 1;
            }
        }
        proof {
            assert(order.take(i) =~= order);
            assert forall|t: int| 0 <= t < before.len() implies (#[trigger] meta.rows@[t]).next
                == before[t].next && meta.rows@[t].prev == before[t].prev
                && meta.rows@[t].registered == before[t].registered by {
                assert(same_but_cell(before[t], meta.rows@[t], tls_id as int));
            }
            thread_local::lemma_same_ring(*old(meta), *meta);
        }
        reclaims
    }
}

impl<T: ThreadLocalObject> ThreadLocalPtr<T> {
    /// Takes a column for objects of type `T`.
    pub fn new(meta: &mut ThreadMetaGlobal) -> (ptr: Self)
        requires
            old(meta).wf(),
            old(meta).tls_id_free_list@.len() == 0 ==> old(meta).next_tls_id < usize::MAX,
        ensures
            final(meta).wf(),
            !old(meta).taken(ptr.tls_id),
            final(meta).taken(ptr.tls_id),
            if old(meta).tls_id_free_list@.len() == 0 {
                &&& ptr.tls_id == old(meta).next_tls_id
                &&& final(meta).next_tls_id == old(meta).next_tls_id + 1
                &&& final(meta).tls_id_free_list@ == old(meta).tls_id_free_list@
            } else {
                &&& ptr.tls_id == old(meta).tls_id_free_list@.last()
                &&& final(meta).next_tls_id == old(meta).next_tls_id
                &&& final(meta).tls_id_free_list@ == old(meta).tls_id_free_list@.drop_last()
            },
            exists|handler: Option<UnrefHandler>|
                {
                    &&& #[trigger] call_ensures(T::handler, (), handler)
                    &&& final(meta).unref_handler_map@ == (match handler {
                        Some(handler) => old(meta).unref_handler_map@.insert(ptr.tls_id, handler),
                        None => old(meta).unref_handler_map@.remove(ptr.tls_id),
                    })
                },
            forall|thread: usize|
                thread < final(meta).rows@.len() ==> (#[trigger] final(meta).cell(
                    thread,
                    ptr.tls_id as int,
                )) is None,
            final(meta).rows == old(meta).rows,
            final(meta).order == old(meta).order,
    {
        Self::new_with_handler(meta, T::handler())
    }
}

/// When a column with a handler goes, the object of each linked thread that has
/// one is reclaimed once; without a handler none is.
pub proof fn law_column_reclaims(
    rows: Seq<ThreadData>,
    order: Seq<usize>,
    tls_id: int,
    handler: Option<UnrefHandler>,
)
    ensures
        match handler {
            None => column_reclaims(rows, order, tls_id, handler).len() == 0,
            Some(handler) => column_reclaims(rows, order, tls_id, Some(handler)) == order.filter(
                |thread: usize| rows[thread as int].cell(tls_id) is Some,
            ).map_values(
                |thread: usize|
                    Reclaim { handler, object: rows[thread as int].cell(tls_id)->0 },
            ),
        },
    decreases order.len(),
{
    reveal(Seq::filter);
    if order.len() > 0 {
        let front = order.drop_last();
        law_column_reclaims(rows, front, tls_id, handler);
        if let Some(handler) = handler {
            let holds = |thread: usize| rows[thread as int].cell(tls_id) is Some;
            let made = |thread: usize|
                Reclaim { handler, object: rows[thread as int].cell(tls_id)->0 };
            assert(column_reclaims(rows, order, tls_id, Some(handler)) =~= order.filter(
                holds,
            ).map_values(made));
        }
    } else if let Some(handler) = handler {
        assert(column_reclaims(rows, order, tls_id, Some(handler)) =~= order.filter(
            |thread: usize| rows[thread as int].cell(tls_id) is Some,
        ).map_values(
            |thread: usize| Reclaim { handler, object: rows[thread as int].cell(tls_id)->0 },
        ));
    }
}

/// The rows differ in one cell at most.
pub open spec fn same_but_cell(before: ThreadData, after: ThreadData, tls_id: int) -> bool {
    &&& after.next == before.next
    &&& after.prev == before.prev
    &&& after.registered == before.registered
    &&& after.entries@.len() == before.entries@.len()
    &&& forall|id: int| id != tls_id ==> #[trigger] after.cell(id) == before.cell(id)
}

/// `after` is `before` with the thread linked, a cell for it in the column, and
/// no other cell changed.
pub open spec fn touched(
    before: ThreadMetaGlobal,
    after: ThreadMetaGlobal,
    thread: usize,
    tls_id: usize,
) -> bool {
    let len = before.rows@[thread as int].entries@.len();
    &&& after.order@ == (if before.rows@[thread as int].registered {
        before.order@
    } else {
        seq![thread] + before.order@
    })
    &&& after.rows@.len() == before.rows@.len()
    &&& after.same_other_rows(&before, thread)
    &&& after.rows@[thread as int].registered
    &&& after.rows@[thread as int].entries@.len() == (if tls_id < len {
        len as int
    } else {
        tls_id + 1
    })
    &&& forall|t: usize, id: int|
        t < before.rows@.len() && !(t == thread && id == tls_id) ==> #[trigger] after.cell(t, id)
            == before.cell(t, id)
    &&& after == (ThreadMetaGlobal { rows: after.rows, order: after.order, ..before })
}

/// A row that is registered and can be used is linked.
proof fn lemma_linked(meta: ThreadMetaGlobal, thread: usize)
    requires
        meta.wf(),
        0 < thread < meta.rows@.len(),
        meta.order@.contains(thread) || (meta.order@.len() > 0 && meta.order@[0] == thread),
    ensures
        meta.order@.contains(thread),
        meta.live(thread),
{
}

/// A column whose cells are empty and whose handler is gone can be free.
#[verifier::spinoff_prover]
#[verifier::rlimit(40)]
proof fn lemma_column_freed(before: ThreadMetaGlobal, after: ThreadMetaGlobal, tls_id: usize)
    requires
        before.wf(),
        before.taken(tls_id),
        after.ring_wf(),
        after.order == before.order,
        after.rows@.len() == before.rows@.len(),
        after.next_tls_id == before.next_tls_id,
        after.tls_id_free_list@ == before.tls_id_free_list@.push(tls_id),
        after.unref_handler_map@ == before.unref_handler_map@.remove(tls_id),
        forall|i: int|
            0 <= i < before.order@.len() ==> (#[trigger] after.rows@[before.order@[i] as int]).cell(
                tls_id as int,
            ) is None,
        forall|t: int|
            0 <= t < before.rows@.len() ==> same_but_cell(
                before.rows@[t],
                #[trigger] after.rows@[t],
                tls_id as int,
            ),
        forall|t: int|
            0 <= t < before.rows@.len() && !before.order@.contains(t as usize)
                ==> #[trigger] after.rows@[t] == before.rows@[t],
    ensures
        after.wf(),
        !after.taken(tls_id),
        forall|thread: usize|
            thread < after.rows@.len() ==> (#[trigger] after.cell(thread, tls_id as int)) is None,
        forall|thread: usize, id: int|
            thread < before.rows@.len() && id != tls_id ==> #[trigger] after.cell(thread, id)
                == before.cell(thread, id),
{
    let free = before.tls_id_free_list@;
    let now = after.tls_id_free_list@;
    assert(now[now.len() - 1] == tls_id);
    assert(after.rows@[0] == before.rows@[0]) by {
        assert(!before.order@.contains(0));
    }
    assert forall|id: usize| !after.taken(id) implies id == tls_id || !before.taken(id) by {
        if now.contains(id) {
            let i = now.index_of(id);
            if i < free.len() {
                assert(free[i] == id);
            }
        }
    }
    assert forall|thread: usize| thread < after.rows@.len() implies (#[trigger] after.cell(
        thread,
        tls_id as int,
    )) is None by {
        if before.order@.contains(thread) {
            let i = before.order@.index_of(thread);
            assert(after.rows@[before.order@[i] as int].cell(tls_id as int) is None);
        } else {
            assert(after.rows@[thread as int] == before.rows@[thread as int]);
            assert(before.rows@[thread as int].cell(tls_id as int) is None);
        }
    }
    assert forall|thread: usize, id: int| thread < before.rows@.len() && id
        != tls_id implies #[trigger] after.cell(thread, id) == before.cell(thread, id) by {
        assert(same_but_cell(
            before.rows@[thread as int],
            after.rows@[thread as int],
            tls_id as int,
        ));
    }
    assert forall|thread: usize, id: usize|
        thread < after.rows@.len() && !after.taken(id) implies (#[trigger] after.cell(
        thread,
        id as int,
    )) is None by {
        if id != tls_id {
            assert(before.cell(thread, id as int) is None);
        }
    }
    assert forall|thread: usize| 0 < thread < after.rows@.len() && !after.order@.contains(
        thread,
    ) implies {
        let row = #[trigger] after.rows@[thread as int];
        &&& row.next is None && row.prev is None
        &&& forall|tls_id: int| (#[trigger] row.cell(tls_id)) is None
    } by {
        assert(after.rows@[thread as int] == before.rows@[thread as int]);
    }
    assert(now.no_duplicates()) by {
        assert forall|i: int, j: int|
            0 <= i < now.len() && 0 <= j < now.len() && i != j implies now[i] != now[j] by {
            if i < free.len() {
                assert(free.contains(free[i]));
            }
            if j < free.len() {
                assert(free.contains(free[j]));
            }
        }
    }
}

/// Using a cell touches no other: the other threads' rows, and the other cells of the
/// thread's row, hold what they held; the thread is linked, and its row is long enough.
pub proof fn law_use_of_a_cell_touches_no_other(
    before: ThreadMetaGlobal,
    after: ThreadMetaGlobal,
    thread: usize,
    tls_id: usize,
    t: usize,
    id: int,
)
    requires
        touched(before, after, thread, tls_id),
        thread < before.rows@.len(),
        t < before.rows@.len(),
        0 <= id < before.rows@[t as int].entries@.len(),
    ensures
        after.rows@.len() == before.rows@.len(),
        tls_id < after.rows@[thread as int].entries@.len(),
        id < after.rows@[t as int].entries@.len(),
        t != thread || id != tls_id ==> after.rows@[t as int].entries@[id]
            == before.rows@[t as int].entries@[id],
        t != thread ==> after.rows@[t as int].registered == before.rows@[t as int].registered,
        after.rows@[thread as int].registered,
        before.rows@[thread as int].registered ==> after.order == before.order,
        !before.rows@[thread as int].registered ==> after.order@ == seq![thread] + before.order@,
        after.unref_handler_map == before.unref_handler_map,
        after.next_tls_id == before.next_tls_id,
        after.tls_id_free_list == before.tls_id_free_list,
{
    if t != thread || id != tls_id {
        assert(after.cell(t, id) == before.cell(t, id));
        assert(t != thread ==> after.rows@[t as int].entries == before.rows@[t as int].entries);
    }
}

/// An object is reclaimed once: when a column is given back, its cells are empty, so a row
/// that goes later hands none of its objects out again, nor does the column.
pub proof fn law_reclaimed_cells_are_not_reclaimed_again(
    rows: Seq<ThreadData>,
    order: Seq<usize>,
    tls_id: usize,
    handler: Option<UnrefHandler>,
)
    requires
        forall|k: int|
            0 <= k < order.len() ==> (#[trigger] rows[order[k] as int]).cell(tls_id as int) is None,
    ensures
        column_reclaims(rows, order, tls_id as int, handler).len() == 0,
    decreases order.len(),
{
    reveal(Seq::filter);
    law_column_reclaims(rows, order, tls_id as int, handler);
    if order.len() > 0 {
        let front = order.drop_last();
        assert forall|k: int| 0 <= k < front.len() implies (
        #[trigger] rows[front[k] as int]).cell(tls_id as int) is None by {
            assert(front[k] == order[k]);
        }
        law_reclaimed_cells_are_not_reclaimed_again(rows, front, tls_id, handler);
        law_column_reclaims(rows, front, tls_id as int, handler);
        assert(rows[order[order.len() - 1] as int].cell(tls_id as int) is None);
    }
}

/// Giving back a column changes one cell of a row at most, and none of its links.
pub proof fn law_other_cells_stay(before: ThreadData, after: ThreadData, tls_id: int, id: int)
    requires
        same_but_cell(before, after, tls_id),
        0 <= id < before.entries@.len(),
    ensures
        after.entries@.len() == before.entries@.len(),
        id != tls_id ==> after.entries@[id] == before.entries@[id],
        after.next == before.next,
        after.prev == before.prev,
        after.registered == before.registered,
{
    if id != tls_id {
        assert(after.cell(id) == before.cell(id));
    }
}

} // verus!
