//! The rows of the matrix, and what is known of all threads.

use std::collections::HashMap;
use vstd::prelude::*;

verus! {

/// Names what is to be done with an object when its cell is reclaimed.
#[derive(Debug, Clone, Copy, PartialEq, Eq, Structural)]
pub struct UnrefHandler(pub usize);

/// An object to be reclaimed, with what is to be done.
#[derive(Debug, Clone, Copy, PartialEq, Eq, Structural)]
pub struct Reclaim {
    pub handler: UnrefHandler,
    pub object: usize,
}

/// One thread's row.
#[derive(Debug)]
pub struct ThreadData {
    pub next: Option<usize>,
    pub prev: Option<usize>,
    /// The cells, by the id of their column. A row is as long as it has had to
    /// be so far.
    pub entries: Vec<Option<usize>>,
    pub registered: bool,
}

impl ThreadData {
    /// A row that is not linked, and has no cells yet.
    pub fn new() -> (data: Self)
        ensures
            data.next is None,
            data.prev is None,
            data.entries@.len() == 0,
            !data.registered,
    {
        ThreadData { next: None, prev: None, entries: Vec::new(), registered: false }
    }

    /// What the row holds in a column: nothing, where it is too short.
    pub open spec fn cell(&self, tls_id: int) -> Option<usize> {
        if 0 <= tls_id < self.entries@.len() {
            self.entries@[tls_id]
        } else {
            None
        }
    }
}

/// In `rows`, the links run around `ring` in both directions.
pub open spec fn ring_links(rows: Seq<ThreadData>, ring: Seq<usize>) -> bool {
    forall|i: int|
        0 <= i < ring.len() ==> {
            let row = #[trigger] rows[ring[i] as int];
            &&& row.next == Some(
                if i + 1 < ring.len() {
                    ring[i + 1]
                } else {
                    ring[0]
                },
            )
            &&& row.prev == Some(
                if i == 0 {
                    ring.last()
                } else {
                    ring[i - 1]
                },
            )
        }
}

/// The objects that are reclaimed when a row with these cells goes: those whose
/// column has a handler, in the order of the columns.
pub open spec fn row_reclaims(
    entries: Seq<Option<usize>>,
    handlers: Map<usize, UnrefHandler>,
) -> Seq<Reclaim>
    decreases entries.len(),
{
    if entries.len() == 0 {
        Seq::empty()
    } else {
        let rest = row_reclaims(entries.drop_last(), handlers);
        let tls_id = (entries.len() - 1) as usize;
        match entries.last() {
            Some(object) if handlers.contains_key(tls_id) => rest.push(
                Reclaim { handler: handlers[tls_id], object },
            ),
            _ => rest,
        }
    }
}

/// When a row goes, exactly the objects are reclaimed that it holds in columns
/// with a handler, each with that handler.
pub proof fn law_row_reclaims(entries: Seq<Option<usize>>, handlers: Map<usize, UnrefHandler>)
    requires
        entries.len() <= usize::MAX,
    ensures
        row_reclaims(entries, handlers).len() <= entries.len(),
        forall|k: int|
            0 <= k < row_reclaims(entries, handlers).len() ==> exists|tls_id: usize|
                {
                    &&& tls_id < entries.len()
                    &&& handlers.contains_key(tls_id)
                    &&& entries[tls_id as int] == Some(
                        (#[trigger] row_reclaims(entries, handlers)[k]).object,
                    )
                    &&& #[trigger] handlers[tls_id] == row_reclaims(entries, handlers)[k].handler
                },
        forall|tls_id: usize|
            tls_id < entries.len() && (#[trigger] entries[tls_id as int]) is Some
                && handlers.contains_key(tls_id) ==> row_reclaims(entries, handlers).contains(
                Reclaim { handler: handlers[tls_id], object: entries[tls_id as int]->0 },
            ),
    decreases entries.len(),
{
    if entries.len() > 0 {
        let front = entries.drop_last();
        let rest = row_reclaims(front, handlers);
        let all = row_reclaims(entries, handlers);
        let last = (entries.len() - 1) as usize;
        law_row_reclaims(front, handlers);
        assert forall|k: int| 0 <= k < all.len() implies exists|tls_id: usize|
            {
                &&& tls_id < entries.len()
                &&& handlers.contains_key(tls_id)
                &&& entries[tls_id as int] == Some((#[trigger] all[k]).object)
                &&& #[trigger] handlers[tls_id] == all[k].handler
            } by {
            if k < rest.len() {
                assert(all[k] == rest[k]);
                let tls_id = choose|tls_id: usize|
                    {
                        &&& tls_id < front.len()
                        &&& handlers.contains_key(tls_id)
                        &&& front[tls_id as int] == Some(rest[k].object)
                        &&& #[trigger] handlers[tls_id] == rest[k].handler
                    };
                assert(entries[tls_id as int] == front[tls_id as int]);
                assert(handlers[tls_id] == all[k].handler);
            } else {
                assert(handlers[last] == all[k].handler);
            }
        }
        assert forall|tls_id: usize|
            tls_id < entries.len() && (#[trigger] entries[tls_id as int]) is Some
                && handlers.contains_key(tls_id) implies all.contains(
            Reclaim { handler: handlers[tls_id], object: entries[tls_id as int]->0 },
        ) by {
            let reclaim = Reclaim { handler: handlers[tls_id], object: entries[tls_id as int]->0 };
            if tls_id < last {
                assert(front[tls_id as int] == entries[tls_id as int]);
                assert(rest.contains(reclaim));
                let k = rest.index_of(reclaim);
                assert(all[k] == reclaim);
            } else {
                assert(all[all.len() - 1] == reclaim);
            }
        }
    }
}

/// When a row goes, each cell is reclaimed at most once: the reclaims are, in the
/// order of the columns, one for each filled cell whose column has a handler. So
/// there are as many of them as such cells.
pub proof fn law_row_reclaims_each_cell_once(
    entries: Seq<Option<usize>>,
    handlers: Map<usize, UnrefHandler>,
)
    requires
        entries.len() <= usize::MAX,
    ensures
        ({
            let filled = Seq::new(entries.len(), |i: int| i as usize).filter(
                |tls_id: usize| entries[tls_id as int] is Some && handlers.contains_key(tls_id),
            );
            &&& row_reclaims(entries, handlers) == filled.map_values(
                |tls_id: usize|
                    Reclaim { handler: handlers[tls_id], object: entries[tls_id as int]->0 },
            )
            &&& row_reclaims(entries, handlers).len() == filled.len()
        }),
    decreases entries.len(),
{
    reveal(Seq::filter);
    let columns = Seq::new(entries.len(), |i: int| i as usize);
    let holds = |tls_id: usize|
        entries[tls_id as int] is Some && handlers.contains_key(tls_id);
    let made = |tls_id: usize|
        Reclaim { handler: handlers[tls_id], object: entries[tls_id as int]->0 };
    if entries.len() > 0 {
        let front = entries.drop_last();
        let last = (entries.len() - 1) as usize;
        law_row_reclaims_each_cell_once(front, handlers);
        let fewer = Seq::new(front.len(), |i: int| i as usize);
        let holds_front = |tls_id: usize|
            front[tls_id as int] is Some && handlers.contains_key(tls_id);
        let made_front = |tls_id: usize|
            Reclaim { handler: handlers[tls_id], object: front[tls_id as int]->0 };
        assert(columns.drop_last() =~= fewer);
        lemma_filter_agrees(fewer, holds_front, holds);
        let before = fewer.filter(holds);
        assert forall|k: int| 0 <= k < before.len() implies (#[trigger] before[k]) < last by {
            lemma_filtered_below(fewer, holds, last, k);
        }
        assert(before.map_values(made_front) =~= before.map_values(made));
        assert(columns.last() == last);
        assert(columns.filter(holds) =~= if holds(last) {
            before.push(last)
        } else {
            before
        });
        assert(row_reclaims(entries, handlers) =~= columns.filter(holds).map_values(made));
    } else {
        assert(columns.filter(holds) =~= Seq::<usize>::empty());
        assert(row_reclaims(entries, handlers) =~= columns.filter(holds).map_values(made));
    }
}

/// Predicates that agree on a row pick the same out of it.
proof fn lemma_filter_agrees(row: Seq<usize>, p: spec_fn(usize) -> bool, q: spec_fn(usize) -> bool)
    requires
        forall|i: int| 0 <= i < row.len() ==> p(#[trigger] row[i]) == q(row[i]),
    ensures
        row.filter(p) == row.filter(q),
    decreases row.len(),
{
    reveal(Seq::filter);
    if row.len() > 0 {
        assert forall|i: int| 0 <= i < row.drop_last().len() implies p(
            #[trigger] row.drop_last()[i],
        ) == q(row.drop_last()[i]) by {
            assert(row.drop_last()[i] == row[i]);
        }
        lemma_filter_agrees(row.drop_last(), p, q);
        assert(row.last() == row[row.len() - 1]);
    }
}

/// What is picked out of numbers below `bound` is below it.
proof fn lemma_filtered_below(row: Seq<usize>, p: spec_fn(usize) -> bool, bound: usize, k: int)
    requires
        forall|i: int| 0 <= i < row.len() ==> (#[trigger] row[i]) < bound,
        0 <= k < row.filter(p).len(),
    ensures
        row.filter(p)[k] < bound,
    decreases row.len(),
{
    reveal(Seq::filter);
    if row.len() > 0 {
        let front = row.drop_last();
        assert forall|i: int| 0 <= i < front.len() implies (#[trigger] front[i]) < bound by {
            assert(front[i] == row[i]);
        }
        if k < front.filter(p).len() {
            lemma_filtered_below(front, p, bound, k);
        } else {
            assert(row[row.len() - 1] < bound);
        }
    }
}

/// What is known of all threads.
///
/// The rows of the threads are linked into a ring, with row 0, which belongs to
/// no thread, between the last of them and the first.
pub struct ThreadMetaGlobal {
    pub rows: Vec<ThreadData>,
    pub unref_handler_map: HashMap<usize, UnrefHandler>,
    pub next_tls_id: usize,
    pub tls_id_free_list: Vec<usize>,
    /// The threads that are linked, from the one that came last to the first.
    pub order: Ghost<Seq<usize>>,
}

impl Default for ThreadMetaGlobal {
    fn default() -> (meta: Self)
        ensures
            meta.wf(),
            meta.rows@.len() == 1,
            meta.order@.len() == 0,
            meta.unref_handler_map@ == Map::<usize, UnrefHandler>::empty(),
            meta.next_tls_id == 0,
            meta.tls_id_free_list@.len() == 0,
    {
        Self::new()
    }
}

impl ThreadMetaGlobal {
    /// What the thread holds in a column.
    pub open spec fn cell(&self, thread: usize, tls_id: int) -> Option<usize> {
        self.rows@[thread as int].cell(tls_id)
    }

    /// The ring of rows.
    pub open spec fn ring(&self) -> Seq<usize> {
        seq![0usize] + self.order@
    }

    /// The thread's row can be used: it is linked, or was not linked yet.
    pub open spec fn live(&self, thread: usize) -> bool {
        &&& 0 < thread < self.rows@.len()
        &&& self.rows@[thread as int].registered ==> self.order@.contains(thread)
    }

    /// Somebody has the column `tls_id`.
    pub open spec fn taken(&self, tls_id: usize) -> bool {
        tls_id < self.next_tls_id && !self.tls_id_free_list@.contains(tls_id)
    }

    /// The links run around the ring; only rows in the ring hold anything; and a
    /// column that nobody has is empty, and has no handler.
    pub open spec fn wf(&self) -> bool {
        &&& 0 < self.rows@.len()
        &&& self.ring_wf()
        &&& forall|tls_id: int| (#[trigger] self.rows@[0].cell(tls_id)) is None
        &&& forall|thread: usize|
            0 < thread < self.rows@.len() && !self.order@.contains(thread) ==> {
                let row = #[trigger] self.rows@[thread as int];
                &&& row.next is None && row.prev is None
                &&& forall|tls_id: int| (#[trigger] row.cell(tls_id)) is None
            }
        &&& self.tls_id_free_list@.no_duplicates()
        &&& forall|i: int|
            0 <= i < self.tls_id_free_list@.len() ==> (#[trigger] self.tls_id_free_list@[i])
                < self.next_tls_id
        &&& forall|tls_id: usize|
            !self.taken(tls_id) ==> !(#[trigger] self.unref_handler_map@.contains_key(tls_id))
        &&& forall|thread: usize, tls_id: usize|
            thread < self.rows@.len() && !self.taken(tls_id) ==> (#[trigger] self.cell(
                thread,
                tls_id as int,
            )) is None
    }

    /// The links run around the ring, which visits each linked thread once.
    pub open spec fn ring_wf(&self) -> bool {
        &&& self.ring().no_duplicates()
        &&& forall|i: int|
            0 <= i < self.ring().len() ==> (#[trigger] self.ring()[i]) < self.rows@.len()
        &&& forall|i: int|
            0 <= i < self.order@.len() ==> 0 < (#[trigger] self.order@[i]) < self.rows@.len()
                && self.rows@[self.order@[i] as int].registered
        &&& ring_links(self.rows@, self.ring())
    }

    /// No thread, no column.
    pub fn new() -> (meta: Self)
        ensures
            meta.wf(),
            meta.rows@.len() == 1,
            meta.order@.len() == 0,
            meta.unref_handler_map@ == Map::<usize, UnrefHandler>::empty(),
            meta.next_tls_id == 0,
            meta.tls_id_free_list@.len() == 0,
    {
        let mut head = ThreadData::new();
        head.next = Some(0);
        head.prev = Some(0);
        let mut rows: Vec<ThreadData> = Vec::new();
        rows.push(head);
        ThreadMetaGlobal {
            rows,
            unref_handler_map: HashMap::new(),
            next_tls_id: 0,
            tls_id_free_list: Vec::new(),
            order: Ghost(Seq::empty()),
        }
    }

    /// The row was a thread's that has ended.
    pub open spec fn ended(&self, thread: usize) -> bool {
        &&& 0 < thread < self.rows@.len()
        &&& self.rows@[thread as int].registered
        &&& !self.order@.contains(thread)
    }

    /// The first row that was a thread's that has ended, where there is one.
    fn find_ended(&self) -> (found: Option<usize>)
        requires
            self.wf(),
        ensures
            match found {
                Some(thread) => self.ended(thread) && forall|t: usize|
                    t < thread ==> !#[trigger] self.ended(t),
                None => forall|t: usize| !#[trigger] self.ended(t),
            },
    {
        let mut thread: usize = 1;
        while thread < self.rows.len()
            invariant
                self.wf(),
                1 <= thread <= self.rows@.len(),
                forall|t: usize| t < thread ==> !#[trigger] self.ended(t),
            decreases self.rows@.len() - thread,
        {
            proof {
                if self.order@.contains(thread) {
                    let i = self.order@.index_of(thread);
                    assert(self.ring()[i + 1] == thread);
                    assert(self.rows@[self.ring()[i + 1] as int].next is Some);
                }
            }
            if self.rows[thread].registered && self.rows[thread].next.is_none() {
                return Some(thread);
            }
            thread = thread + 1;
        }
        None
    }

    /// Makes a row for a new thread, which is not linked yet: the first row whose
    /// thread has ended is used again, and where there is none, one is added.
    pub fn add_thread(&mut self) -> (thread: usize)
        requires
            old(self).wf(),
        ensures
            final(self).wf(),
            final(self).live(thread),
            if exists|t: usize| #[trigger] old(self).ended(t) {
                &&& old(self).ended(thread)
                &&& forall|t: usize| t < thread ==> !#[trigger] old(self).ended(t)
                &&& final(self).rows@.len() == old(self).rows@.len()
            } else {
                &&& thread == old(self).rows@.len()
                &&& final(self).rows@.len() == thread + 1
            },
            forall|t: int|
                0 <= t < old(self).rows@.len() && t != thread ==> #[trigger] final(self).rows@[t]
                    == old(self).rows@[t],
            !final(self).rows@[thread as int].registered,
            final(self).rows@[thread as int].entries@.len() == 0,
            *final(self) == (ThreadMetaGlobal { rows: final(self).rows, ..*old(self) }),
    {
        let ghost before = self.rows@;
        let thread = match self.find_ended() {
            Some(thread) => {
                self.rows.set(thread, ThreadData::new());
                thread
            },
            None => {
                let thread = self.rows.len();
                self.rows.push(ThreadData::new());
                thread
            },
        };
        proof {
            assert forall|i: int| 0 <= i < self.ring().len() implies self.ring()[i] != thread by {
                if i > 0 {
                    assert(self.ring()[i] == self.order@[i - 1]);
                    assert(self.order@.contains(self.order@[i - 1]));
                }
            }
            assert forall|i: int| 0 <= i < self.ring().len() implies (#[trigger] self.rows@[
            self.ring()[i] as int]) == before[self.ring()[i] as int] by {}
            assert forall|i: int| 0 <= i < self.order@.len() implies 0 < (
            #[trigger] self.order@[i]) < self.rows@.len()
                && self.rows@[self.order@[i] as int].registered by {
                assert(self.ring()[i + 1] == self.order@[i]);
            }
            assert forall|t: usize, id: usize|
                t < self.rows@.len() && !self.taken(id) implies (#[trigger] self.cell(
                t,
                id as int,
            )) is None by {
                if t != thread {
                    assert(old(self).cell(t, id as int) is None);
                }
            }
        }
        thread
    }

    /// Links the thread's row into the ring, in front of the others, unless that
    /// was done before.
    #[verifier::spinoff_prover]
    #[verifier::rlimit(40)]
    pub fn ensure_registered(&mut self, thread: usize)
        requires
            old(self).wf(),
            old(self).live(thread),
        ensures
            final(self).wf(),
            final(self).order@ == (if old(self).rows@[thread as int].registered {
                old(self).order@
            } else {
                seq![thread] + old(self).order@
            }),
            final(self).rows@.len() == old(self).rows@.len(),
            forall|t: int|
                0 <= t < old(self).rows@.len() ==> (#[trigger] final(self).rows@[t]).entries
                    == old(self).rows@[t].entries,
            forall|t: int|
                0 <= t < old(self).rows@.len() && t != thread ==> (
                #[trigger] final(self).rows@[t]).registered == old(self).rows@[t].registered,
            final(self).rows@[thread as int].registered,
            *final(self) == (ThreadMetaGlobal {
                rows: final(self).rows,
                order: final(self).order,
                ..*old(self)
            }),
    {
        if self.rows[thread].registered {
            return;
        }
        let ghost before = self.rows@;
        let ghost order = self.order@;
        let ghost ring = self.ring();
        proof {
            assert(ring[0] == 0);
            assert(before[ring[0] as int].next is Some);
            assert(!ring.contains(thread)) by {
                if ring.contains(thread) {
                    let i = ring.index_of(thread);
                    assert(ring[i] == order[i - 1]);
                }
            }
        }
        if let Some(first) = self.rows[0].next {
            self.rows[thread].prev = Some(0);
            self.rows[thread].next = Some(first);
            self.rows[first].prev = Some(thread);
            self.rows[0].next = Some(thread);
        }
        self.rows[thread].registered = true;
        self.order = Ghost(seq![thread] + order);
        proof {
            lemma_inserted(before, self.rows@, order, thread);
            assert forall|id: int| (#[trigger] self.rows@[0].cell(id)) is None by {
                assert(before[0].cell(id) is None);
            }
            assert forall|t: usize| 0 < t < self.rows@.len() && !self.order@.contains(t) implies {
                let row = #[trigger] self.rows@[t as int];
                &&& row.next is None && row.prev is None
                &&& forall|tls_id: int| (#[trigger] row.cell(tls_id)) is None
            } by {
                assert(t != thread) by {
                    assert(self.order@[0] == thread);
                }
                assert(!order.contains(t)) by {
                    if order.contains(t) {
                        assert(self.order@[order.index_of(t) + 1] == t);
                    }
                }
                assert(before[t as int].next is None);
                assert(forall|tls_id: int| (#[trigger] before[t as int].cell(tls_id)) is None);
                assert(self.rows@[t as int].entries == before[t as int].entries);
                assert forall|tls_id: int| (#[trigger] self.rows@[t as int].cell(tls_id)) is None by {
                    assert(before[t as int].cell(tls_id) is None);
                }
            }
            assert forall|t: usize, id: usize|
                t < self.rows@.len() && !self.taken(id) implies (#[trigger] self.cell(
                t,
                id as int,
            )) is None by {
                assert(old(self).cell(t, id as int) is None);
            }
        }
    }

    /// Makes sure that the thread's row is linked and has a cell for the column,
    /// and returns what the cell holds.
    pub fn with_tlp_ptr(&mut self, thread: usize, tls_id: usize) -> (object: Option<usize>)
        requires
            old(self).wf(),
            old(self).live(thread),
            tls_id < usize::MAX,
        ensures
            final(self).wf(),
            object == old(self).cell(thread, tls_id as int),
            final(self).order@ == (if old(self).rows@[thread as int].registered {
                old(self).order@
            } else {
                seq![thread] + old(self).order@
            }),
            final(self).rows@[thread as int].entries@.len() == (if tls_id
                < old(self).rows@[thread as int].entries@.len() {
                old(self).rows@[thread as int].entries@.len() as int
            } else {
                tls_id + 1
            }),
            final(self).same_cells(old(self)),
            final(self).same_other_rows(old(self), thread),
            final(self).rows@[thread as int].registered,
            *final(self) == (ThreadMetaGlobal {
                rows: final(self).rows,
                order: final(self).order,
                ..*old(self)
            }),
    {
        self.ensure_registered(thread);
        let ghost linked = *self;
        if self.rows[thread].entries.len() <= tls_id {
            self.rows[thread].entries.resize(tls_id + 1, None);
        }
        proof {
            assert(self.rows@ =~= linked.rows@.update(
                thread as int,
                ThreadData {
                    entries: self.rows@[thread as int].entries,
                    ..linked.rows@[thread as int]
                },
            ));
            lemma_longer_row(linked, *self, thread);
            assert(linked.same_cells(old(self)));
        }
        self.rows[thread].entries[tls_id]
    }

    /// The other rows have the cells that they have in `other`, and are registered
    /// as they are there.
    pub open spec fn same_other_rows(&self, other: &Self, thread: usize) -> bool {
        forall|t: int|
            0 <= t < other.rows@.len() && t != thread ==> (#[trigger] self.rows@[t]).entries
                == other.rows@[t].entries && self.rows@[t].registered == other.rows@[t].registered
    }

    /// All cells hold what they hold in `other`.
    pub open spec fn same_cells(&self, other: &Self) -> bool {
        &&& self.rows@.len() == other.rows@.len()
        &&& forall|t: usize, id: int|
            t < self.rows@.len() ==> #[trigger] self.cell(t, id) == other.cell(t, id)
    }

    /// Puts an object into a cell that is there.
    pub fn store(&mut self, thread: usize, tls_id: usize, object: usize)
        requires
            old(self).wf(),
            old(self).order@.contains(thread),
            old(self).taken(tls_id),
            tls_id < old(self).rows@[thread as int].entries@.len(),
        ensures
            final(self).wf(),
            final(self).cell(thread, tls_id as int) == Some(object),
            final(self).rows@.len() == old(self).rows@.len(),
            final(self).rows@[thread as int].entries@.len()
                == old(self).rows@[thread as int].entries@.len(),
            forall|t: usize, id: int|
                t < old(self).rows@.len() && !(t == thread && id == tls_id)
                    ==> #[trigger] final(self).cell(t, id) == old(self).cell(t, id),
            final(self).same_other_rows(old(self), thread),
            final(self).rows@[thread as int].registered
                == old(self).rows@[thread as int].registered,
            *final(self) == (ThreadMetaGlobal { rows: final(self).rows, ..*old(self) }),
    {
        let ghost before = *self;
        proof {
            let i = self.order@.index_of(thread);
            assert(self.order@[i] == thread);
        }
        self.rows[thread].entries.set(tls_id, Some(object));
        proof {
            lemma_same_ring(before, *self);
            assert forall|t: usize, id: usize|
                t < self.rows@.len() && !self.taken(id) implies (#[trigger] self.cell(
                t,
                id as int,
            )) is None by {
                assert(before.cell(t, id as int) is None);
            }
            assert forall|t: usize| 0 < t < self.rows@.len() && !self.order@.contains(t) implies {
                let row = #[trigger] self.rows@[t as int];
                &&& row.next is None && row.prev is None
                &&& forall|tls_id: int| (#[trigger] row.cell(tls_id)) is None
            } by {
                assert(self.rows@[t as int] == before.rows@[t as int]);
            }
        }
    }

    /// Takes the thread's row out of the ring and empties it, when the thread
    /// ends. Returns the objects that the row held, with what is to be done with
    /// them.
    pub fn drop_row(&mut self, thread: usize) -> (reclaims: Vec<Reclaim>)
        requires
            old(self).wf(),
            old(self).order@.contains(thread),
        ensures
            final(self).wf(),
            reclaims@ == row_reclaims(
                old(self).rows@[thread as int].entries@,
                old(self).unref_handler_map@,
            ),
            ({
                let entries = old(self).rows@[thread as int].entries@;
                let handlers = old(self).unref_handler_map@;
                reclaims@ == Seq::new(entries.len(), |i: int| i as usize).filter(
                    |tls_id: usize| entries[tls_id as int] is Some && handlers.contains_key(tls_id),
                ).map_values(
                    |tls_id: usize|
                        Reclaim { handler: handlers[tls_id], object: entries[tls_id as int]->0 },
                )
            }),
            final(self).order@ == old(self).order@.remove(old(self).order@.index_of(thread)),
            final(self).rows@.len() == old(self).rows@.len(),
            final(self).rows@[thread as int].next is None,
            final(self).rows@[thread as int].prev is None,
            final(self).rows@[thread as int].entries@.len()
                == old(self).rows@[thread as int].entries@.len(),
            forall|id: int| (#[trigger] final(self).cell(thread, id)) is None,
            forall|t: usize, id: int|
                t < old(self).rows@.len() && t != thread ==> #[trigger] final(self).cell(t, id)
                    == old(self).cell(t, id),
            final(self).same_other_rows(old(self), thread),
            final(self).rows@[thread as int].registered,
            *final(self) == (ThreadMetaGlobal {
                rows: final(self).rows,
                order: final(self).order,
                ..*old(self)
            }),
    {
        let ghost at = self.order@.index_of(thread);
        self.unlink(thread, Ghost(at));
        let ghost unlinked = *self;
        let reclaims = self.drain(thread);
        proof {
            assert forall|i: int| 0 <= i < self.ring().len() implies {
                let row = #[trigger] self.rows@[self.ring()[i] as int];
                &&& row.next == unlinked.rows@[self.ring()[i] as int].next
                &&& row.prev == unlinked.rows@[self.ring()[i] as int].prev
            } by {}
            lemma_dropped(*old(self), *self, thread, at);
            let row = old(self).rows@[thread as int];
            assert(row.entries.len() == row.entries@.len());
            law_row_reclaims_each_cell_once(
                old(self).rows@[thread as int].entries@,
                old(self).unref_handler_map@,
            );
        }
        reclaims
    }

    /// Takes the thread's row out of the ring.
    #[verifier::spinoff_prover]
    #[verifier::rlimit(40)]
    fn unlink(&mut self, thread: usize, Ghost(at): Ghost<int>)
        requires
            old(self).ring_wf(),
            0 <= at < old(self).order@.len(),
            old(self).order@[at] == thread,
        ensures
            final(self).order@ == old(self).order@.remove(at),
            final(self).rows@.len() == old(self).rows@.len(),
            final(self).ring().no_duplicates(),
            forall|i: int|
                0 <= i < final(self).ring().len() ==> (#[trigger] final(self).ring()[i])
                    < old(self).rows@.len(),
            ring_links(final(self).rows@, final(self).ring()),
            final(self).rows@[thread as int].next is None,
            final(self).rows@[thread as int].prev is None,
            forall|t: int|
                0 <= t < old(self).rows@.len() ==> (#[trigger] final(self).rows@[t]).entries
                    == old(self).rows@[t].entries && final(self).rows@[t].registered
                    == old(self).rows@[t].registered,
            forall|t: int|
                0 <= t < old(self).rows@.len() && !old(self).ring().contains(t as usize) ==> (
                #[trigger] final(self).rows@[t]).next == old(self).rows@[t].next
                    && final(self).rows@[t].prev == old(self).rows@[t].prev,
            *final(self) == (ThreadMetaGlobal {
                rows: final(self).rows,
                order: final(self).order,
                ..*old(self)
            }),
    {
        let ghost before = self.rows@;
        let ghost order = self.order@;
        let ghost ring = self.ring();
        proof {
            assert(ring[at + 1] == thread);
            assert(before[ring[at + 1] as int].next is Some);
            assert(before[ring[at + 1] as int].prev == Some(ring[at]));
        }
        let next = self.rows[thread].next;
        let prev = self.rows[thread].prev;
        if let (Some(prev), Some(next)) = (prev, next) {
            proof {
                assert(ring.contains(prev));
                assert(ring.contains(next));
                assert(ring.contains(thread));
            }
            self.rows[prev].next = Some(next);
            self.rows[next].prev = Some(prev);
        }
        self.rows[thread].next = None;
        self.rows[thread].prev = None;
        self.order = Ghost(order.remove(at));
        proof {
            lemma_removed(before, self.rows@, order, at);
        }
    }

    /// Empties the thread's row, and returns the objects that it held, with what
    /// is to be done with them.
    fn drain(&mut self, thread: usize) -> (reclaims: Vec<Reclaim>)
        requires
            thread < old(self).rows@.len(),
        ensures
            reclaims@ == row_reclaims(
                old(self).rows@[thread as int].entries@,
                old(self).unref_handler_map@,
            ),
            final(self).rows@ == old(self).rows@.update(
                thread as int,
                ThreadData {
                    entries: final(self).rows@[thread as int].entries,
                    ..old(self).rows@[thread as int]
                },
            ),
            final(self).rows@[thread as int].entries@.len()
                == old(self).rows@[thread as int].entries@.len(),
            forall|i: int|
                0 <= i < final(self).rows@[thread as int].entries@.len() ==> (
                #[trigger] final(self).rows@[thread as int].entries@[i]) is None,
            *final(self) == (ThreadMetaGlobal { rows: final(self).rows, ..*old(self) }),
    {
        let ghost before = self.rows@;
        let ghost entries = before[thread as int].entries@;
        let len = self.rows[thread].entries.len();
        let mut reclaims: Vec<Reclaim> = Vec::new();
        let mut idx: usize = 0;
        proof {
            assert(entries.take(0) =~= Seq::<Option<usize>>::empty());
            assert(self.rows@ =~= before.update(thread as int, before[thread as int]));
        }
        while idx < len
            invariant
                idx <= len,
                len == entries.len(),
                thread < before.len(),
                entries == before[thread as int].entries@,
                self.rows@ == before.update(
                    thread as int,
                    ThreadData {
                        entries: self.rows@[thread as int].entries,
                        ..before[thread as int]
                    },
                ),
                self.rows@[thread as int].entries@.len() == len,
                forall|i: int|
                    0 <= i < idx ==> (#[trigger] self.rows@[thread as int].entries@[i]) is None,
                forall|i: int|
                    idx <= i < len ==> #[trigger] self.rows@[thread as int].entries@[i]
                        == entries[i],
                reclaims@ == row_reclaims(entries.take(idx as int), self.unref_handler_map@),
                *self == (ThreadMetaGlobal { rows: self.rows, ..*old(self) }),
            decreases len - idx,
        {
            let object = self.rows[thread].entries[idx];
            self.rows[thread].entries.set(idx, None);
            proof {
                assert(entries.take(idx + 1).drop_last() =~= entries.take(idx as int));
                assert(self.rows@ =~= before.update(
                    thread as int,
                    ThreadData {
                        entries: self.rows@[thread as int].entries,
                        ..before[thread as int]
                    },
                ));
            }
            if let Some(object) = object {
                if let Some(handler) = self.unref_handler_map.get(&idx) {
                    reclaims.push(Reclaim { handler: *handler, object });
                }
            }
            idx = idx + 1;
        }
        proof {
            assert(entries.take(len as int) =~= entries);
        }
        reclaims
    }
}

/// `thread` stands in front of `order` in the ring.
#[verifier::spinoff_prover]
#[verifier::rlimit(40)]
proof fn lemma_inserted(
    before: Seq<ThreadData>,
    after: Seq<ThreadData>,
    order: Seq<usize>,
    thread: usize,
)
    requires
        ({
            let ring = seq![0usize] + order;
            let first = if order.len() > 0 {
                order[0]
            } else {
                0
            };
            &&& ring.no_duplicates()
            &&& !ring.contains(thread)
            &&& thread < before.len()
            &&& after.len() == before.len()
            &&& forall|i: int| 0 <= i < ring.len() ==> (#[trigger] ring[i]) < before.len()
            &&& ring_links(before, ring)
            &&& after[thread as int].prev == Some(0usize)
            &&& after[thread as int].next == Some(first)
            &&& after[0].next == Some(thread)
            &&& after[0].prev == (if order.len() > 0 {
                before[0].prev
            } else {
                Some(thread)
            })
            &&& order.len() > 0 ==> after[first as int].prev == Some(thread)
                && after[first as int].next == before[first as int].next
            &&& forall|t: int|
                0 <= t < before.len() && t != thread && t != 0 && t != first ==> (
                #[trigger] after[t]).next == before[t].next && after[t].prev == before[t].prev
        }),
    ensures
        ({
            let ring = seq![0usize] + (seq![thread] + order);
            &&& ring.no_duplicates()
            &&& forall|i: int| 0 <= i < ring.len() ==> (#[trigger] ring[i]) < before.len()
            &&& ring_links(after, ring)
        }),
{
    let old_ring = seq![0usize] + order;
    let ring = seq![0usize] + (seq![thread] + order);
    assert(old_ring[0] == 0);
    assert forall|i: int| 0 <= i < ring.len() implies (i == 0 ==> ring[i] == 0) && (i == 1
        ==> ring[i] == thread) && (i >= 2 ==> #[trigger] ring[i] == old_ring[i - 1]) by {}
    assert forall|i: int, j: int|
        0 <= i < ring.len() && 0 <= j < ring.len() && i != j implies ring[i] != ring[j] by {
        let a = if i >= 1 {
            i - 1
        } else {
            0
        };
        let b = if j >= 1 {
            j - 1
        } else {
            0
        };
        assert(i != 1 ==> ring[i] == old_ring[a]);
        assert(j != 1 ==> ring[j] == old_ring[b]);
    }
    assert forall|i: int| 0 <= i < ring.len() implies {
        let row = #[trigger] after[ring[i] as int];
        &&& row.next == Some(
            if i + 1 < ring.len() {
                ring[i + 1]
            } else {
                ring[0]
            },
        )
        &&& row.prev == Some(
            if i == 0 {
                ring.last()
            } else {
                ring[i - 1]
            },
        )
    } by {
        if i >= 2 {
            assert(ring[i] == old_ring[i - 1]);
            assert(before[old_ring[i - 1] as int].next == Some(
                if i < old_ring.len() {
                    old_ring[i]
                } else {
                    old_ring[0]
                },
            ));
            if i > 2 {
                assert(ring[i - 1] == old_ring[i - 2]);
                assert(old_ring[1] != old_ring[i - 1]);
            }
        } else if i == 0 {
            assert(before[old_ring[0] as int].prev == Some(old_ring.last()));
        }
    }
}

/// A row that got longer, or did not, changes no link and no cell.
proof fn lemma_longer_row(before: ThreadMetaGlobal, after: ThreadMetaGlobal, thread: usize)
    requires
        before.wf(),
        thread < before.rows@.len(),
        after.rows@ == before.rows@.update(
            thread as int,
            ThreadData {
                entries: after.rows@[thread as int].entries,
                ..before.rows@[thread as int]
            },
        ),
        forall|id: int|
            #[trigger] after.rows@[thread as int].cell(id) == before.rows@[thread as int].cell(id),
        after == (ThreadMetaGlobal { rows: after.rows, ..before }),
    ensures
        after.wf(),
        after.same_cells(&before),
{
    lemma_same_ring(before, after);
    assert forall|t: usize, id: int| t < after.rows@.len() implies #[trigger] after.cell(t, id)
        == before.cell(t, id) by {
        assert(after.rows@[t as int].cell(id) == before.rows@[t as int].cell(id));
    }
    assert forall|t: usize, id: usize| t < after.rows@.len() && !after.taken(id) implies (
    #[trigger] after.cell(t, id as int)) is None by {
        assert(before.cell(t, id as int) is None);
    }
    assert forall|t: usize| 0 < t < after.rows@.len() && !after.order@.contains(t) implies {
        let row = #[trigger] after.rows@[t as int];
        &&& row.next is None && row.prev is None
        &&& forall|tls_id: int| (#[trigger] row.cell(tls_id)) is None
    } by {
        assert(before.rows@[t as int].next is None);
        assert forall|id: int| (#[trigger] after.rows@[t as int].cell(id)) is None by {
            assert(before.rows@[t as int].cell(id) is None);
            assert(after.cell(t, id) == before.cell(t, id));
        }
    }
}

/// Where only cells change, the ring is as it was.
pub proof fn lemma_same_ring(before: ThreadMetaGlobal, after: ThreadMetaGlobal)
    requires
        before.ring_wf(),
        after.order == before.order,
        after.rows@.len() == before.rows@.len(),
        forall|t: int|
            0 <= t < before.rows@.len() ==> (#[trigger] after.rows@[t]).next == before.rows@[t].next
                && after.rows@[t].prev == before.rows@[t].prev && after.rows@[t].registered
                == before.rows@[t].registered,
    ensures
        after.ring_wf(),
{
    let ring = before.ring();
    assert forall|i: int| 0 <= i < ring.len() implies {
        let row = #[trigger] after.rows@[ring[i] as int];
        &&& row.next == Some(
            if i + 1 < ring.len() {
                ring[i + 1]
            } else {
                ring[0]
            },
        )
        &&& row.prev == Some(
            if i == 0 {
                ring.last()
            } else {
                ring[i - 1]
            },
        )
    } by {
        assert(before.rows@[ring[i] as int].next == after.rows@[ring[i] as int].next);
    }
}

/// The thread at `at` is out of the ring.
#[verifier::spinoff_prover]
#[verifier::rlimit(40)]
proof fn lemma_removed(
    before: Seq<ThreadData>,
    after: Seq<ThreadData>,
    order: Seq<usize>,
    at: int,
)
    requires
        0 <= at < order.len(),
        ({
            let ring = seq![0usize] + order;
            let thread = order[at];
            let prev = before[thread as int].prev->0;
            let next = before[thread as int].next->0;
            &&& ring.no_duplicates()
            &&& forall|i: int| 0 <= i < ring.len() ==> (#[trigger] ring[i]) < before.len()
            &&& ring_links(before, ring)
            &&& after.len() == before.len()
            &&& after[prev as int].next == Some(next)
            &&& after[next as int].prev == Some(prev)
            &&& prev != next ==> after[prev as int].prev == before[prev as int].prev
                && after[next as int].next == before[next as int].next
            &&& forall|t: int|
                0 <= t < before.len() && t != thread && t != prev && t != next ==> (
                #[trigger] after[t]).next == before[t].next && after[t].prev == before[t].prev
        }),
    ensures
        ({
            let ring = seq![0usize] + order.remove(at);
            &&& ring.no_duplicates()
            &&& forall|i: int| 0 <= i < ring.len() ==> (#[trigger] ring[i]) < before.len()
            &&& ring_links(after, ring)
        }),
{
    let old_ring = seq![0usize] + order;
    let ring = seq![0usize] + order.remove(at);
    let p = at + 1;
    let thread = order[at];
    assert(old_ring[p] == thread);
    assert(old_ring[0] == 0);
    let place = |i: int|
        if i < p {
            i
        } else {
            i + 1
        };
    assert forall|i: int| 0 <= i < ring.len() implies #[trigger] ring[i] == old_ring[place(i)] by {}
    assert forall|i: int, j: int|
        0 <= i < ring.len() && 0 <= j < ring.len() && i != j implies ring[i] != ring[j] by {
        assert(ring[i] == old_ring[place(i)]);
        assert(ring[j] == old_ring[place(j)]);
        assert(place(i) != place(j));
    }
    let prev = before[old_ring[p] as int].prev->0;
    let next = before[old_ring[p] as int].next->0;
    assert(prev == old_ring[p - 1]);
    assert(next == (if p + 1 < old_ring.len() {
        old_ring[p + 1]
    } else {
        0
    }));
    assert forall|i: int| 0 <= i < ring.len() implies {
        let row = #[trigger] after[ring[i] as int];
        &&& row.next == Some(
            if i + 1 < ring.len() {
                ring[i + 1]
            } else {
                ring[0]
            },
        )
        &&& row.prev == Some(
            if i == 0 {
                ring.last()
            } else {
                ring[i - 1]
            },
        )
    } by {
        let j = place(i);
        assert(ring[i] == old_ring[j]);
        assert(before[old_ring[j] as int].next == Some(
            if j + 1 < old_ring.len() {
                old_ring[j + 1]
            } else {
                old_ring[0]
            },
        ));
        assert(j != p);
        if i + 1 < ring.len() {
            assert(ring[i + 1] == old_ring[place(i + 1)]);
        }
        if i > 0 {
            assert(ring[i - 1] == old_ring[place(i - 1)]);
        }
        assert(ring.last() == old_ring[place(ring.len() - 1)]);
        assert(j != p - 1 ==> old_ring[j] != old_ring[p - 1]);
        if p + 1 < old_ring.len() {
            assert(j != p + 1 ==> old_ring[j] != old_ring[p + 1]);
        } else {
            assert(j != 0 ==> old_ring[j] != old_ring[0]);
        }
    }
}

/// A row that is out of the ring and empty leaves the rest as it was.
#[verifier::spinoff_prover]
#[verifier::rlimit(30)]
proof fn lemma_dropped(before: ThreadMetaGlobal, after: ThreadMetaGlobal, thread: usize, at: int)
    requires
        before.wf(),
        0 <= at < before.order@.len(),
        before.order@[at] == thread,
        after.rows@.len() == before.rows@.len(),
        after == (ThreadMetaGlobal {
            rows: after.rows,
            order: Ghost(before.order@.remove(at)),
            ..before
        }),
        ({
            let ring = after.ring();
            &&& ring.no_duplicates()
            &&& forall|i: int| 0 <= i < ring.len() ==> (#[trigger] ring[i]) < before.rows@.len()
            &&& ring_links(after.rows@, ring)
        }),
        after.rows@[thread as int].next is None,
        after.rows@[thread as int].prev is None,
        forall|i: int|
            0 <= i < after.rows@[thread as int].entries@.len() ==> (
            #[trigger] after.rows@[thread as int].entries@[i]) is None,
        forall|t: int|
            0 <= t < before.rows@.len() && t != thread ==> (#[trigger] after.rows@[t]).entries
                == before.rows@[t].entries && after.rows@[t].registered
                == before.rows@[t].registered,
        forall|t: int|
            0 <= t < before.rows@.len() && !before.ring().contains(t as usize) ==> (
            #[trigger] after.rows@[t]).next == before.rows@[t].next && after.rows@[t].prev
                == before.rows@[t].prev,
    ensures
        after.wf(),
        forall|id: int| (#[trigger] after.cell(thread, id)) is None,
        forall|t: usize, id: int|
            t < before.rows@.len() && t != thread ==> #[trigger] after.cell(t, id) == before.cell(
                t,
                id,
            ),
{
    let order = before.order@;
    let rest = order.remove(at);
    assert(thread != 0);
    assert forall|id: int| (#[trigger] after.rows@[0].cell(id)) is None by {
        assert(after.rows@[0].entries == before.rows@[0].entries);
        assert(before.rows@[0].cell(id) is None);
    }
    assert forall|i: int| 0 <= i < rest.len() implies 0 < (#[trigger] rest[i]) < after.rows@.len()
        && after.rows@[rest[i] as int].registered by {
        let j = if i < at {
            i
        } else {
            i + 1
        };
        assert(rest[i] == order[j]);
        assert(before.ring()[j + 1] == order[j]);
        assert(before.ring()[at + 1] == order[at]);
    }
    assert forall|t: usize, id: int| t < before.rows@.len() && t != thread implies #[trigger] after.cell(
        t,
        id,
    ) == before.cell(t, id) by {
        assert(after.rows@[t as int].entries == before.rows@[t as int].entries);
    }
    assert forall|t: usize, id: usize| t < after.rows@.len() && !after.taken(id) implies (
    #[trigger] after.cell(t, id as int)) is None by {
        assert(before.taken(id) == after.taken(id));
        assert(before.cell(t, id as int) is None);
    }
    assert forall|t: usize| 0 < t < after.rows@.len() && !after.order@.contains(t) implies {
        let row = #[trigger] after.rows@[t as int];
        &&& row.next is None && row.prev is None
        &&& forall|tls_id: int| (#[trigger] row.cell(tls_id)) is None
    } by {
        if t != thread {
            assert(!order.contains(t)) by {
                if order.contains(t) {
                    let j = order.index_of(t);
                    let i = if j < at {
                        j
                    } else {
                        j - 1
                    };
                    assert(rest[i] == t);
                }
            }
            assert(!before.ring().contains(t)) by {
                if before.ring().contains(t) {
                    let j = before.ring().index_of(t);
                    assert(before.ring()[j] == order[j - 1]);
                }
            }
            assert(before.rows@[t as int].next is None);
            assert forall|id: int| (#[trigger] after.rows@[t as int].cell(id)) is None by {
                assert(before.rows@[t as int].cell(id) is None);
                assert(after.cell(t, id) == before.cell(t, id));
            }
        }
    }
}

/// The ring visits each linked thread once, with row 0 between the last and the first:
/// each row links to the one behind it and to the one in front of it. A row outside the
/// ring has no links and holds nothing, and row 0 holds nothing.
pub proof fn law_ring_visits_the_linked(meta: ThreadMetaGlobal, i: int, thread: usize, tls_id: int)
    requires
        meta.wf(),
        0 <= i < meta.order@.len(),
        0 < thread < meta.rows@.len(),
    ensures
        ({
            let n = meta.order@.len();
            let row = meta.rows@[meta.order@[i] as int];
            &&& meta.order@.no_duplicates()
            &&& 0 < meta.order@[i] < meta.rows@.len()
            &&& row.registered
            &&& row.next == Some(if i + 1 < n {
                meta.order@[i + 1]
            } else {
                0
            })
            &&& row.prev == Some(if i > 0 {
                meta.order@[i - 1]
            } else {
                0
            })
            &&& meta.rows@[0].next == Some(meta.order@[0])
            &&& meta.rows@[0].prev == Some(meta.order@[n - 1])
            &&& 0 <= tls_id < meta.rows@[0].entries@.len() ==> meta.rows@[0].entries@[tls_id] is None
            &&& !meta.order@.contains(thread) ==> {
                let other = meta.rows@[thread as int];
                &&& other.next is None
                &&& other.prev is None
                &&& 0 <= tls_id < other.entries@.len() ==> other.entries@[tls_id] is None
            }
        }),
{
    let ring = meta.ring();
    assert forall|j: int| 0 <= j < meta.order@.len() implies #[trigger] ring[j + 1]
        == meta.order@[j] by {}
    assert(meta.order@.no_duplicates()) by {
        assert forall|j: int, k: int|
            0 <= j < meta.order@.len() && 0 <= k < meta.order@.len() && j
                != k implies meta.order@[j] != meta.order@[k] by {
            assert(ring[j + 1] == meta.order@[j]);
            assert(ring[k + 1] == meta.order@[k]);
        }
    }
    assert(ring[i + 1] == meta.order@[i]);
    assert(meta.rows@[ring[i + 1] as int].next is Some);
    assert(i + 2 < ring.len() ==> ring[i + 2] == meta.order@[i + 1]);
    assert(i > 0 ==> ring[i] == meta.order@[i - 1]);
    assert(ring[0] == 0);
    assert(meta.rows@[ring[0] as int].next is Some);
    assert(ring[1] == meta.order@[0]);
    assert(ring.last() == meta.order@[meta.order@.len() - 1]);
    assert(meta.rows@[0].cell(tls_id) is None);
    if !meta.order@.contains(thread) {
        assert(meta.rows@[thread as int].cell(tls_id) is None);
    }
}

/// A cell is what the row has at its column; a row that is too short has nothing there.
pub proof fn law_cells_are_the_entries(row: ThreadData, tls_id: int)
    ensures
        0 <= tls_id < row.entries@.len() ==> row.cell(tls_id) == row.entries@[tls_id],
        tls_id < 0 || row.entries@.len() <= tls_id ==> row.cell(tls_id) is None,
{
}

/// A column that nobody has is empty in every row, and has no handler, so whoever takes it
/// next finds nothing of what was there; a column is free exactly where it was never
/// handed out, or was given back.
pub proof fn law_free_columns_are_empty(meta: ThreadMetaGlobal, thread: usize, tls_id: usize)
    requires
        meta.wf(),
        thread < meta.rows@.len(),
    ensures
        tls_id >= meta.next_tls_id || meta.tls_id_free_list@.contains(tls_id) ==> {
            &&& !meta.taken(tls_id)
            &&& !meta.unref_handler_map@.contains_key(tls_id)
            &&& tls_id < meta.rows@[thread as int].entries@.len()
                ==> meta.rows@[thread as int].entries@[tls_id as int] is None
        },
        tls_id < meta.next_tls_id && !meta.tls_id_free_list@.contains(tls_id) ==> meta.taken(
            tls_id,
        ),
        meta.tls_id_free_list@.no_duplicates(),
{
    if !meta.taken(tls_id) {
        assert(meta.cell(thread, tls_id as int) is None);
    }
}

/// A row can be used by its thread until the thread ends: it is one that was never linked,
/// or one that the ring visits. A row that was linked and is not any more is an ended
/// thread's, and may be given to another.
pub proof fn law_rows_live_until_they_end(meta: ThreadMetaGlobal, thread: usize)
    requires
        0 < thread < meta.rows@.len(),
    ensures
        meta.live(thread) <==> !meta.rows@[thread as int].registered || meta.order@.contains(thread),
        meta.ended(thread) <==> meta.rows@[thread as int].registered && !meta.order@.contains(
            thread,
        ),
        meta.live(thread) <==> !meta.ended(thread),
{
}

} // verus!
