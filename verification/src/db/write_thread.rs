//! The queue in which writers gather, and how its leader forms a group.

use crate::db::writer::{Writer, WriterState};
use vstd::prelude::*;

verus! {

/// The writers that one leader commits together.
#[derive(Debug)]
pub struct WriteGroup {
    pub leader: usize,
    pub last_writer: Option<usize>,
    pub assigned_seq_no: u64,
    /// How many writers are in the group, the leader among them.
    pub size: u64,
    pub writers: u32,
}

impl WriteGroup {
    /// A group that holds nobody yet, for `leader` to fill.
    pub fn new(leader: usize) -> (group: Self)
        ensures
            group == (WriteGroup {
                leader,
                last_writer: None,
                assigned_seq_no: 0,
                size: 0,
                writers: 0,
            }),
    {
        WriteGroup { leader, last_writer: None, assigned_seq_no: 0, size: 0, writers: 0 }
    }
}

/// Largest batch that a group takes in, unless its leader's batch is small.
pub const MAX_BATCH_SIZE_PER_GROUP: usize = 1048;

/// A leader's batch below this is small. The others in its group may be larger
/// than it by as much, so that small writes are not slowed by large ones.
pub const MIN_BATCH_SIZE_PER_GROUP: usize = 131;

/// The largest batch that a group takes in when its leader's batch is `size`.
pub open spec fn group_limit(size: int) -> int {
    if size < MIN_BATCH_SIZE_PER_GROUP {
        size + MIN_BATCH_SIZE_PER_GROUP
    } else {
        MAX_BATCH_SIZE_PER_GROUP as int
    }
}

/// Whether a group led by `leader` takes `writer` in: its batch holds
/// something, is within the limit, and is synced as the leader's is.
pub open spec fn compatible(leader: Writer, writer: Writer) -> bool {
    &&& !writer.batch_empty
    &&& writer.batch_size <= group_limit(leader.batch_size as int)
    &&& writer.sync == leader.sync
}

/// Those of `order` whom a group led by `leader` takes in (`taken`), or those
/// whom it does not, in the order in which they stand there.
pub open spec fn select(
    order: Seq<usize>,
    writers: Seq<Writer>,
    leader: Writer,
    taken: bool,
) -> Seq<usize>
    decreases order.len(),
{
    if order.len() == 0 {
        Seq::empty()
    } else {
        let rest = select(order.drop_last(), writers, leader, taken);
        if compatible(leader, writers[order.last() as int]) == taken {
            rest.push(order.last())
        } else {
            rest
        }
    }
}

/// `a` and `b` agree on everything but the links.
pub open spec fn same_write(a: Writer, b: Writer) -> bool {
    a == (Writer { link_older: a.link_older, group_next: a.group_next, ..b })
}

/// In `writers`, the `link_older` links run through `order` from its end to
/// its start.
pub open spec fn older_links(writers: Seq<Writer>, order: Seq<usize>) -> bool {
    forall|i: int|
        0 <= i < order.len() ==> (#[trigger] writers[order[i] as int]).link_older == (if i == 0 {
            None
        } else {
            Some(order[i - 1])
        })
}

/// In `writers`, the `group_next` links run through the first `linked` steps of
/// `order`, and no other writer of `order` has one.
pub open spec fn group_links(writers: Seq<Writer>, order: Seq<usize>, linked: int) -> bool {
    forall|i: int|
        0 <= i < order.len() ==> (#[trigger] writers[order[i] as int]).group_next == (if i
            < linked {
            Some(order[i + 1])
        } else {
            None
        })
}

/// In `writers`, both kinds of links run through the whole of `list`.
spec fn list_links(writers: Seq<Writer>, list: Seq<usize>) -> bool {
    forall|i: int|
        0 <= i < list.len() ==> {
            let writer = #[trigger] writers[list[i] as int];
            &&& writer.link_older == (if i == 0 {
                None
            } else {
                Some(list[i - 1])
            })
            &&& writer.group_next == (if i + 1 < list.len() {
                Some(list[i + 1])
            } else {
                None
            })
        }
}

/// As `list_links`, but for the end of `list`, whose `group_next` may be
/// anything.
spec fn open_list_links(writers: Seq<Writer>, list: Seq<usize>) -> bool {
    forall|i: int|
        0 <= i < list.len() ==> {
            let writer = #[trigger] writers[list[i] as int];
            &&& writer.link_older == (if i == 0 {
                None
            } else {
                Some(list[i - 1])
            })
            &&& i + 1 < list.len() ==> writer.group_next == Some(list[i + 1])
        }
}

/// Moving the front of `b` to the end of `c` repeats nothing.
proof fn lemma_move_keeps_distinct(a: Seq<usize>, b: Seq<usize>, c: Seq<usize>, d: Seq<usize>)
    requires
        (a + b + c + d).no_duplicates(),
        b.len() > 0,
    ensures
        (a + b.skip(1) + c.push(b[0]) + d).no_duplicates(),
{
    let old_all = a + b + c + d;
    let new_all = a + b.skip(1) + c.push(b[0]) + d;
    let place = |i: int|
        if i < a.len() {
            i
        } else if i < a.len() + b.len() - 1 {
            i + 1
        } else if i < a.len() + b.len() + c.len() - 1 {
            i + 1
        } else if i == a.len() + b.len() + c.len() - 1 {
            a.len() as int
        } else {
            i
        };
    assert forall|i: int| 0 <= i < new_all.len() implies 0 <= place(i) < old_all.len()
        && #[trigger] new_all[i] == old_all[place(i)] by {}
    assert forall|i: int, j: int|
        0 <= i < new_all.len() && 0 <= j < new_all.len() && i != j implies new_all[i]
        != new_all[j] by {
        assert(place(i) != place(j));
        assert(new_all[i] == old_all[place(i)]);
        assert(new_all[j] == old_all[place(j)]);
    }
}

/// Distinct indices below `bound` are at most `bound` many.
proof fn lemma_distinct_below(order: Seq<usize>, bound: nat)
    requires
        order.no_duplicates(),
        forall|k: int| 0 <= k < order.len() ==> (#[trigger] order[k]) < bound,
    ensures
        order.len() <= bound,
{
    let ints = order.map_values(|x: usize| x as int);
    assert(ints.no_duplicates());
    ints.unique_seq_to_set();
    vstd::set_lib::lemma_int_range(0, bound as int);
    assert(ints.to_set().subset_of(vstd::set_lib::set_int_range(0, bound as int)));
    vstd::set_lib::lemma_len_subset(
        ints.to_set(),
        vstd::set_lib::set_int_range(0, bound as int),
    );
}

/// Where nobody is left out, everybody is taken.
proof fn lemma_all_taken(order: Seq<usize>, writers: Seq<Writer>, leader: Writer)
    requires
        select(order, writers, leader, false).len() == 0,
    ensures
        select(order, writers, leader, true) == order,
    decreases order.len(),
{
    if order.len() > 0 {
        lemma_all_taken(order.drop_last(), writers, leader);
        assert(order.drop_last().push(order.last()) =~= order);
    }
}

/// Forming a group loses nobody and adds nobody: those taken and those left
/// are together the writers that there were.
pub proof fn law_group_keeps_everyone(order: Seq<usize>, writers: Seq<Writer>, leader: Writer)
    ensures
        select(order, writers, leader, true).to_multiset().add(
            select(order, writers, leader, false).to_multiset(),
        ) =~= order.to_multiset(),
    decreases order.len(),
{
    broadcast use vstd::seq_lib::group_to_multiset_ensures;

    if order.len() > 0 {
        law_group_keeps_everyone(order.drop_last(), writers, leader);
        assert(order.drop_last().push(order.last()) =~= order);
    }
}

/// A group holds compatible writers only, and leaves none of them out.
pub proof fn law_group_is_compatible(
    order: Seq<usize>,
    writers: Seq<Writer>,
    leader: Writer,
    taken: bool,
)
    ensures
        forall|k: int|
            0 <= k < select(order, writers, leader, taken).len() ==> compatible(
                leader,
                writers[(#[trigger] select(order, writers, leader, taken)[k]) as int],
            ) == taken,
    decreases order.len(),
{
    if order.len() > 0 {
        let front = order.drop_last();
        law_group_is_compatible(front, writers, leader, taken);
        let sub = select(front, writers, leader, taken);
        let all = select(order, writers, leader, taken);
        assert forall|k: int| 0 <= k < all.len() implies compatible(
            leader,
            writers[(#[trigger] all[k]) as int],
        ) == taken by {
            if k < sub.len() {
                assert(all[k] == sub[k]);
            }
        }
    }
}

/// A group takes in whoever fits, and nobody else. Behind a leader of fewer than
/// 131 bytes a batch fits up to the leader's size and 131 bytes more, behind a
/// larger one up to 1048 bytes; it must hold something, and be synced as the
/// leader's is. Whoever is left out breaks one of the three.
pub proof fn law_group_takes_what_fits(order: Seq<usize>, writers: Seq<Writer>, leader: Writer)
    ensures
        forall|k: int|
            0 <= k < select(order, writers, leader, true).len() ==> {
                let writer = writers[(#[trigger] select(order, writers, leader, true)[k]) as int];
                &&& !writer.batch_empty
                &&& leader.batch_size < 131 ==> writer.batch_size <= leader.batch_size + 131
                &&& leader.batch_size >= 131 ==> writer.batch_size <= 1048
                &&& writer.sync == leader.sync
            },
        forall|k: int|
            0 <= k < select(order, writers, leader, false).len() ==> {
                let writer = writers[(#[trigger] select(order, writers, leader, false)[k]) as int];
                ||| writer.batch_empty
                ||| leader.batch_size < 131 && writer.batch_size > leader.batch_size + 131
                ||| leader.batch_size >= 131 && writer.batch_size > 1048
                ||| writer.sync != leader.sync
            },
{
    law_group_is_compatible(order, writers, leader, true);
    law_group_is_compatible(order, writers, leader, false);
}

/// Nobody overtakes anybody: those taken, and those left, stand in the order
/// in which they entered the queue.
pub proof fn law_group_keeps_order(
    order: Seq<usize>,
    writers: Seq<Writer>,
    leader: Writer,
    taken: bool,
)
    requires
        order.no_duplicates(),
    ensures
        forall|k: int|
            0 <= k < select(order, writers, leader, taken).len() ==> order.contains(
                #[trigger] select(order, writers, leader, taken)[k],
            ),
        forall|j: int, k: int|
            0 <= j < k < select(order, writers, leader, taken).len() ==> order.index_of(
                #[trigger] select(order, writers, leader, taken)[j],
            ) < order.index_of(#[trigger] select(order, writers, leader, taken)[k]),
    decreases order.len(),
{
    if order.len() > 0 {
        let front = order.drop_last();
        law_group_keeps_order(front, writers, leader, taken);
        let sub = select(front, writers, leader, taken);
        assert(order[order.len() - 1] == order.last());
        assert forall|k: int| 0 <= k < sub.len() implies order.contains(#[trigger] sub[k])
            && order.index_of(sub[k]) == front.index_of(sub[k]) by {
            let at = front.index_of(sub[k]);
            assert(front.contains(sub[k]));
            assert(order[at] == sub[k]);
        }
    }
}

/// A group stands at the front of the queue, then those whom it left out, then
/// those who came too late for it. Everybody is there once, and within each of the
/// three nobody overtakes anybody. This is of a queue whose oldest writer leads,
/// and of which it saw the writers up to `at`.
pub proof fn law_group_stands_before_the_rest(order: Seq<usize>, writers: Seq<Writer>, at: int)
    requires
        order.no_duplicates(),
        0 <= at < order.len(),
    ensures
        ({
            let lead = writers[order[0] as int];
            let rest = order.subrange(1, at + 1);
            let taken = seq![order[0]] + select(rest, writers, lead, true);
            let left = select(rest, writers, lead, false);
            let now = taken + left + order.skip(at + 1);
            &&& taken.len() + left.len() == at + 1
            &&& now.len() == order.len()
            &&& now.to_multiset() == order.to_multiset()
            &&& forall|k: int| at < k < order.len() ==> #[trigger] now[k] == order[k]
            &&& forall|j: int, k: int|
                (0 <= j < k < taken.len() || taken.len() <= j < k <= at) ==> order.index_of(
                    #[trigger] now[j],
                ) < order.index_of(#[trigger] now[k])
            &&& forall|k: int|
                1 <= k < taken.len() ==> {
                    let writer = writers[(#[trigger] now[k]) as int];
                    &&& !writer.batch_empty
                    &&& lead.batch_size < 131 ==> writer.batch_size <= lead.batch_size + 131
                    &&& lead.batch_size >= 131 ==> writer.batch_size <= 1048
                    &&& writer.sync == lead.sync
                }
            &&& forall|k: int|
                taken.len() <= k <= at ==> {
                    let writer = writers[(#[trigger] now[k]) as int];
                    ||| writer.batch_empty
                    ||| lead.batch_size < 131 && writer.batch_size > lead.batch_size + 131
                    ||| lead.batch_size >= 131 && writer.batch_size > 1048
                    ||| writer.sync != lead.sync
                }
        }),
{
    broadcast use vstd::seq_lib::group_to_multiset_ensures;

    let lead = writers[order[0] as int];
    let rest = order.subrange(1, at + 1);
    let picked = select(rest, writers, lead, true);
    let taken = seq![order[0]] + picked;
    let left = select(rest, writers, lead, false);
    let newer = order.skip(at + 1);
    let now = taken + left + newer;
    assert(rest.no_duplicates());
    law_group_takes_what_fits(rest, writers, lead);
    law_group_keeps_everyone(rest, writers, lead);
    law_group_keeps_order(rest, writers, lead, true);
    law_group_keeps_order(rest, writers, lead, false);
    vstd::seq_lib::lemma_multiset_commutative(picked, left);
    assert((picked + left).to_multiset() =~= rest.to_multiset());
    (picked + left).to_multiset_ensures();
    rest.to_multiset_ensures();
    vstd::seq_lib::lemma_multiset_commutative(seq![order[0]], picked + left);
    vstd::seq_lib::lemma_multiset_commutative(seq![order[0]], rest);
    vstd::seq_lib::lemma_multiset_commutative(seq![order[0]] + (picked + left), newer);
    vstd::seq_lib::lemma_multiset_commutative(seq![order[0]] + rest, newer);
    assert(now =~= seq![order[0]] + (picked + left) + newer);
    assert(order =~= seq![order[0]] + rest + newer);
    assert(now.to_multiset() =~= order.to_multiset());
    assert forall|x: usize| #[trigger] rest.contains(x) implies order.contains(x) && order.index_of(
        x,
    ) == rest.index_of(x) + 1 by {
        let i = rest.index_of(x);
        assert(order[i + 1] == x);
    }
    assert(order.index_of(order[0]) == 0);
    assert forall|j: int, k: int|
        (0 <= j < k < taken.len() || taken.len() <= j < k <= at) implies order.index_of(
        #[trigger] now[j],
    ) < order.index_of(#[trigger] now[k]) by {
        if k < taken.len() {
            assert(now[k] == picked[k - 1]);
            assert(rest.contains(picked[k - 1]));
            if j > 0 {
                assert(now[j] == picked[j - 1]);
                assert(rest.contains(picked[j - 1]));
            }
        } else {
            assert(now[j] == left[j - taken.len()]);
            assert(now[k] == left[k - taken.len()]);
            assert(rest.contains(left[j - taken.len()]));
            assert(rest.contains(left[k - taken.len()]));
        }
    }
    assert forall|k: int| 1 <= k < taken.len() implies #[trigger] now[k] == picked[k - 1] by {}
    assert forall|k: int| taken.len() <= k <= at implies #[trigger] now[k] == left[k
        - taken.len()] by {}
}

/// The write queue.
///
/// Each writer links to the one that entered before it; `newest_writer` is the
/// last that entered. Whoever finds the queue empty becomes the leader.
pub struct WriteThread {
    pub writers: Vec<Writer>,
    pub newest_writer: Option<usize>,
    /// The queue, from the oldest writer to the newest.
    pub order: Ghost<Seq<usize>>,
    /// How many steps of the queue `group_next` already follows.
    pub linked: Ghost<int>,
}

impl Default for WriteThread {
    fn default() -> (thread: Self)
        ensures
            thread.wf(),
            thread.order@.len() == 0,
            thread.writers@.len() == 0,
    {
        Self::new()
    }
}

impl WriteThread {
    /// The links are those of the queue that `order` lists.
    pub open spec fn wf(&self) -> bool {
        &&& self.order@.no_duplicates()
        &&& forall|i: int|
            0 <= i < self.order@.len() ==> (#[trigger] self.order@[i]) < self.writers@.len()
        &&& self.newest_writer == (if self.order@.len() == 0 {
            None
        } else {
            Some(self.order@.last())
        })
        &&& older_links(self.writers@, self.order@)
        &&& group_links(self.writers@, self.order@, self.linked@)
        &&& 0 <= self.linked@
        &&& self.linked@ < self.order@.len() || self.linked@ == 0
    }

    /// An empty queue.
    pub fn new() -> (thread: Self)
        ensures
            thread.wf(),
            thread.order@.len() == 0,
            thread.writers@.len() == 0,
    {
        WriteThread {
            writers: Vec::new(),
            newest_writer: None,
            order: Ghost(Seq::empty()),
            linked: Ghost(0),
        }
    }

    /// Puts `writer` at the newest end of the queue and returns its index with
    /// whether the queue was empty.
    pub fn link_writer(&mut self, writer: Writer) -> (linked: (usize, bool))
        requires
            old(self).wf(),
            writer.group_next is None,
            writer.state & WriterState::INIT != 0,
        ensures
            final(self).wf(),
            linked.0 == old(self).writers@.len(),
            linked.1 == (old(self).order@.len() == 0),
            final(self).order@ == old(self).order@.push(linked.0),
            final(self).linked@ == old(self).linked@,
            final(self).newest_writer == Some(final(self).order@.last()),
            final(self).writers@ == old(self).writers@.push(
                Writer { link_older: old(self).newest_writer, ..writer },
            ),
    {
        let older = self.newest_writer;
        let index = self.writers.len();
        self.writers.push(Writer { link_older: older, ..writer });
        self.newest_writer = Some(index);
        self.order = Ghost(self.order@.push(index));
        (index, older.is_none())
    }

    /// Enters the queue. Whoever finds it empty is its leader and starts a
    /// group; everybody else is a follower, who waits as `Writer::wait` says.
    pub fn join(&mut self, writer: Writer) -> (joined: (usize, Option<WriteGroup>))
        requires
            old(self).wf(),
            writer.group_next is None,
            writer.state & WriterState::INIT != 0,
            old(self).order@.len() == 0 ==> writer.state & WriterState::LEADER != 0,
        ensures
            final(self).wf(),
            joined.0 == old(self).writers@.len(),
            joined.1 == (if old(self).order@.len() == 0 {
                Some(
                    WriteGroup {
                        leader: joined.0,
                        last_writer: None,
                        assigned_seq_no: 0,
                        size: 0,
                        writers: 0,
                    },
                )
            } else {
                None
            }),
            final(self).order@ == old(self).order@.push(joined.0),
            final(self).linked@ == old(self).linked@,
            final(self).newest_writer == Some(final(self).order@.last()),
            final(self).writers@ == old(self).writers@.push(
                Writer { link_older: old(self).newest_writer, ..writer },
            ),
    {
        let (index, leads) = self.link_writer(writer);
        if leads {
            (index, Some(WriteGroup::new(index)))
        } else {
            (index, None)
        }
    }

    /// Gives every writer older than `group_newest_writer` its `group_next`
    /// link, so that the group can be walked from its oldest writer up.
    ///
    /// The walk goes down the `link_older` links and ends at the oldest writer,
    /// or at one whose link is there already.
    pub fn set_new_links(&mut self, group_newest_writer: usize)
        requires
            old(self).wf(),
            old(self).order@.contains(group_newest_writer),
        ensures
            final(self).wf(),
            final(self).order@ == old(self).order@,
            final(self).newest_writer == old(self).newest_writer,
            final(self).writers@.len() == old(self).writers@.len(),
            forall|k: int|
                0 <= k < final(self).writers@.len() ==> same_write(
                    #[trigger] final(self).writers@[k],
                    old(self).writers@[k],
                ),
            forall|k: usize|
                k < final(self).writers@.len() && !old(self).order@.contains(k) ==> (
                #[trigger] final(self).writers@[k as int]) == old(self).writers@[k as int],
            ({
                let at = old(self).order@.index_of(group_newest_writer);
                final(self).linked@ == if old(self).linked@ < at {
                    at
                } else {
                    old(self).linked@
                }
            }),
            forall|k: int|
                0 <= k < old(self).order@.len() ==> {
                    let writer = #[trigger] final(self).writers@[old(self).order@[k] as int];
                    &&& writer.link_older == old(
                        self,
                    ).writers@[old(self).order@[k] as int].link_older
                    &&& writer.group_next == (if k < old(self).linked@ || k < old(
                        self,
                    ).order@.index_of(group_newest_writer) {
                        Some(old(self).order@[k + 1])
                    } else {
                        None
                    })
                },
    {
        let ghost order = self.order@;
        let ghost at = order.index_of(group_newest_writer);
        let ghost linked = self.linked@;
        let ghost mut i = at;
        let mut current = group_newest_writer;
        let mut walking = true;
        while walking
            invariant
                self.order@ == order,
                self.linked@ == linked,
                self.newest_writer == old(self).newest_writer,
                self.writers@.len() == old(self).writers@.len(),
                order == old(self).order@,
                order.no_duplicates(),
                forall|k: int| 0 <= k < order.len() ==> (#[trigger] order[k]) < self.writers@.len(),
                0 <= linked,
                linked < order.len() || linked == 0,
                0 <= i <= at < order.len(),
                i >= linked || i == at,
                current == order[i],
                older_links(self.writers@, order),
                forall|k: int|
                    0 <= k < order.len() ==> (#[trigger] self.writers@[order[k] as int]).group_next
                        == (if k < linked || i <= k < at {
                        Some(order[k + 1])
                    } else {
                        None
                    }),
                forall|k: int|
                    0 <= k < self.writers@.len() ==> same_write(
                        #[trigger] self.writers@[k],
                        old(self).writers@[k],
                    ),
                forall|k: usize|
                    k < self.writers@.len() && !order.contains(k) ==> #[trigger] self.writers@[k as int]
                        == old(self).writers@[k as int],
                !walking ==> i == 0 || i - 1 < linked,
            decreases i, walking as int,
        {
            let older = self.writers[current].link_older;
            match older {
                None => {
                    walking = false;
                },
                Some(w) => {
                    if self.writers[w].group_next.is_some() {
                        walking = false;
                    } else {
                        self.writers[w].group_next = Some(current);
                        current = w;
                        proof {
                            i = i - 1;
                        }
                    }
                },
            }
        }
        self.linked = Ghost(
            if linked < at {
                at
            } else {
                linked
            },
        );
    }

    /// Forms the group of `leader`, the oldest writer of the queue, out of all
    /// the writers that are there.
    ///
    /// The group is the leader with the compatible writers. The others leave
    /// their places and stand behind the group, in the order in which they
    /// came, for the next leader.
    pub fn enter_batch_group(&mut self, leader: usize, write_group: &mut WriteGroup)
        requires
            old(self).wf(),
            old(self).order@.len() > 0,
            old(self).order@[0] == leader,
        ensures
            final(self).wf(),
            final(self).writers@.len() == old(self).writers@.len(),
            forall|k: int|
                0 <= k < final(self).writers@.len() ==> same_write(
                    #[trigger] final(self).writers@[k],
                    old(self).writers@[k],
                ),
            forall|k: usize|
                k < final(self).writers@.len() && !old(self).order@.contains(k) ==> (
                #[trigger] final(self).writers@[k as int]) == old(self).writers@[k as int],
            ({
                let rest = old(self).order@.skip(1);
                let lead = old(self).writers@[leader as int];
                let taken = seq![leader] + select(rest, old(self).writers@, lead, true);
                let left = select(rest, old(self).writers@, lead, false);
                &&& final(self).order@ == taken + left
                &&& final(self).linked@ == old(self).order@.len() - 1
                &&& *final(write_group) == (WriteGroup {
                    last_writer: Some(taken.last()),
                    size: taken.len() as u64,
                    writers: 1,
                    ..*old(write_group)
                })
            }),
            1 <= final(write_group).size <= old(self).order@.len() - 1 + 1,
            final(write_group).last_writer == Some(
                final(self).order@[final(write_group).size - 1],
            ),
            final(self).order@.len() == old(self).order@.len(),
            final(self).order@[0] == leader,
            final(self).order@.to_multiset() == old(self).order@.to_multiset(),
            forall|k: int|
                old(self).order@.len() - 1 < k < old(self).order@.len() ==> #[trigger] final(self).order@[k]
                    == old(self).order@[k],
            forall|j: int, k: int|
                (0 <= j < k < final(write_group).size || final(write_group).size <= j < k <= old(self).order@.len() - 1)
                    ==> old(self).order@.index_of(#[trigger] final(self).order@[j])
                    < old(self).order@.index_of(#[trigger] final(self).order@[k]),
            forall|k: int|
                1 <= k < final(write_group).size ==> {
                    let lead = old(self).writers@[leader as int];
                    let writer = old(self).writers@[(#[trigger] final(self).order@[k]) as int];
                    &&& !writer.batch_empty
                    &&& lead.batch_size < 131 ==> writer.batch_size <= lead.batch_size + 131
                    &&& lead.batch_size >= 131 ==> writer.batch_size <= 1048
                    &&& writer.sync == lead.sync
                },
            forall|k: int|
                final(write_group).size <= k <= old(self).order@.len() - 1 ==> {
                    let lead = old(self).writers@[leader as int];
                    let writer = old(self).writers@[(#[trigger] final(self).order@[k]) as int];
                    ||| writer.batch_empty
                    ||| lead.batch_size < 131 && writer.batch_size > lead.batch_size + 131
                    ||| lead.batch_size >= 131 && writer.batch_size > 1048
                    ||| writer.sync != lead.sync
                },
            forall|k: int|
                0 <= k < final(self).order@.len() ==> {
                    let writer = #[trigger] final(self).writers@[final(self).order@[k] as int];
                    &&& writer.link_older == (if k == 0 {
                        None
                    } else {
                        Some(final(self).order@[k - 1])
                    })
                    &&& writer.group_next == (if k < old(self).order@.len() - 1 {
                        Some(final(self).order@[k + 1])
                    } else {
                        None
                    })
                },
            forall|k: int|
                0 <= k < final(self).writers@.len() ==> {
                    let now = #[trigger] final(self).writers@[k];
                    let was = old(self).writers@[k];
                    &&& now.batch_size == was.batch_size
                    &&& now.batch_empty == was.batch_empty
                    &&& now.state == was.state
                    &&& now.sync == was.sync
                },
    {
        let ghost order = self.order@;
        match self.newest_writer {
            None => {},
            Some(snapshot) => {
                proof {
                    assert(order[order.len() - 1] == snapshot);
                    assert(order.contains(snapshot));
                    assert(order.index_of(snapshot) == order.len() - 1);
                    assert(order.subrange(1, order.len() as int) =~= order.skip(1));
                    assert(order.skip(order.len() as int) =~= Seq::<usize>::empty());
                }
                self.enter_batch_group_at(leader, snapshot, write_group);
                proof {
                    let lead = old(self).writers@[leader as int];
                    let taken = seq![leader] + select(
                        order.skip(1),
                        old(self).writers@,
                        lead,
                        true,
                    );
                    let left = select(order.skip(1), old(self).writers@, lead, false);
                    assert(taken + left + Seq::<usize>::empty() =~= taken + left);
                }
            },
        }
    }

    /// Forms the group of `leader` out of the writers up to `snapshot`, the
    /// newest one that the leader saw.
    ///
    /// Writers that entered after `snapshot` keep their places at the end of
    /// the queue: the oldest of them now follows the last writer that was left
    /// out of the group.
    #[verifier::spinoff_prover]
    #[verifier::rlimit(40)]
    pub fn enter_batch_group_at(
        &mut self,
        leader: usize,
        snapshot: usize,
        write_group: &mut WriteGroup,
    )
        requires
            old(self).wf(),
            old(self).order@.contains(snapshot),
            old(self).order@[0] == leader,
            old(self).linked@ <= old(self).order@.index_of(snapshot),
        ensures
            final(self).wf(),
            final(self).writers@.len() == old(self).writers@.len(),
            forall|k: int|
                0 <= k < final(self).writers@.len() ==> same_write(
                    #[trigger] final(self).writers@[k],
                    old(self).writers@[k],
                ),
            forall|k: usize|
                k < final(self).writers@.len() && !old(self).order@.contains(k) ==> (
                #[trigger] final(self).writers@[k as int]) == old(self).writers@[k as int],
            ({
                let at = old(self).order@.index_of(snapshot);
                let rest = old(self).order@.subrange(1, at + 1);
                let lead = old(self).writers@[leader as int];
                let taken = seq![leader] + select(rest, old(self).writers@, lead, true);
                let left = select(rest, old(self).writers@, lead, false);
                &&& final(self).order@ == taken + left + old(self).order@.skip(at + 1)
                &&& final(self).linked@ == at
                &&& *final(write_group) == (WriteGroup {
                    last_writer: Some(taken.last()),
                    size: taken.len() as u64,
                    writers: 1,
                    ..*old(write_group)
                })
            }),
            1 <= final(write_group).size <= old(self).order@.index_of(snapshot) + 1,
            final(write_group).last_writer == Some(
                final(self).order@[final(write_group).size - 1],
            ),
            final(self).order@.len() == old(self).order@.len(),
            final(self).order@[0] == leader,
            final(self).order@.to_multiset() == old(self).order@.to_multiset(),
            forall|k: int|
                old(self).order@.index_of(snapshot) < k < old(self).order@.len() ==> #[trigger] final(self).order@[k]
                    == old(self).order@[k],
            forall|j: int, k: int|
                (0 <= j < k < final(write_group).size || final(write_group).size <= j < k <= old(self).order@.index_of(snapshot))
                    ==> old(self).order@.index_of(#[trigger] final(self).order@[j])
                    < old(self).order@.index_of(#[trigger] final(self).order@[k]),
            forall|k: int|
                1 <= k < final(write_group).size ==> {
                    let lead = old(self).writers@[leader as int];
                    let writer = old(self).writers@[(#[trigger] final(self).order@[k]) as int];
                    &&& !writer.batch_empty
                    &&& lead.batch_size < 131 ==> writer.batch_size <= lead.batch_size + 131
                    &&& lead.batch_size >= 131 ==> writer.batch_size <= 1048
                    &&& writer.sync == lead.sync
                },
            forall|k: int|
                final(write_group).size <= k <= old(self).order@.index_of(snapshot) ==> {
                    let lead = old(self).writers@[leader as int];
                    let writer = old(self).writers@[(#[trigger] final(self).order@[k]) as int];
                    ||| writer.batch_empty
                    ||| lead.batch_size < 131 && writer.batch_size > lead.batch_size + 131
                    ||| lead.batch_size >= 131 && writer.batch_size > 1048
                    ||| writer.sync != lead.sync
                },
            forall|k: int|
                0 <= k < final(self).order@.len() ==> {
                    let writer = #[trigger] final(self).writers@[final(self).order@[k] as int];
                    &&& writer.link_older == (if k == 0 {
                        None
                    } else {
                        Some(final(self).order@[k - 1])
                    })
                    &&& writer.group_next == (if k < old(self).order@.index_of(snapshot) {
                        Some(final(self).order@[k + 1])
                    } else {
                        None
                    })
                },
            forall|k: int|
                0 <= k < final(self).writers@.len() ==> {
                    let now = #[trigger] final(self).writers@[k];
                    let was = old(self).writers@[k];
                    &&& now.batch_size == was.batch_size
                    &&& now.batch_empty == was.batch_empty
                    &&& now.state == was.state
                    &&& now.sync == was.sync
                },
    {
        let ghost order = self.order@;
        let ghost at = order.index_of(snapshot);
        let ghost first = self.writers@;
        let ghost lead = first[leader as int];
        let ghost newer = order.skip(at + 1);
        let size = self.writers[leader].batch_size;
        let sync = self.writers[leader].sync;
        let max_size = if size < MIN_BATCH_SIZE_PER_GROUP {
            size + MIN_BATCH_SIZE_PER_GROUP
        } else {
            MAX_BATCH_SIZE_PER_GROUP
        };
        write_group.size = 1;
        write_group.writers = 1;
        write_group.last_writer = Some(leader);

        self.set_new_links(snapshot);

        let mut current = leader;
        let mut group_end = leader;
        let mut rejected_head: Option<usize> = None;
        let mut rejected_tail: Option<usize> = None;
        let ghost mut done: int = 0;
        let ghost mut taken = seq![leader];
        let ghost mut left: Seq<usize> = Seq::empty();
        let table: usize = self.writers.len();
        proof {
            lemma_distinct_below(order, first.len());
            assert(order.subrange(1, 1) =~= Seq::<usize>::empty());
            assert(taken + order.subrange(1, at + 1) + left + newer =~= order);
            assert(taken + order.subrange(1, at + 1) =~= order.take(at + 1));
            assert(list_links(self.writers@, order.take(at + 1)));
            assert forall|k: int| 0 <= k < newer.len() implies self.writers@[(
            #[trigger] newer[k]) as int] == first[newer[k] as int] by {
                assert(newer[k] == order[at + 1 + k]);
                assert(same_write(self.writers@[order[at + 1 + k] as int], first[order[at + 1 + k] as int]));
            }
        }
        while current != snapshot
            invariant
                self.order@ == order,
                self.newest_writer == old(self).newest_writer,
                self.writers@.len() == first.len(),
                order.no_duplicates(),
                order.len() <= first.len(),
                first.len() == table,
                forall|k: int| 0 <= k < order.len() ==> (#[trigger] order[k]) < first.len(),
                0 <= done <= at < order.len(),
                order[at] == snapshot,
                order[0] == leader,
                current == order[done],
                first == old(self).writers@,
                lead == first[leader as int],
                sync == lead.sync,
                max_size == group_limit(lead.batch_size as int),
                taken == seq![leader] + select(order.subrange(1, done + 1), first, lead, true),
                left == select(order.subrange(1, done + 1), first, lead, false),
                taken.len() + left.len() == done + 1,
                newer == order.skip(at + 1),
                (taken + order.subrange(done + 1, at + 1) + left + newer).no_duplicates(),
                forall|k: int|
                    0 <= k < taken.len() ==> (#[trigger] taken[k]) < first.len() && order.contains(
                        taken[k],
                    ),
                forall|k: int|
                    0 <= k < left.len() ==> (#[trigger] left[k]) < first.len() && order.contains(
                        left[k],
                    ),
                forall|k: usize|
                    k < first.len() && !order.contains(k) ==> (#[trigger] self.writers@[k as int])
                        == first[k as int],
                list_links(self.writers@, taken + order.subrange(done + 1, at + 1)),
                open_list_links(self.writers@, left),
                self.writers@[current as int].group_next == (if done < at {
                    Some(order[done + 1])
                } else {
                    None
                }),
                group_end == taken.last(),
                rejected_head == (if left.len() == 0 {
                    None
                } else {
                    Some(left[0])
                }),
                rejected_tail == (if left.len() == 0 {
                    None
                } else {
                    Some(left.last())
                }),
                forall|k: int|
                    0 <= k < first.len() ==> same_write(#[trigger] self.writers@[k], first[k]),
                forall|k: int|
                    0 <= k < newer.len() ==> self.writers@[(#[trigger] newer[k]) as int]
                        == first[newer[k] as int],
                *write_group == (WriteGroup {
                    last_writer: Some(taken.last()),
                    size: taken.len() as u64,
                    writers: 1,
                    ..*old(write_group)
                }),
            decreases at - done,
        {
            let ghost rest = order.subrange(done + 1, at + 1);
            let ghost before = self.writers@;
            if let Some(w) = self.writers[current].group_next {
                current = w;
                let writer = self.writers[w];
                proof {
                    assert(rest[0] == w);
                    assert((taken + rest)[taken.len() as int] == w);
                    assert(rest.skip(1) =~= order.subrange(done + 2, at + 1));
                    assert(order.subrange(1, done + 2).drop_last() =~= order.subrange(1, done + 1));
                    assert(same_write(before[w as int], first[w as int]));
                }
                if writer.batch_empty || writer.batch_size > max_size || writer.sync != sync {
                    proof {
                        lemma_move_keeps_distinct(taken, rest, left, newer);
                    }
                    self.reject(w, rejected_tail, Ghost(taken), Ghost(rest), Ghost(left), Ghost(newer));
                    if rejected_head.is_none() {
                        rejected_head = Some(w);
                    }
                    rejected_tail = Some(w);
                    proof {
                        left = left.push(w);
                        done = done + 1;
                    }
                } else {
                    group_end = w;
                    write_group.last_writer = Some(w);
                    write_group.size = write_group.size + 1;
                    proof {
                        assert(taken.push(w) + rest.skip(1) =~= taken + rest);
                        taken = taken.push(w);
                        done = done + 1;
                    }
                }
            }
        }
        proof {
            let none = order.subrange(done + 1, at + 1);
            assert(none =~= Seq::<usize>::empty());
            assert(taken + none =~= taken);
            assert(taken + none + left + newer =~= taken + left + newer);
            assert forall|k: int| 0 <= k < newer.len() implies self.writers@[(
            #[trigger] newer[k]) as int].group_next is None && self.writers@[newer[k] as int].link_older
                == (if k == 0 {
                Some(snapshot)
            } else {
                Some(newer[k - 1])
            }) by {
                assert(newer[k] == order[at + 1 + k]);
                assert(first[order[at + 1 + k] as int].link_older == Some(order[at + k]));
            }
            if newer.len() > 0 {
                assert(newer.last() == order.last());
            }
            assert(!newer.contains(snapshot));
            if left.len() == 0 {
                lemma_all_taken(order.subrange(1, at + 1), first, lead);
                assert(taken =~= order.take(at + 1));
                assert(taken.last() == snapshot);
            }
        }
        self.settle(
            rejected_head,
            rejected_tail,
            group_end,
            snapshot,
            Ghost(taken),
            Ghost(left),
            Ghost(newer),
        );
        proof {
            law_group_stands_before_the_rest(order, first, at);
        }
    }

    /// Puts the queue back together out of the group, the writers that it left
    /// out, and those that came after `snapshot`.
    #[verifier::spinoff_prover]
    #[verifier::rlimit(40)]
    fn settle(
        &mut self,
        rejected_head: Option<usize>,
        rejected_tail: Option<usize>,
        group_end: usize,
        snapshot: usize,
        Ghost(taken): Ghost<Seq<usize>>,
        Ghost(left): Ghost<Seq<usize>>,
        Ghost(newer): Ghost<Seq<usize>>,
    )
        requires
            taken.len() > 0,
            group_end == taken.last(),
            rejected_head == (if left.len() == 0 {
                None
            } else {
                Some(left[0])
            }),
            rejected_tail == (if left.len() == 0 {
                None
            } else {
                Some(left.last())
            }),
            left.len() == 0 ==> taken.last() == snapshot,
            !newer.contains(snapshot),
            old(self).newest_writer == (if newer.len() == 0 {
                Some(snapshot)
            } else {
                Some(newer.last())
            }),
            (taken + left + newer).no_duplicates(),
            forall|k: int|
                0 <= k < (taken + left + newer).len() ==> (#[trigger] (taken + left + newer)[k])
                    < old(self).writers@.len() && old(self).order@.contains(
                    (taken + left + newer)[k],
                ),
            list_links(old(self).writers@, taken),
            open_list_links(old(self).writers@, left),
            forall|k: int|
                0 <= k < newer.len() ==> old(self).writers@[(
                #[trigger] newer[k]) as int].group_next is None && old(self).writers@[newer[k] as int].link_older
                    == (if k == 0 {
                    Some(snapshot)
                } else {
                    Some(newer[k - 1])
                }),
        ensures
            final(self).wf(),
            final(self).order@ == taken + left + newer,
            final(self).linked@ == taken.len() + left.len() - 1,
            final(self).writers@.len() == old(self).writers@.len(),
            forall|k: int|
                0 <= k < final(self).writers@.len() ==> same_write(
                    #[trigger] final(self).writers@[k],
                    old(self).writers@[k],
                ),
            forall|k: usize|
                k < final(self).writers@.len() && !old(self).order@.contains(k) ==> (
                #[trigger] final(self).writers@[k as int]) == old(self).writers@[k as int],
    {
        let ghost all = taken + left + newer;
        let ghost n: int = (taken.len() + left.len()) as int;
        proof {
            assert forall|k: int| 0 <= k < newer.len() implies newer[k] == #[trigger] all[n + k] by {}
            assert forall|k: int| 0 <= k < newer.len() implies (#[trigger] newer[k])
                < self.writers@.len() by {
                assert(newer[k] == all[n + k]);
            }
            assert(newer.no_duplicates()) by {
                assert forall|i: int, j: int|
                    0 <= i < newer.len() && 0 <= j < newer.len() && i != j implies newer[i]
                    != newer[j] by {
                    assert(newer[i] == all[n + i] && newer[j] == all[n + j]);
                }
            }
            assert(taken + left =~= all.take(n));
            if left.len() == 0 {
                assert(taken + left =~= taken);
            }
        }
        if let (Some(head), Some(tail)) = (rejected_head, rejected_tail) {
            self.graft(head, tail, group_end, Ghost(taken), Ghost(left), Ghost(newer));
            if self.newest_writer == Some(snapshot) {
                self.newest_writer = Some(tail);
            } else if let Some(newest) = self.newest_writer {
                self.relink_above(newest, snapshot, tail, Ghost(newer));
            }
        }
        self.order = Ghost(all);
        self.linked = Ghost(n - 1);
        proof {
            let list = taken + left;
            assert(newer.len() > 0 ==> old(self).order@.contains(all[n]));
            assert forall|i: int| 0 <= i < all.len() implies (
            #[trigger] self.writers@[all[i] as int]).link_older == (if i == 0 {
                None
            } else {
                Some(all[i - 1])
            }) && self.writers@[all[i] as int].group_next == (if i < n - 1 {
                Some(all[i + 1])
            } else {
                None
            }) by {
                if i < n {
                    assert(all[i] == list[i]);
                    assert(newer.len() > 0 ==> all[n] == newer[0]);
                } else {
                    assert(all[i] == newer[i - n]);
                }
            }
        }
    }

    /// Takes `w`, the first of `rest`, out of the list `taken + rest` and puts
    /// it at the end of the list `left`.
    #[verifier::spinoff_prover]
    #[verifier::rlimit(40)]
    fn reject(
        &mut self,
        w: usize,
        rejected_tail: Option<usize>,
        Ghost(taken): Ghost<Seq<usize>>,
        Ghost(rest): Ghost<Seq<usize>>,
        Ghost(left): Ghost<Seq<usize>>,
        Ghost(newer): Ghost<Seq<usize>>,
    )
        requires
            taken.len() > 0,
            rest.len() > 0,
            rest[0] == w,
            rejected_tail == (if left.len() == 0 {
                None
            } else {
                Some(left.last())
            }),
            (taken + rest + left + newer).no_duplicates(),
            forall|k: int|
                0 <= k < (taken + rest + left + newer).len() ==> (#[trigger] (taken + rest + left
                    + newer)[k]) < old(self).writers@.len() && old(self).order@.contains(
                    (taken + rest + left + newer)[k],
                ),
            list_links(old(self).writers@, taken + rest),
            open_list_links(old(self).writers@, left),
        ensures
            final(self).order == old(self).order,
            final(self).linked == old(self).linked,
            final(self).newest_writer == old(self).newest_writer,
            final(self).writers@.len() == old(self).writers@.len(),
            forall|k: int|
                0 <= k < final(self).writers@.len() ==> same_write(
                    #[trigger] final(self).writers@[k],
                    old(self).writers@[k],
                ),
            forall|k: usize|
                k < final(self).writers@.len() && !old(self).order@.contains(k) ==> (
                #[trigger] final(self).writers@[k as int]) == old(self).writers@[k as int],
            list_links(final(self).writers@, taken + rest.skip(1)),
            open_list_links(final(self).writers@, left.push(w)),
            final(self).writers@[w as int].group_next == (if rest.len() > 1 {
                Some(rest[1])
            } else {
                None
            }),
            forall|k: int|
                0 <= k < newer.len() ==> final(self).writers@[(#[trigger] newer[k]) as int]
                    == old(self).writers@[newer[k] as int],
    {
        let ghost before = self.writers@;
        let ghost list = taken + rest;
        let ghost all = list + left + newer;
        let ghost n = taken.len() as int;
        proof {
            assert(all =~= taken + rest + left + newer);
            assert forall|i: int| 0 <= i < list.len() implies list[i] == #[trigger] all[i] by {}
            assert(list[n] == w && all[n] == w);
            assert(list[n - 1] == taken.last());
            assert(all[n - 1] == taken.last());
            assert(before[list[n] as int].link_older == Some(taken.last()));
            if rest.len() > 1 {
                assert(list[n + 1] == rest[1]);
                assert(all[n + 1] == rest[1]);
            }
            if left.len() > 0 {
                assert(all[list.len() + left.len() - 1] == left.last());
            }
        }
        let next = self.writers[w].group_next;
        if let Some(older) = self.writers[w].link_older {
            self.writers[older].group_next = next;
            if let Some(n) = next {
                self.writers[n].link_older = Some(older);
            }
        }
        match rejected_tail {
            None => {
                self.writers[w].link_older = None;
            },
            Some(tail) => {
                self.writers[w].link_older = Some(tail);
                self.writers[tail].group_next = Some(w);
            },
        }
        proof {
            let after = self.writers@;
            let shorter = taken + rest.skip(1);
            let longer = left.push(w);
            assert forall|i: int| 0 <= i < shorter.len() implies {
                let writer = #[trigger] after[shorter[i] as int];
                &&& writer.link_older == (if i == 0 {
                    None
                } else {
                    Some(shorter[i - 1])
                })
                &&& writer.group_next == (if i + 1 < shorter.len() {
                    Some(shorter[i + 1])
                } else {
                    None
                })
            } by {
                let j = if i < n {
                    i
                } else {
                    i + 1
                };
                assert(shorter[i] == list[j] && list[j] == all[j]);
                assert(before[list[j] as int].link_older == (if j == 0 {
                    None
                } else {
                    Some(list[j - 1])
                }));
            }
            assert forall|i: int| 0 <= i < longer.len() implies {
                let writer = #[trigger] after[longer[i] as int];
                &&& writer.link_older == (if i == 0 {
                    None
                } else {
                    Some(longer[i - 1])
                })
                &&& i + 1 < longer.len() ==> writer.group_next == Some(longer[i + 1])
            } by {
                if i < left.len() {
                    assert(longer[i] == left[i] && left[i] == all[list.len() + i]);
                    assert(before[left[i] as int].link_older == (if i == 0 {
                        None
                    } else {
                        Some(left[i - 1])
                    }));
                }
            }
            assert forall|k: int| 0 <= k < newer.len() implies after[(#[trigger] newer[k]) as int]
                == before[newer[k] as int] by {
                assert(newer[k] == all[list.len() + left.len() + k]);
            }
        }
    }

    /// Joins the list `left` to the end of the list `taken`.
    #[verifier::spinoff_prover]
    #[verifier::rlimit(40)]
    fn graft(
        &mut self,
        head: usize,
        tail: usize,
        group_end: usize,
        Ghost(taken): Ghost<Seq<usize>>,
        Ghost(left): Ghost<Seq<usize>>,
        Ghost(newer): Ghost<Seq<usize>>,
    )
        requires
            taken.len() > 0,
            left.len() > 0,
            head == left[0],
            tail == left.last(),
            group_end == taken.last(),
            (taken + left + newer).no_duplicates(),
            forall|k: int|
                0 <= k < (taken + left + newer).len() ==> (#[trigger] (taken + left + newer)[k])
                    < old(self).writers@.len() && old(self).order@.contains(
                    (taken + left + newer)[k],
                ),
            list_links(old(self).writers@, taken),
            open_list_links(old(self).writers@, left),
        ensures
            final(self).order == old(self).order,
            final(self).linked == old(self).linked,
            final(self).newest_writer == old(self).newest_writer,
            final(self).writers@.len() == old(self).writers@.len(),
            forall|k: int|
                0 <= k < final(self).writers@.len() ==> same_write(
                    #[trigger] final(self).writers@[k],
                    old(self).writers@[k],
                ),
            forall|k: usize|
                k < final(self).writers@.len() && !old(self).order@.contains(k) ==> (
                #[trigger] final(self).writers@[k as int]) == old(self).writers@[k as int],
            list_links(final(self).writers@, taken + left),
            forall|k: int|
                0 <= k < newer.len() ==> final(self).writers@[(#[trigger] newer[k]) as int]
                    == old(self).writers@[newer[k] as int],
    {
        let ghost before = self.writers@;
        let ghost all = taken + left + newer;
        let ghost n = taken.len() as int;
        proof {
            assert(all[n] == head);
            assert(all[n + left.len() - 1] == tail);
            assert(all[n - 1] == group_end);
        }
        self.writers[head].link_older = Some(group_end);
        self.writers[tail].group_next = None;
        self.writers[group_end].group_next = Some(head);
        proof {
            let after = self.writers@;
            let list = taken + left;
            assert forall|i: int| 0 <= i < list.len() implies {
                let writer = #[trigger] after[list[i] as int];
                &&& writer.link_older == (if i == 0 {
                    None
                } else {
                    Some(list[i - 1])
                })
                &&& writer.group_next == (if i + 1 < list.len() {
                    Some(list[i + 1])
                } else {
                    None
                })
            } by {
                assert(list[i] == all[i]);
                if i < n {
                    assert(before[taken[i] as int].link_older == (if i == 0 {
                        None
                    } else {
                        Some(taken[i - 1])
                    }));
                } else {
                    assert(list[i] == left[i - n]);
                    assert(before[left[i - n] as int].link_older == (if i == n {
                        None
                    } else {
                        Some(left[i - n - 1])
                    }));
                }
            }
            assert forall|k: int| 0 <= k < newer.len() implies after[(#[trigger] newer[k]) as int]
                == before[newer[k] as int] by {
                assert(newer[k] == all[n + left.len() + k]);
            }
        }
    }

    /// Walks down from `newest` to the writer that follows `snapshot` and makes
    /// it follow `tail`.
    fn relink_above(
        &mut self,
        newest: usize,
        snapshot: usize,
        tail: usize,
        Ghost(newer): Ghost<Seq<usize>>,
    )
        requires
            newer.len() > 0,
            newer.last() == newest,
            newer.no_duplicates(),
            !newer.contains(snapshot),
            forall|k: int| 0 <= k < newer.len() ==> (#[trigger] newer[k]) < old(self).writers@.len(),
            forall|k: int|
                0 <= k < newer.len() ==> old(self).writers@[(
                #[trigger] newer[k]) as int].link_older == (if k == 0 {
                    Some(snapshot)
                } else {
                    Some(newer[k - 1])
                }),
        ensures
            final(self).order == old(self).order,
            final(self).linked == old(self).linked,
            final(self).newest_writer == old(self).newest_writer,
            final(self).writers@ == old(self).writers@.update(
                newer[0] as int,
                Writer { link_older: Some(tail), ..old(self).writers@[newer[0] as int] },
            ),
    {
        let mut above = newest;
        let ghost mut q = newer.len() - 1;
        while self.writers[above].link_older != Some(snapshot)
            invariant
                *self == *old(self),
                0 <= q < newer.len(),
                above == newer[q],
                !newer.contains(snapshot),
                forall|k: int| 0 <= k < newer.len() ==> (#[trigger] newer[k]) < self.writers@.len(),
                forall|k: int|
                    0 <= k < newer.len() ==> self.writers@[(
                    #[trigger] newer[k]) as int].link_older == (if k == 0 {
                        Some(snapshot)
                    } else {
                        Some(newer[k - 1])
                    }),
            decreases q,
        {
            proof {
                assert(self.writers@[newer[q] as int].link_older == (if q == 0 {
                    Some(snapshot)
                } else {
                    Some(newer[q - 1])
                }));
            }
            if let Some(older) = self.writers[above].link_older {
                above = older;
                proof {
                    q = q - 1;
                }
            }
        }
        proof {
            assert(self.writers@[newer[q] as int].link_older == (if q == 0 {
                Some(snapshot)
            } else {
                Some(newer[q - 1])
            }));
            if q != 0 {
                assert(newer.contains(newer[q - 1]));
            }
        }
        self.writers[above].link_older = Some(tail);
    }
}

/// The links are those of the queue: each writer links to the one that entered
/// just before it, the oldest to nobody; `newest_writer` is the last that entered;
/// nobody is in the queue twice; and where a writer links to a next one in its
/// group, that is the one right behind it.
pub proof fn law_links_follow_the_queue(thread: WriteThread, i: int)
    requires
        thread.wf(),
        0 <= i < thread.order@.len(),
    ensures
        thread.order@[i] < thread.writers@.len(),
        thread.order@.no_duplicates(),
        thread.newest_writer == Some(thread.order@[thread.order@.len() - 1]),
        i == 0 ==> thread.writers@[thread.order@[i] as int].link_older is None,
        i > 0 ==> thread.writers@[thread.order@[i] as int].link_older == Some(
            thread.order@[i - 1],
        ),
        thread.writers@[thread.order@[i] as int].group_next matches Some(next) ==> {
            &&& i + 1 < thread.order@.len()
            &&& next == thread.order@[i + 1]
        },
{
    assert(thread.writers@[thread.order@[i] as int].link_older == (if i == 0 {
        None
    } else {
        Some(thread.order@[i - 1])
    }));
}

} // verus!
