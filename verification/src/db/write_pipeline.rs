//! The pipeline that commits batches.
//!
//! Batches enter a queue in the order in which they are committed, and get their
//! sequence numbers in that order. They may be applied in any order, but they
//! leave the queue only from its front: a batch that is applied early waits for
//! those before it.

use crate::db::batch::{self, BatchInner};
use crate::db::batch_object::{
    BatchAllocation, BatchObject, BatchPtr, BatchRef, OwnedBatchPtr, Sealed,
};
use crate::db::options::DEFAULT_WRITE_PIPELINE_CAPACITY_SIZE;
use crate::error::Result;
use crate::utils;
use crate::version::SeqNumState;
use crate::wal::SyncSem;
use std::sync::Arc;
use vstd::prelude::*;

verus! {

/// Two positions in one word: `head`, where the next batch goes, in the upper
/// half, and `tail`, where the oldest batch is, in the lower half. The positions
/// wrap around.
#[derive(Debug, Clone, Copy, PartialEq, Eq, Structural)]
pub struct HeadTail(pub u64);

impl HeadTail {
    /// How many bits `tail` takes.
    pub const DEQUEUE_BITS: u32 = 32;

    /// What adding one to `head` adds to the word.
    pub const HEAD_UNIT: u64 = 0x1_0000_0000;

    /// Where the next batch goes.
    pub open spec fn head(self) -> u32 {
        (self.0 / 0x1_0000_0000) as u32
    }

    /// Where the oldest batch is.
    pub open spec fn tail(self) -> u32 {
        (self.0 % 0x1_0000_0000) as u32
    }

    /// Puts two positions into one word.
    pub fn pack(head: u32, tail: u32) -> (packed: Self)
        ensures
            packed.head() == head,
            packed.tail() == tail,
            packed.0 == head * 0x1_0000_0000 + tail,
    {
        HeadTail(head as u64 * Self::HEAD_UNIT + tail as u64)
    }

    /// The two positions.
    pub fn unpack(self) -> (positions: (u32, u32))
        ensures
            positions == (self.head(), self.tail()),
            self.0 == positions.0 * 0x1_0000_0000 + positions.1,
    {
        Self::unpack_unchecked(self.0)
    }

    /// The two positions in a word.
    pub fn unpack_unchecked(packed: u64) -> (positions: (u32, u32))
        ensures
            positions == (HeadTail(packed).head(), HeadTail(packed).tail()),
            packed == positions.0 * 0x1_0000_0000 + positions.1,
    {
        ((packed / Self::HEAD_UNIT) as u32, (packed % Self::HEAD_UNIT) as u32)
    }

    /// The word.
    pub fn raw(self) -> (raw: u64)
        ensures
            raw == self.0,
    {
        self.0
    }

    /// The positions in a word.
    pub fn from_raw(raw: u64) -> (positions: Self)
        ensures
            positions.0 == raw,
    {
        HeadTail(raw)
    }
}

/// A word holds its two positions and nothing else.
pub proof fn law_head_tail_round_trip(a: HeadTail, b: HeadTail)
    requires
        a.head() == b.head(),
        a.tail() == b.tail(),
    ensures
        a == b,
{
}

/// The sizes that a queue can have: powers of two, up to 1024.
pub open spec fn queue_size(n: usize) -> bool {
    n == 1 || n == 2 || n == 4 || n == 8 || n == 16 || n == 32 || n == 64 || n == 128 || n == 256
        || n == 512 || n == 1024
}

/// The position after `position`.
pub open spec fn next_position(position: u32) -> u32 {
    if position == u32::MAX {
        0
    } else {
        (position + 1) as u32
    }
}

/// How many positions lie from `tail` up to `head`.
pub open spec fn distance(tail: u32, head: u32) -> int {
    if head >= tail {
        head - tail
    } else {
        head - tail + 0x1_0000_0000
    }
}

/// Positions wrap around at a multiple of the size, so their slots follow one
/// another.
proof fn lemma_next_slot(position: u32, n: usize)
    requires
        queue_size(n),
    ensures
        next_position(position) as int % n as int == (position + 1) % n as int,
{
    if n == 1 {
    } else if n == 2 {
    } else if n == 4 {
    } else if n == 8 {
    } else if n == 16 {
    } else if n == 32 {
    } else if n == 64 {
    } else if n == 128 {
    } else if n == 256 {
    } else if n == 512 {
    } else {
    }
}

/// The slot of the `i`-th batch behind `tail` is where a producer finds it, and
/// two batches have two slots.
proof fn lemma_slots(tail: u32, head: u32, n: usize, i: int)
    requires
        queue_size(n),
        0 <= i <= distance(tail, head) <= n,
        i == distance(tail, head),
    ensures
        (tail + i) % n as int == head as int % n as int,
{
    if n == 1 {
    } else if n == 2 {
    } else if n == 4 {
    } else if n == 8 {
    } else if n == 16 {
    } else if n == 32 {
    } else if n == 64 {
    } else if n == 128 {
    } else if n == 256 {
    } else if n == 512 {
    } else {
    }
}

/// Positions less than the size apart have different slots.
proof fn lemma_slots_differ(tail: u32, n: usize, i: int, j: int)
    requires
        0 <= i < j < i + n,
    ensures
        (tail + i) % n as int != (tail + j) % n as int,
{
    let a = tail + i;
    let b = tail + j;
    let size = n as int;
    if a % size == b % size {
        vstd::arithmetic::div_mod::lemma_fundamental_div_mod(a, size);
        vstd::arithmetic::div_mod::lemma_fundamental_div_mod(b, size);
        let turns = b / size - a / size;
        assert(size * (b / size) - size * (a / size) == size * turns) by (nonlinear_arith)
            requires
                turns == b / size - a / size,
        ;
        assert(turns <= 0 || size * turns >= size) by (nonlinear_arith)
            requires
                size > 0,
        ;
        assert(turns > 0 || size * turns <= 0) by (nonlinear_arith)
            requires
                size > 0,
        ;
    }
}

/// What the producer does about the end of the queue.
#[derive(Debug, Clone, Copy, PartialEq, Eq, Structural)]
pub enum EnqueueStep {
    /// There is no room. Room is reserved before, so this does not happen.
    Full,
    /// A consumer has taken the batch that was in the slot, and has not cleared
    /// the slot yet: look again.
    Wait,
    /// Put the batch into the slot, then replace the word of positions by `next`.
    Store { next: HeadTail },
}

/// What a consumer does about the front of the queue.
#[derive(Debug, Clone, Copy, PartialEq, Eq, Structural)]
pub enum DequeueStep {
    /// There is no batch to take: the queue is empty, or its oldest batch is
    /// being taken by another, or is not applied.
    Nothing,
    /// Try to replace the word of positions by `next`; whoever does so has taken
    /// the oldest batch and clears its slot.
    Claim { next: HeadTail },
}

/// A bounded queue of batches that are ready to be committed.
///
/// Slots from `tail` up to `head` hold batches, and belong to the consumers; the
/// other slots are empty, and belong to the producer. Where consumers are at
/// work, a slot that `tail` has passed may not be empty yet: it belongs to the
/// consumer that took its batch, until that consumer clears it.
pub struct BatchQueue<const N: usize> {
    pub head_tail: HeadTail,
    pub slots: Vec<Option<BatchPtr>>,
    /// The batches, from the oldest to the newest.
    pub queue: Ghost<Seq<BatchPtr>>,
}

impl<const N: usize> View for BatchQueue<N> {
    type V = Seq<BatchPtr>;

    open spec fn view(&self) -> Seq<BatchPtr> {
        self.queue@
    }
}

impl<const N: usize> BatchQueue<N> {
    /// The positions span the batches, and the slots hold them. Nothing is said of
    /// the other slots.
    pub open spec fn spans(&self) -> bool {
        &&& queue_size(N)
        &&& self.slots@.len() == N
        &&& self@.len() == distance(self.head_tail.tail(), self.head_tail.head())
        &&& self@.len() <= N
        &&& forall|i: int|
            #![trigger self@[i]]
            0 <= i < self@.len() ==> self.slots@[(self.head_tail.tail() + i) % N as int] == Some(
                self@[i],
            )
    }

    /// The positions span the batches, the slots hold them, and the other slots
    /// are empty.
    pub open spec fn wf(&self) -> bool {
        &&& self.spans()
        &&& forall|i: int|
            self@.len() <= i < N ==> #[trigger] self.slots@[(self.head_tail.tail() + i)
                % N as int] is None
    }

    /// The slot of the `i`-th batch.
    pub open spec fn slot_of(&self, i: int) -> int {
        (self.head_tail.tail() + i) % N as int
    }

    /// The slot belongs to a batch that is in the queue.
    pub open spec fn live(&self, slot: int) -> bool {
        exists|i: int| 0 <= i < self@.len() && #[trigger] self.slot_of(i) == slot
    }

    /// The content of the slot where the next batch goes.
    pub open spec fn head_slot(&self) -> Option<BatchPtr> {
        self.slots@[self.head_tail.head() as int % N as int]
    }

    /// How many batches there is room for.
    pub fn size(&self) -> (size: usize)
        ensures
            size == N,
    {
        N
    }

    /// An empty queue.
    pub fn new() -> (queue: Self)
        requires
            queue_size(N),
        ensures
            queue.wf(),
            queue@.len() == 0,
            queue.head_tail == HeadTail(0),
    {
        let mut slots: Vec<Option<BatchPtr>> = Vec::new();
        let mut i: usize = 0;
        while i < N
            invariant
                i <= N,
                slots@.len() == i,
                forall|j: int| 0 <= j < i ==> (#[trigger] slots@[j]) is None,
            decreases N - i,
        {
            slots.push(None);
            i = i + 1;
        }
        let queue = BatchQueue { head_tail: HeadTail(0), slots, queue: Ghost(Seq::empty()) };
        proof {
            assert forall|i: int| 0 <= i < N implies #[trigger] queue.slots@[(
            queue.head_tail.tail() + i) % N as int] is None by {
                vstd::arithmetic::div_mod::lemma_small_mod(i as nat, N as nat);
            }
        }
        queue
    }

    /// The slot of a position.
    pub fn slot_index(position: u32) -> (slot: usize)
        requires
            queue_size(N),
        ensures
            slot == position as int % N as int,
            slot < N,
            1 <= N <= 1024,
    {
        (position % N as u32) as usize
    }

    /// Whether there is no room between these positions.
    pub fn is_full(positions: HeadTail) -> (full: bool)
        requires
            queue_size(N),
        ensures
            full == (distance(positions.tail(), positions.head()) == N),
            full <==> positions.head() == (positions.tail() + N) % 0x1_0000_0000,
    {
        let (head, tail) = positions.unpack();
        tail.wrapping_add(N as u32) == head
    }

    /// Decides what the producer does that saw the positions `positions`, and the
    /// content `slot` of the slot where the next batch goes.
    pub fn enqueue_step(positions: HeadTail, slot: Option<BatchPtr>) -> (step: EnqueueStep)
        requires
            queue_size(N),
        ensures
            if distance(positions.tail(), positions.head()) == N {
                step == EnqueueStep::Full
            } else if slot is Some {
                step == EnqueueStep::Wait
            } else {
                step matches EnqueueStep::Store { next } && next.head() == next_position(
                    positions.head(),
                ) && next.tail() == positions.tail()
            },
            step is Full <==> positions.head() == (positions.tail() + N) % 0x1_0000_0000,
            step is Wait <==> !(step is Full) && slot is Some,
            step is Store <==> !(step is Full) && slot is None,
            step matches EnqueueStep::Store { next } ==> {
                &&& next.head() == (positions.head() + 1) % 0x1_0000_0000
                &&& next.tail() == positions.tail()
            },
    {
        if Self::is_full(positions) {
            EnqueueStep::Full
        } else if slot.is_some() {
            EnqueueStep::Wait
        } else {
            let (head, tail) = positions.unpack();
            EnqueueStep::Store { next: HeadTail::pack(head.wrapping_add(1), tail) }
        }
    }

    /// Puts a batch at the end of the queue, where there is room and its slot is
    /// empty; otherwise the queue stays as it is. Returns the step that was done.
    pub fn try_enqueue(&mut self, batch: BatchPtr) -> (step: EnqueueStep)
        requires
            old(self).spans(),
        ensures
            final(self).spans(),
            old(self).wf() ==> final(self).wf(),
            step == EnqueueStep::Full <==> old(self)@.len() == N,
            step == EnqueueStep::Wait <==> old(self)@.len() < N && old(self).head_slot() is Some,
            match step {
                EnqueueStep::Store { next } => {
                    &&& final(self)@ == old(self)@.push(batch)
                    &&& final(self).head_tail == next
                    &&& next.head() == next_position(old(self).head_tail.head())
                    &&& next.tail() == old(self).head_tail.tail()
                    &&& final(self).slots@ == old(self).slots@.update(
                        old(self).head_tail.head() as int % N as int,
                        Some(batch),
                    )
                },
                _ => *final(self) == *old(self),
            },
    {
        let ghost before = *self;
        let (head, tail) = self.head_tail.unpack();
        let slot = Self::slot_index(head);
        let step = Self::enqueue_step(self.head_tail, self.slots[slot]);
        if let EnqueueStep::Store { next } = step {
            self.slots.set(slot, Some(batch));
            self.head_tail = next;
            self.queue = Ghost(self.queue@.push(batch));
            proof {
                lemma_stored(before, *self, batch);
            }
        }
        step
    }

    /// Puts a batch at the end of the queue. Room for it was reserved before.
    pub fn enqueue(&mut self, batch: BatchPtr)
        requires
            old(self).wf(),
            old(self)@.len() < N,
        ensures
            final(self).wf(),
            final(self)@ == old(self)@.push(batch),
            final(self).head_tail.head() == next_position(old(self).head_tail.head()),
            final(self).head_tail.head() == (old(self).head_tail.head() + 1) % 0x1_0000_0000,
            final(self).head_tail.tail() == old(self).head_tail.tail(),
            final(self).slots@ == old(self).slots@.update(
                old(self).head_tail.head() as int % N as int,
                Some(batch),
            ),
    {
        proof {
            let n = self@.len() as int;
            lemma_slots(self.head_tail.tail(), self.head_tail.head(), N, n);
            assert(self.slots@[(self.head_tail.tail() + n) % N as int] is None);
        }
        let _ = self.try_enqueue(batch);
    }

    /// Decides what a consumer does that saw the positions `positions`, the
    /// content `slot` of the oldest batch's slot, and whether that batch is
    /// applied.
    pub fn dequeue_step(positions: HeadTail, slot: Option<BatchPtr>, applied: bool) -> (step:
        DequeueStep)
        ensures
            if positions.tail() == positions.head() || slot is None || !applied {
                step == DequeueStep::Nothing
            } else {
                step matches DequeueStep::Claim { next } && next.head() == positions.head()
                    && next.tail() == next_position(positions.tail())
            },
            step is Claim <==> positions.tail() != positions.head() && slot is Some && applied,
            step matches DequeueStep::Claim { next } ==> {
                &&& next.head() == positions.head()
                &&& next.tail() == (positions.tail() + 1) % 0x1_0000_0000
            },
    {
        let (head, tail) = positions.unpack();
        if tail == head || slot.is_none() || !applied {
            DequeueStep::Nothing
        } else {
            DequeueStep::Claim { next: HeadTail::pack(head, tail.wrapping_add(1)) }
        }
    }

    /// The first half of taking the oldest batch: where it is applied, moves
    /// `tail` past it. Its slot, which is returned with it, keeps its content until
    /// it is cleared.
    pub fn claim<F: Fn(BatchPtr) -> bool>(&mut self, is_applied: F) -> (claimed: Option<
        (BatchPtr, usize),
    >)
        requires
            old(self).spans(),
            old(self)@.len() > 0 ==> call_requires(is_applied, (old(self)@[0],)),
        ensures
            final(self).spans(),
            final(self).head_tail.head() == old(self).head_tail.head(),
            final(self).slots == old(self).slots,
            if old(self)@.len() == 0 {
                claimed is None && *final(self) == *old(self)
            } else {
                exists|applied: bool|
                    {
                        &&& #[trigger] call_ensures(is_applied, (old(self)@[0],), applied)
                        &&& if applied {
                            &&& claimed matches Some((batch, slot)) && batch == old(self)@[0]
                                && slot == old(self).head_tail.tail() as int % N as int
                                && !final(self).live(slot as int)
                            &&& final(self)@ == old(self)@.drop_first()
                            &&& final(self).head_tail.tail() == next_position(
                                old(self).head_tail.tail(),
                            )
                        } else {
                            claimed is None && *final(self) == *old(self)
                        }
                    }
            },
    {
        let ghost before = *self;
        let (head, tail) = self.head_tail.unpack();
        if tail == head {
            return None;
        }
        let index = Self::slot_index(tail);
        let slot = self.slots[index];
        proof {
            assert(before@[0] == before@.first());
            assert(before.slots@[(tail + 0) % N as int] == Some(before@[0]));
        }
        match slot {
            None => None,
            Some(batch) => {
                let applied = is_applied(batch);
                match Self::dequeue_step(self.head_tail, slot, applied) {
                    DequeueStep::Nothing => None,
                    DequeueStep::Claim { next } => {
                        self.head_tail = next;
                        self.queue = Ghost(self.queue@.drop_first());
                        proof {
                            lemma_claimed(before, *self);
                        }
                        Some((batch, index))
                    },
                }
            },
        }
    }

    /// The second half of taking a batch: clears its slot, which goes back to the
    /// producer.
    pub fn clear(&mut self, slot: usize)
        requires
            old(self).spans(),
            slot < N,
            !old(self).live(slot as int),
        ensures
            final(self).spans(),
            final(self)@ == old(self)@,
            final(self).head_tail == old(self).head_tail,
            final(self).slots@ == old(self).slots@.update(slot as int, None),
    {
        let ghost before = *self;
        self.slots.set(slot, None);
        proof {
            assert forall|i: int|
                #![trigger self@[i]]
                0 <= i < self@.len() implies self.slots@[(self.head_tail.tail() + i) % N as int]
                == Some(self@[i]) by {
                assert(before@[i] == self@[i]);
                assert(before.live(before.slot_of(i)));
            }
        }
    }

    /// Takes the oldest batch out of the queue, where it is applied.
    pub fn try_dequeue<F: Fn(BatchPtr) -> bool>(&mut self, is_applied: F) -> (taken: Option<
        BatchPtr,
    >)
        requires
            old(self).wf(),
            old(self)@.len() > 0 ==> call_requires(is_applied, (old(self)@[0],)),
        ensures
            final(self).wf(),
            final(self).head_tail.head() == old(self).head_tail.head(),
            if old(self)@.len() == 0 {
                taken is None && *final(self) == *old(self)
            } else {
                exists|applied: bool|
                    {
                        &&& #[trigger] call_ensures(is_applied, (old(self)@[0],), applied)
                        &&& if applied {
                            &&& taken == Some(old(self)@[0])
                            &&& final(self)@ == old(self)@.drop_first()
                            &&& final(self).slots@ == old(self).slots@.update(
                                old(self).head_tail.tail() as int % N as int,
                                None,
                            )
                        } else {
                            taken is None && *final(self) == *old(self)
                        }
                    }
            },
    {
        let ghost before = *self;
        match self.claim(is_applied) {
            None => None,
            Some((batch, slot)) => {
                self.clear(slot);
                proof {
                    lemma_taken(before, *self);
                }
                Some(batch)
            },
        }
    }
}

/// Storing a batch in the slot at `head` leaves the others where they are.
proof fn lemma_stored<const N: usize>(
    before: BatchQueue<N>,
    after: BatchQueue<N>,
    batch: BatchPtr,
)
    requires
        before.spans(),
        before@.len() < N,
        after.head_tail.head() == next_position(before.head_tail.head()),
        after.head_tail.tail() == before.head_tail.tail(),
        after.slots@ == before.slots@.update(
            before.head_tail.head() as int % N as int,
            Some(batch),
        ),
        after@ == before@.push(batch),
    ensures
        after.spans(),
        before.wf() ==> after.wf(),
{
    let tail = before.head_tail.tail();
    let n = before@.len() as int;
    lemma_slots(tail, before.head_tail.head(), N, n);
    assert forall|i: int|
        #![trigger after@[i]]
        0 <= i < after@.len() implies after.slots@[(tail + i) % N as int] == Some(after@[i]) by {
        if i < n {
            lemma_slots_differ(tail, N, i, n);
            assert(before@[i] == after@[i]);
        }
    }
    if before.wf() {
        assert forall|i: int| after@.len() <= i < N implies #[trigger] after.slots@[(tail + i)
            % N as int] is None by {
            lemma_slots_differ(tail, N, n, i);
            assert(before.slots@[(tail + i) % N as int] is None);
        }
    }
}

/// Moving `tail` past the oldest batch leaves the others where they are.
proof fn lemma_claimed<const N: usize>(before: BatchQueue<N>, after: BatchQueue<N>)
    requires
        before.spans(),
        before@.len() > 0,
        after.head_tail.head() == before.head_tail.head(),
        after.head_tail.tail() == next_position(before.head_tail.tail()),
        after.slots == before.slots,
        after@ == before@.drop_first(),
    ensures
        after.spans(),
        !after.live(before.head_tail.tail() as int % N as int),
{
    let tail = before.head_tail.tail();
    let next = after.head_tail.tail();
    assert forall|i: int|
        #![trigger after@[i]]
        0 <= i < after@.len() implies after.slots@[(next + i) % N as int] == Some(after@[i]) by {
        lemma_shifted_slot(tail, N, i);
        assert(after@[i] == before@[i + 1]);
    }
    assert forall|i: int| 0 <= i < after@.len() implies #[trigger] after.slot_of(i) != tail as int
        % N as int by {
        lemma_shifted_slot(tail, N, i);
        lemma_slots_differ(tail, N, 0, i + 1);
    }
}

/// When the slot of the oldest batch is cleared too, all slots without a batch
/// are empty again.
proof fn lemma_taken<const N: usize>(before: BatchQueue<N>, after: BatchQueue<N>)
    requires
        before.wf(),
        before@.len() > 0,
        after.spans(),
        after.head_tail.tail() == next_position(before.head_tail.tail()),
        after.slots@ == before.slots@.update(before.head_tail.tail() as int % N as int, None),
        after@ == before@.drop_first(),
    ensures
        after.wf(),
{
    let tail = before.head_tail.tail();
    let next = after.head_tail.tail();
    assert forall|i: int| after@.len() <= i < N implies #[trigger] after.slots@[(next + i)
        % N as int] is None by {
        lemma_shifted_slot(tail, N, i);
        if i + 1 < N {
            lemma_slots_differ(tail, N, 0, i + 1);
            assert(before.slots@[(tail + (i + 1)) % N as int] is None);
        } else {
            assert((tail + N) % N as int == tail as int % N as int) by {
                vstd::arithmetic::div_mod::lemma_mod_add_multiples_vanish(
                    tail as int,
                    N as int,
                );
            }
        }
    }
}

/// The slots behind the next position are those behind this one, one further.
proof fn lemma_shifted_slot(position: u32, n: usize, i: int)
    requires
        queue_size(n),
        0 <= i,
    ensures
        (next_position(position) + i) % n as int == (position + (i + 1)) % n as int,
{
    lemma_next_slot(position, n);
    let a = next_position(position) as int;
    let b = position + 1;
    vstd::arithmetic::div_mod::lemma_add_mod_noop(a, i, n as int);
    vstd::arithmetic::div_mod::lemma_add_mod_noop(b, i, n as int);
}

/// Batches leave the queue in the order in which they entered it: those that
/// have left, followed by those that are there, are those that entered. Entering
/// keeps it so, and so does taking the oldest.
pub proof fn law_queue_keeps_order(
    entered: Seq<BatchPtr>,
    left: Seq<BatchPtr>,
    queue: Seq<BatchPtr>,
    batch: BatchPtr,
)
    requires
        entered == left + queue,
    ensures
        entered.push(batch) == left + queue.push(batch),
        queue.len() > 0 ==> entered == left.push(queue[0]) + queue.drop_first(),
{
    assert(entered.push(batch) =~= left + queue.push(batch));
    if queue.len() > 0 {
        assert(entered =~= left.push(queue[0]) + queue.drop_first());
    }
}

/// A slot that a consumer has taken stays with it until it is cleared: whatever
/// the producer does, from `before` to `after`, it does not overwrite the slot,
/// nor does the slot belong to a batch in the queue.
pub proof fn law_taken_slot_is_not_overwritten<const N: usize>(
    before: BatchQueue<N>,
    after: BatchQueue<N>,
    batch: BatchPtr,
    slot: int,
)
    requires
        before.spans(),
        0 <= slot < N,
        !before.live(slot),
        before.slots@[slot] is Some,
        if before@.len() == N || before.head_slot() is Some {
            after == before
        } else {
            &&& after@ == before@.push(batch)
            &&& after.head_tail.tail() == before.head_tail.tail()
            &&& after.slots@ == before.slots@.update(
                before.head_tail.head() as int % N as int,
                Some(batch),
            )
        },
    ensures
        after.slots@[slot] == before.slots@[slot],
        !after.live(slot),
{
    if before@.len() < N && before.head_slot() is None {
        let n = before@.len() as int;
        lemma_slots(before.head_tail.tail(), before.head_tail.head(), N, n);
        assert forall|i: int| 0 <= i < after@.len() implies #[trigger] after.slot_of(i) != slot by {
            assert(after.slot_of(i) == before.slot_of(i));
        }
    }
}

/// Of two consumers that saw the same positions, one takes the batch: a claim
/// replaces the word of positions by another word, so the claim of the other
/// finds it changed.
pub proof fn law_one_consumer_takes_a_batch(positions: HeadTail, next: HeadTail)
    requires
        next.head() == positions.head(),
        next.tail() == next_position(positions.tail()),
    ensures
        next != positions,
{
}

/// Where the pipeline hands a batch to the storage engine, once its place in the
/// order of commits is fixed.
pub trait WriterEnv {
    /// Prepares storage for the batch: writes it to the log, and makes room for
    /// it in memory. Batches are prepared one at a time, in their order.
    fn prepare_commit<'env>(&self, batch: &'env BatchRef<'env>) -> (result: Result<()>);

    /// Applies the batch in memory. Batches may be applied side by side.
    fn apply_commit<'env>(&self, batch: &'env BatchRef<'env>) -> (result: Result<()>);
}

/// The permits to enter the pipeline, of which there are `COUNTING_SEM_LIMIT`.
#[derive(Debug)]
pub struct PipelineAdmission<const COUNTING_SEM_LIMIT: usize> {
    /// How many are free.
    pub count: u16,
}

impl<const COUNTING_SEM_LIMIT: usize> PipelineAdmission<COUNTING_SEM_LIMIT> {
    /// No more are free than there are.
    pub open spec fn wf(&self) -> bool {
        self.count <= COUNTING_SEM_LIMIT <= u16::MAX
    }

    /// All permits are free.
    pub fn new() -> (admission: Self)
        requires
            COUNTING_SEM_LIMIT <= u16::MAX,
        ensures
            admission.wf(),
            admission.count == COUNTING_SEM_LIMIT,
    {
        PipelineAdmission { count: COUNTING_SEM_LIMIT as u16 }
    }

    /// Takes a permit, where one is free.
    pub fn try_acquire(&mut self) -> (acquired: bool)
        requires
            old(self).wf(),
        ensures
            final(self).wf(),
            acquired == (old(self).count > 0),
            final(self).count == (if acquired {
                old(self).count - 1
            } else {
                old(self).count as int
            }),
    {
        if self.count == 0 {
            return false;
        }
        self.count = self.count - 1;
        true
    }

    /// Takes a permit, of which one is free: a thread that finds none sleeps
    /// until there is.
    pub fn acquire(&mut self)
        requires
            old(self).wf(),
            old(self).count > 0,
        ensures
            final(self).wf(),
            final(self).count == old(self).count - 1,
    {
        let _ = self.try_acquire();
    }

    /// Gives a permit back.
    pub fn release(&mut self)
        requires
            old(self).wf(),
            old(self).count < COUNTING_SEM_LIMIT,
        ensures
            final(self).wf(),
            final(self).count == old(self).count + 1,
    {
        self.count = self.count + 1;
    }

    /// How many permits are free.
    pub fn available_permits(&self) -> (permits: usize)
        ensures
            permits == self.count,
    {
        self.count as usize
    }
}

/// How often a thread polls for a permit before it goes to sleep.
pub const RESERVE_SPINS: u32 = 200;

/// What a thread that waits for room in the queue does next.
#[derive(Debug, Clone, Copy, PartialEq, Eq, Structural)]
pub enum ReserveStep {
    /// There is room, and it is reserved.
    Reserved,
    /// Pause for a moment, then try again.
    Spin,
    /// Sleep until a permit comes back, then try again.
    Block,
}

/// One wait for room in the queue.
#[derive(Debug, Clone, Copy, PartialEq, Eq, Structural)]
pub struct ReserveWait {
    pub polls: u32,
}

impl ReserveWait {
    /// A wait that has not tried yet.
    pub fn new() -> (wait: Self)
        ensures
            wait.polls == 0,
    {
        ReserveWait { polls: 0 }
    }
}

/// The pipeline that batches are committed through. Its queue holds up to `N`.
pub struct WritePipeline<const N: usize, E: WriterEnv> {
    pub batch_queue: BatchQueue<N>,
    /// Room in the queue.
    pub commit_sem: PipelineAdmission<N>,
    /// Outstanding syncs of the log, over all batches.
    pub sync_sem: SyncSem,
    pub env: Arc<E>,
    /// The sequence numbers of the database that is written through this
    /// pipeline.
    pub seq_state: SeqNumState,
}

impl<E: WriterEnv> WritePipeline<DEFAULT_WRITE_PIPELINE_CAPACITY_SIZE, E> {
    /// An empty pipeline of the default size.
    pub fn new(env: Arc<E>, seq_state: SeqNumState, sync_sem: SyncSem) -> (pipeline: Self)
        ensures
            pipeline.wf(),
            pipeline.batch_queue@.len() == 0,
            pipeline.batch_queue.head_tail == HeadTail(0),
            pipeline.commit_sem.count == DEFAULT_WRITE_PIPELINE_CAPACITY_SIZE,
            pipeline.sync_sem == sync_sem,
            pipeline.env == env,
            pipeline.seq_state == seq_state,
    {
        Self::new_with_size(env, seq_state, sync_sem)
    }
}

impl<const N: usize, E: WriterEnv> WritePipeline<N, E> {
    /// Queue and permits are well formed, and each batch in the queue holds a
    /// permit.
    pub open spec fn wf(&self) -> bool {
        &&& self.batch_queue.wf()
        &&& self.commit_sem.wf()
        &&& self.reserved() >= 0
    }

    /// How many permits are held for batches that are not in the queue.
    pub open spec fn reserved(&self) -> int {
        N - self.commit_sem.count - self.batch_queue@.len()
    }

    /// How many permits are held for batches that are not in the queue: not there
    /// yet, or not any more.
    pub fn reserved_space(&self) -> (reserved: usize)
        requires
            self.wf(),
        ensures
            reserved == self.reserved(),
            reserved + self.commit_sem.count + self.batch_queue@.len() == N,
    {
        let (head, tail) = self.batch_queue.head_tail.unpack();
        N - self.commit_sem.available_permits() - head.wrapping_sub(tail) as usize
    }

    /// An empty pipeline.
    pub fn new_with_size(env: Arc<E>, seq_state: SeqNumState, sync_sem: SyncSem) -> (pipeline: Self)
        requires
            queue_size(N),
        ensures
            pipeline.wf(),
            pipeline.batch_queue@.len() == 0,
            pipeline.batch_queue.head_tail == HeadTail(0),
            pipeline.commit_sem.count == N,
            pipeline.sync_sem == sync_sem,
            pipeline.env == env,
            pipeline.seq_state == seq_state,
    {
        WritePipeline {
            batch_queue: BatchQueue::new(),
            commit_sem: PipelineAdmission::new(),
            sync_sem,
            env,
            seq_state,
        }
    }

    /// Tries to reserve room in the queue, and says what to do where there is
    /// none: poll for a while, then sleep.
    pub fn reserve_space(&mut self, wait: &mut ReserveWait) -> (step: ReserveStep)
        requires
            old(self).wf(),
        ensures
            final(self).wf(),
            step == (if old(self).commit_sem.count > 0 {
                ReserveStep::Reserved
            } else if old(wait).polls < RESERVE_SPINS {
                ReserveStep::Spin
            } else {
                ReserveStep::Block
            }),
            final(wait).polls == (if step == ReserveStep::Spin {
                old(wait).polls + 1
            } else {
                old(wait).polls as int
            }),
            step is Reserved <==> old(self).commit_sem.count > 0,
            step is Spin <==> old(self).commit_sem.count == 0 && old(wait).polls < 200,
            step is Block <==> old(self).commit_sem.count == 0 && 200 <= old(wait).polls,
            step is Spin ==> final(wait).polls == old(wait).polls + 1,
            final(self).commit_sem.count == (if step == ReserveStep::Reserved {
                old(self).commit_sem.count - 1
            } else {
                old(self).commit_sem.count as int
            }),
            step == ReserveStep::Reserved ==> final(self).reserved() == old(self).reserved() + 1,
            *final(self) == (WritePipeline { commit_sem: final(self).commit_sem, ..*old(self) }),
    {
        if self.try_reserve_space() {
            ReserveStep::Reserved
        } else if wait.polls < RESERVE_SPINS {
            wait.polls = wait.polls + 1;
            ReserveStep::Spin
        } else {
            ReserveStep::Block
        }
    }

    /// Reserves room in the queue, where there is some.
    pub fn try_reserve_space(&mut self) -> (reserved: bool)
        requires
            old(self).wf(),
        ensures
            final(self).wf(),
            reserved == (old(self).commit_sem.count > 0),
            final(self).commit_sem.count == (if reserved {
                old(self).commit_sem.count - 1
            } else {
                old(self).commit_sem.count as int
            }),
            reserved ==> final(self).reserved() == old(self).reserved() + 1,
            *final(self) == (WritePipeline { commit_sem: final(self).commit_sem, ..*old(self) }),
    {
        self.commit_sem.try_acquire()
    }

    /// Gives back room in the queue that was reserved for a batch that is not
    /// there.
    pub fn release_queue_space(&mut self)
        requires
            old(self).wf(),
            old(self).reserved() > 0,
        ensures
            final(self).wf(),
            final(self).reserved() == old(self).reserved() - 1,
            final(self).commit_sem.count == old(self).commit_sem.count + 1,
            *final(self) == (WritePipeline { commit_sem: final(self).commit_sem, ..*old(self) }),
    {
        self.commit_sem.release();
    }

    /// What preparing the batch `unstamped`, named `ptr`, does: from `before` to
    /// `after`, it takes the last place in the queue, for which there was room,
    /// and as many sequence numbers as the batch has operations; `batch` is the
    /// batch with the first of them in its header.
    pub open spec fn prepares(
        before: Self,
        ptr: BatchPtr,
        unstamped: BatchInner,
        after: Self,
        batch: BatchInner,
    ) -> bool {
        &&& after.wf()
        &&& after.reserved() == before.reserved() - 1
        &&& after.batch_queue@ == before.batch_queue@.push(ptr)
        &&& after.batch_queue.head_tail.head() == next_position(before.batch_queue.head_tail.head())
        &&& after.batch_queue.head_tail.tail() == before.batch_queue.head_tail.tail()
        &&& after.batch_queue.slots@ == before.batch_queue.slots@.update(
            before.batch_queue.head_tail.head() as int % N as int,
            Some(ptr),
        )
        &&& after == (WritePipeline {
            batch_queue: after.batch_queue,
            seq_state: after.seq_state,
            ..before
        })
        &&& stamped(unstamped, batch, before.seq_state.log_seq_num)
        &&& after.seq_state.visible_seq_num == before.seq_state.visible_seq_num
        &&& after.seq_state.log_seq_num == (before.seq_state.log_seq_num + unstamped.count)
            % 0x1_0000_0000_0000_0000
    }

    /// Commits a batch. The stages of a commit are not joined up yet, so nothing
    /// happens to it.
    pub fn commit(&self, batch: &BatchObject<Sealed, OwnedBatchPtr>) -> (result: Result<()>)
        ensures
            result is Ok,
    {
        Ok(())
    }

    /// Gives a batch its place in the order of commits: puts it at the end of
    /// the queue, where room was reserved for it, stamps it with the next sequence
    /// numbers, one for each of its operations, and has the environment prepare
    /// it.
    pub fn prepare<P: BatchAllocation>(&mut self, batch: &mut BatchObject<Sealed, P>) -> (result:
        Result<()>)
        requires
            old(self).wf(),
            old(self).reserved() > 0,
            old(batch).inner.inner().wf(),
            old(batch).inner.inner().data@.len() > 0,
        ensures
            Self::prepares(
                *old(self),
                old(batch).inner.ptr(),
                old(batch).inner.inner(),
                *final(self),
                final(batch).inner.inner(),
            ),
            final(batch).inner.ptr() == old(batch).inner.ptr(),
            final(self).batch_queue@ == old(self).batch_queue@.push(old(batch).inner.ptr()),
            utils::le_value(final(batch).inner.inner().data@.take(8))
                == old(self).seq_state.log_seq_num,
            final(batch).inner.inner().records == old(batch).inner.inner().records,
            final(batch).inner.inner().data@.skip(8) == old(batch).inner.inner().data@.skip(8),
            final(self).seq_state.visible_seq_num == old(self).seq_state.visible_seq_num,
            old(self).seq_state.log_seq_num + old(batch).inner.inner().records@.len() <= u64::MAX
                ==> final(self).seq_state.log_seq_num == old(self).seq_state.log_seq_num + old(
                batch,
            ).inner.inner().records@.len(),
            final(self).commit_sem == old(self).commit_sem,
            exists|view: BatchRef|
                *view.batch == final(batch).inner.inner() && #[trigger] call_ensures(
                    E::prepare_commit,
                    (&*old(self).env, &view),
                    result,
                ),
    {
        self.batch_queue.enqueue(batch.as_non_null());
        let count = batch.as_inner().get_batch_count();
        let first = self.seq_state.reserve(count as u64);
        batch.inner.batch_mut().assign_seq_num_once(first);
        let view = BatchRef::from_batch(batch.as_inner());
        self.env.prepare_commit(&view)
    }
}

/// `after` is `before` with `seq_num` in its header.
pub open spec fn stamped(before: BatchInner, after: BatchInner, seq_num: u64) -> bool {
    &&& after.wf()
    &&& after.data@ == utils::overwrite(before.data@, 0, utils::le_bytes(seq_num as nat, 8))
    &&& utils::le_value(after.data@.take(8)) == seq_num
    &&& after.count == before.count
    &&& after.records == before.records
    &&& batch::same_outside_data(before, after)
}

/// The sequence number of a batch's first operation, as its header has it.
pub open spec fn first_seq_num(batch: BatchInner) -> nat {
    utils::le_value(batch.data@.take(8))
}

/// Sequence numbers follow the order of commits. Take batches that one pipeline
/// prepares, one after the other: the operations of each get the numbers right
/// behind those of the batch before it, and no two operations share one. What
/// else happens to the pipeline in between leaves its sequence numbers alone.
pub proof fn law_sequence_numbers_follow<const N: usize, E: WriterEnv>(
    before: Seq<WritePipeline<N, E>>,
    ptrs: Seq<BatchPtr>,
    unstamped: Seq<BatchInner>,
    after: Seq<WritePipeline<N, E>>,
    batches: Seq<BatchInner>,
    i: int,
    j: int,
)
    requires
        before.len() == batches.len(),
        ptrs.len() == batches.len(),
        unstamped.len() == batches.len(),
        after.len() == batches.len(),
        forall|k: int|
            0 <= k < batches.len() ==> #[trigger] WritePipeline::prepares(
                before[k],
                ptrs[k],
                unstamped[k],
                after[k],
                batches[k],
            ),
        forall|k: int|
            0 <= k < batches.len() - 1 ==> (#[trigger] before[k + 1]).seq_state
                == after[k].seq_state,
        forall|k: int|
            0 <= k < batches.len() ==> (#[trigger] before[k]).seq_state.log_seq_num
                + unstamped[k].count <= u64::MAX,
        0 <= i < j < batches.len(),
    ensures
        first_seq_num(batches[i]) + batches[i].records@.len() <= first_seq_num(batches[j]),
        j == i + 1 ==> first_seq_num(batches[i]) + batches[i].records@.len() == first_seq_num(
            batches[j],
        ),
    decreases j,
{
    let last = j - 1;
    assert(WritePipeline::prepares(
        before[last],
        ptrs[last],
        unstamped[last],
        after[last],
        batches[last],
    ));
    assert(WritePipeline::prepares(before[j], ptrs[j], unstamped[j], after[j], batches[j]));
    assert(before[last + 1].seq_state == after[last].seq_state);
    assert(before[last].seq_state.log_seq_num + unstamped[last].count <= u64::MAX);
    if i < last {
        law_sequence_numbers_follow(before, ptrs, unstamped, after, batches, i, last);
    }
}

/// A thread with a permit finds room in the queue: each batch in the queue holds
/// another permit.
pub proof fn law_permit_means_room<const N: usize, E: WriterEnv>(pipeline: WritePipeline<N, E>)
    requires
        pipeline.wf(),
        pipeline.reserved() > 0,
    ensures
        pipeline.batch_queue@.len() < N,
        distance(
            pipeline.batch_queue.head_tail.tail(),
            pipeline.batch_queue.head_tail.head(),
        ) != N,
{
}

/// Positions count on and wrap around at the end of their range. The distance of two of
/// them is how often one must count on to get from the first to the second.
pub proof fn law_positions_count_on(tail: u32, head: u32)
    ensures
        next_position(head) == (head + 1) % 0x1_0000_0000,
        0 <= distance(tail, head) < 0x1_0000_0000,
        (tail + distance(tail, head)) % 0x1_0000_0000 == head,
        distance(tail, tail) == 0,
        next_position(head) != tail ==> distance(tail, next_position(head)) == distance(tail, head)
            + 1,
        tail != head ==> distance(next_position(tail), head) == distance(tail, head) - 1,
{
}

/// The queue sizes are the powers of two up to 1024, so positions keep their slots when
/// they wrap around.
pub proof fn law_queue_sizes(n: usize)
    ensures
        queue_size(n) <==> exists|k: nat| k <= 10 && n == #[trigger] vstd::arithmetic::power2::pow2(k),
        queue_size(n) ==> 1 <= n <= 1024 && 0x1_0000_0000int % (n as int) == 0,
{
    vstd::arithmetic::power2::lemma2_to64();
    if queue_size(n) {
        let k: nat = if n == 1 {
            0
        } else if n == 2 {
            1
        } else if n == 4 {
            2
        } else if n == 8 {
            3
        } else if n == 16 {
            4
        } else if n == 32 {
            5
        } else if n == 64 {
            6
        } else if n == 128 {
            7
        } else if n == 256 {
            8
        } else if n == 512 {
            9
        } else {
            10
        };
        assert(n == vstd::arithmetic::power2::pow2(k));
    }
    if exists|k: nat| k <= 10 && n == #[trigger] vstd::arithmetic::power2::pow2(k) {
        let k = choose|k: nat| k <= 10 && n == #[trigger] vstd::arithmetic::power2::pow2(k);
        assert(k == 0 || k == 1 || k == 2 || k == 3 || k == 4 || k == 5 || k == 6 || k == 7 || k
            == 8 || k == 9 || k == 10);
    }
}

/// The slots hold the batches: the one that stands at `i` in the queue is in the slot `i`
/// after `tail`, and the slot that the next batch goes to is empty where there is room.
pub proof fn law_slots_hold_the_queue<const N: usize>(queue: BatchQueue<N>, i: int)
    requires
        queue.wf(),
    ensures
        queue@.len() <= N,
        queue@.len() == (queue.head_tail.head() - queue.head_tail.tail()) % 0x1_0000_0000,
        0 <= i < queue@.len() ==> queue.slots@[(queue.head_tail.tail() + i) % N as int] == Some(
            queue@[i],
        ),
        queue@.len() < N ==> queue.slots@[queue.head_tail.head() as int % N as int] is None,
{
    if queue@.len() < N {
        let n = queue@.len() as int;
        lemma_slots(queue.head_tail.tail(), queue.head_tail.head(), N, n);
        assert(queue.slots@[(queue.head_tail.tail() + n) % N as int] is None);
    }
    if 0 <= i < queue@.len() {
        assert(queue@[i] == queue@[i]);
    }
}

/// Preparing a batch gives it the next sequence numbers and the last place: its header
/// holds the number that was next, as many are used up as it has operations, its
/// operations stay as they were, and it stands behind those that were prepared before.
/// It uses up one of the places that were reserved.
pub proof fn law_prepared_batch_is_last<const N: usize, E: WriterEnv>(
    before: WritePipeline<N, E>,
    ptr: BatchPtr,
    unstamped: BatchInner,
    after: WritePipeline<N, E>,
    batch: BatchInner,
)
    requires
        unstamped.wf(),
        unstamped.data@.len() > 0,
        WritePipeline::prepares(before, ptr, unstamped, after, batch),
    ensures
        utils::le_value(batch.data@.take(8)) == before.seq_state.log_seq_num,
        batch.data@.skip(8) == unstamped.data@.skip(8),
        batch.data@.len() == unstamped.data@.len(),
        batch.records == unstamped.records,
        after.batch_queue@.len() == before.batch_queue@.len() + 1,
        after.batch_queue@.last() == ptr,
        after.batch_queue@.drop_last() == before.batch_queue@,
        before.seq_state.log_seq_num + unstamped.records@.len() <= u64::MAX
            ==> after.seq_state.log_seq_num == before.seq_state.log_seq_num
            + unstamped.records@.len(),
        after.seq_state.visible_seq_num == before.seq_state.visible_seq_num,
        after.commit_sem == before.commit_sem,
        N - after.commit_sem.count - after.batch_queue@.len() == N - before.commit_sem.count
            - before.batch_queue@.len() - 1,
{
    utils::lemma_le_bytes_len(before.seq_state.log_seq_num as nat, 8);
    assert(batch.data@.skip(8) =~= unstamped.data@.skip(8));
    assert(after.batch_queue@.drop_last() =~= before.batch_queue@);
}

} // verus!
