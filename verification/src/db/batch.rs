//! Batches: the operations that are committed together, encoded as they go.
//!
//! A batch starts with a header of twelve bytes: the sequence number of its
//! first operation (8 bytes, least significant first), stamped when the batch
//! is committed, and the number of its operations (4 bytes, least significant
//! first). The encoded operations follow. The same bytes form the batch's record
//! in the write-ahead log.

use crate::db::options::DEFAULT_MAX_WRITE_BATCH_BYTES;
use crate::db::record;
pub use crate::db::record::BatchRecordKind;
use crate::db::record::Record;
use crate::error::{Error, Result};
use crate::key::MAX_USER_KEY_BYTES;
use crate::utils;
use crate::utils::var_int;
use crate::utils::var_int::VarInt;
use crate::wal::{SyncLogWaiter, WalSyncResultState};
use vstd::prelude::*;

verus! {

/// How many bytes a batch may come to.
pub const MAX_BATCH_SIZE: usize = DEFAULT_MAX_WRITE_BATCH_BYTES;

/// How many bytes a new batch has room for.
pub const DEFAULT_BATCH_INIT_SIZE: usize = 1024;

/// Which column families a batch has touched.
#[derive(Debug, PartialEq, Eq, Structural)]
pub struct BatchMeta {
    pub first_seen_cf_id: u64,
    pub multiple_cf_ids: bool,
}

impl BatchMeta {
    /// Forgets what was touched.
    pub fn clear(&mut self)
        ensures
            *final(self) == (BatchMeta { first_seen_cf_id: 0, multiple_cf_ids: false }),
    {
        self.first_seen_cf_id = 0;
        self.multiple_cf_ids = false;
    }
}

/// The memtable that a column family's operations go to.
#[derive(Debug, PartialEq, Eq, Structural)]
pub struct CFTableEntry {
    pub cf_id: u64,
    pub memtable: usize,
}

/// The memtables that a batch will be applied to.
#[derive(Debug)]
pub struct CFTable {
    pub len: usize,
    pub vec: Vec<CFTableEntry>,
}

impl CFTable {
    /// An empty table.
    pub fn new() -> (table: Self)
        ensures
            table.len == 0,
            table.vec@.len() == 0,
    {
        CFTable { len: 0, vec: Vec::new() }
    }

    /// Empties the table.
    pub fn clear(&mut self)
        ensures
            final(self).len == 0,
            final(self).vec@.len() == 0,
    {
        self.len = 0;
        self.vec.clear();
    }
}

/// Where in its life a batch is.
#[derive(Debug, Clone, Copy, PartialEq, Eq, Structural)]
pub enum BatchRuntimeState {
    Idle,
    Acquired,
    InQueue,
    WaitingSync,
    Applied,
}

/// The number that stands for a state.
pub open spec fn runtime_state_code(state: BatchRuntimeState) -> u8 {
    match state {
        BatchRuntimeState::Idle => 0,
        BatchRuntimeState::Acquired => 1,
        BatchRuntimeState::InQueue => 2,
        BatchRuntimeState::WaitingSync => 3,
        BatchRuntimeState::Applied => 4,
    }
}

/// A state by its name.
pub open spec fn runtime_state_name(state: BatchRuntimeState) -> Seq<char> {
    match state {
        BatchRuntimeState::Idle => "Idle"@,
        BatchRuntimeState::Acquired => "Acquired"@,
        BatchRuntimeState::InQueue => "InQueue"@,
        BatchRuntimeState::WaitingSync => "WaitingSync"@,
        BatchRuntimeState::Applied => "Applied"@,
    }
}

/// Whether nobody but the batch's owner can still reach it.
pub open spec fn reset_safe(state: BatchRuntimeState) -> bool {
    state == BatchRuntimeState::Acquired || state == BatchRuntimeState::Applied
}

impl BatchRuntimeState {
    /// The state that `value` stands for.
    pub fn from(value: u8) -> (state: Self)
        requires
            value <= 4,
        ensures
            runtime_state_code(state) == value,
            state is Idle <==> value == 0,
            state is Acquired <==> value == 1,
            state is InQueue <==> value == 2,
            state is WaitingSync <==> value == 3,
            state is Applied <==> value == 4,
    {
        match value {
            0 => BatchRuntimeState::Idle,
            1 => BatchRuntimeState::Acquired,
            2 => BatchRuntimeState::InQueue,
            3 => BatchRuntimeState::WaitingSync,
            _ => BatchRuntimeState::Applied,
        }
    }

    /// The number that stands for this state.
    pub fn code(self) -> (code: u8)
        ensures
            code == runtime_state_code(self),
            self is Idle <==> code == 0,
            self is Acquired <==> code == 1,
            self is InQueue <==> code == 2,
            self is WaitingSync <==> code == 3,
            self is Applied <==> code == 4,
    {
        match self {
            BatchRuntimeState::Idle => 0,
            BatchRuntimeState::Acquired => 1,
            BatchRuntimeState::InQueue => 2,
            BatchRuntimeState::WaitingSync => 3,
            BatchRuntimeState::Applied => 4,
        }
    }

    /// The state's name.
    pub fn to_string(&self) -> (name: String)
        ensures
            name@ == runtime_state_name(*self),
            *self is Idle ==> name@ == "Idle"@,
            *self is Acquired ==> name@ == "Acquired"@,
            *self is InQueue ==> name@ == "InQueue"@,
            *self is WaitingSync ==> name@ == "WaitingSync"@,
            *self is Applied ==> name@ == "Applied"@,
    {
        let name = match self {
            BatchRuntimeState::Idle => "Idle",
            BatchRuntimeState::Acquired => "Acquired",
            BatchRuntimeState::InQueue => "InQueue",
            BatchRuntimeState::WaitingSync => "WaitingSync",
            BatchRuntimeState::Applied => "Applied",
        };
        String::from_str(name)
    }

    /// Whether a batch in this state may be reset: only its owner can reach it.
    pub fn is_reset_safe(self) -> (safe: bool)
        ensures
            safe == reset_safe(self),
            safe <==> self is Acquired || self is Applied,
    {
        self == BatchRuntimeState::Acquired || self == BatchRuntimeState::Applied
    }
}

/// Hands back memory that `bytes` does not use, by `Vec::shrink_to`. The bytes
/// stay as they are. How much memory is kept is up to the allocator, and is left
/// unsaid.
#[verifier::external_body]
fn shrink_to(bytes: &mut Vec<u8>, capacity: usize)
    ensures
        final(bytes)@ == old(bytes)@,
{
    bytes.shrink_to(capacity);
}

/// A batch.
pub struct BatchInner {
    /// The header and the encoded operations, or nothing at all.
    pub data: Vec<u8>,
    /// How many bytes `data` may come to.
    ///
    /// This bounds what one write of the log, its replay, and a commit in flight
    /// can take. A batch is never split to keep within it, because a split batch
    /// would not be applied as a whole.
    pub max_batch_size: usize,
    /// How many operations there are.
    pub count: u32,
    pub runtime_commit_state: BatchRuntimeState,
    pub batch_meta: BatchMeta,
    pub cf_table: CFTable,
    /// The signal that the log has made this batch durable.
    pub sync_waiter: SyncLogWaiter,
    /// The operations.
    pub records: Ghost<Seq<Record>>,
}

/// Why a record of `size` bytes does not fit behind the `data_len` bytes of a
/// batch, or `None` where it does. A batch without any bytes gets a header first.
pub open spec fn reserve_error(max_batch_size: usize, data_len: nat, size: int) -> Option<Error> {
    let current = if data_len == 0 {
        12int
    } else {
        data_len as int
    };
    if 12 + size > usize::MAX {
        Some(Error::RecordTooLarge { encoded_size: usize::MAX, max_batch_size })
    } else if 12 + size > max_batch_size {
        Some(Error::RecordTooLarge { encoded_size: (12 + size) as usize, max_batch_size })
    } else if current + size > max_batch_size {
        Some(
            Error::BatchFull {
                record_size: size as usize,
                current_size: current as usize,
                max_batch_size,
            },
        )
    } else {
        None
    }
}

/// Why a key and a value of these lengths do not make a record, or `None` where
/// they do.
pub open spec fn layout_error(max_batch_size: usize, key_len: nat, value_len: nat) -> Option<
    Error,
> {
    if key_len > MAX_USER_KEY_BYTES {
        Some(Error::KeyTooLarge { size: key_len as usize, max: MAX_USER_KEY_BYTES })
    } else if value_len > u32::MAX {
        Some(Error::ValueTooLarge { size: value_len as usize, max: 0xffff_ffff })
    } else if record::record_size(key_len, value_len) > usize::MAX {
        Some(Error::RecordTooLarge { encoded_size: usize::MAX, max_batch_size })
    } else {
        None
    }
}

/// Why a batch takes no record with a key and a value of these lengths, or
/// `None` where it takes it.
pub open spec fn put_error(batch: BatchInner, key_len: nat, value_len: nat) -> Option<Error> {
    match layout_error(batch.max_batch_size, key_len, value_len) {
        Some(error) => Some(error),
        None => reserve_error(
            batch.max_batch_size,
            batch.data@.len(),
            record::record_size(key_len, value_len) as int,
        ),
    }
}

/// The bytes of a batch before its next record: a zeroed header where there is
/// nothing yet.
pub open spec fn initialized(data: Seq<u8>) -> Seq<u8> {
    if data.len() == 0 {
        utils::zeros(12)
    } else {
        data
    }
}

/// `after` differs from `before` in `data`, `count` and `records` at most.
pub open spec fn same_outside_data(before: BatchInner, after: BatchInner) -> bool {
    &&& after.max_batch_size == before.max_batch_size
    &&& after.runtime_commit_state == before.runtime_commit_state
    &&& after.batch_meta == before.batch_meta
    &&& after.cf_table == before.cf_table
    &&& after.sync_waiter == before.sync_waiter
}

/// `after` holds what `before` holds, whatever memory it takes.
pub open spec fn same_contents(before: BatchInner, after: BatchInner) -> bool {
    &&& after.data@ == before.data@
    &&& after.count == before.count
    &&& after.records == before.records
    &&& same_outside_data(before, after)
}

/// `after` is `before` with one more record behind the others.
pub open spec fn appended(before: BatchInner, after: BatchInner, record: Record) -> bool {
    &&& after.wf()
    &&& after.records@ == before.records@.push(record)
    &&& after.data@.len() == initialized(before.data@).len() + record::record_bytes(record).len()
    &&& after.data@.take(8) == initialized(before.data@).take(8)
    &&& same_outside_data(before, after)
}

/// Zero bytes behind `front` give way to `patch`.
proof fn lemma_overwrite_zeros(front: Seq<u8>, n: nat, patch: Seq<u8>)
    requires
        patch.len() <= n,
    ensures
        utils::overwrite(front + utils::zeros(n), front.len() as int, patch) == front + patch + utils::zeros(
            (n - patch.len()) as nat,
        ),
{
    assert(utils::overwrite(front + utils::zeros(n), front.len() as int, patch) =~= front + patch + utils::zeros(
        (n - patch.len()) as nat,
    ));
}

/// More zero bytes are zero bytes behind zero bytes.
proof fn lemma_zeros_split(a: nat, b: nat)
    ensures
        utils::zeros(a + b) == utils::zeros(a) + utils::zeros(b),
{
    assert(utils::zeros(a + b) =~= utils::zeros(a) + utils::zeros(b));
}

/// `after` is `before` but for the two stretches in which a key and a value
/// stand.
pub open spec fn filled(
    before: Seq<u8>,
    after: Seq<u8>,
    key_at: int,
    key_len: int,
    value_at: int,
    value_len: int,
) -> bool {
    &&& after.len() == before.len()
    &&& forall|i: int|
        0 <= i < before.len() && !(key_at <= i < key_at + key_len) && !(value_at <= i < value_at
            + value_len) ==> #[trigger] after[i] == before[i]
}

/// `after` is `before` with bytes behind it that are not counted yet.
pub open spec fn finished(before: BatchInner, after: BatchInner) -> bool {
    &&& after.data@ == before.data@ + added_bytes(before, after)
    &&& after.count == before.count
    &&& after.records == before.records
    &&& same_outside_data(before, after)
}

/// The bytes that `after` has behind those of `before`.
pub open spec fn added_bytes(before: BatchInner, after: BatchInner) -> Seq<u8> {
    after.data@.skip(before.data@.len() as int)
}

/// Where in a batch the key of a record starts that follows `start` bytes.
pub open spec fn key_offset(start: nat, key_len: nat) -> nat {
    start + 9 + var_int::varint_bytes(key_len).len()
}

/// Where its value starts.
pub open spec fn value_offset(start: nat, key_len: nat, value_len: nat) -> nat {
    key_offset(start, key_len) + key_len + var_int::varint_bytes(value_len).len()
}

/// A record whose key and value are zero bytes.
pub open spec fn blank_record(
    kind: BatchRecordKind,
    cf_id: u64,
    key_len: nat,
    value_len: nat,
) -> Record {
    Record { kind, cf_id, key: utils::zeros(key_len), value: utils::zeros(value_len) }
}

/// Filling in a blank record gives the record with that key and that value.
#[verifier::spinoff_prover]
#[verifier::rlimit(40)]
proof fn lemma_filled(
    front: Seq<u8>,
    after: Seq<u8>,
    kind: BatchRecordKind,
    cf_id: u64,
    key_len: nat,
    value_len: nat,
)
    requires
        filled(
            front + record::record_bytes(blank_record(kind, cf_id, key_len, value_len)),
            after,
            key_offset(front.len(), key_len) as int,
            key_len as int,
            value_offset(front.len(), key_len, value_len) as int,
            value_len as int,
        ),
    ensures
        ({
            let key_at = key_offset(front.len(), key_len) as int;
            let value_at = value_offset(front.len(), key_len, value_len) as int;
            after == front + record::record_bytes(
                Record {
                    kind,
                    cf_id,
                    key: after.subrange(key_at, key_at + key_len),
                    value: after.subrange(value_at, value_at + value_len),
                },
            )
        }),
{
    let blank = blank_record(kind, cf_id, key_len, value_len);
    let before = front + record::record_bytes(blank);
    let key_at = key_offset(front.len(), key_len) as int;
    let value_at = value_offset(front.len(), key_len, value_len) as int;
    let made = Record {
        kind,
        cf_id,
        key: after.subrange(key_at, key_at + key_len),
        value: after.subrange(value_at, value_at + value_len),
    };
    let whole = front + record::record_bytes(made);
    utils::lemma_le_bytes_len(cf_id as nat, 8);
    record::lemma_record_size(blank);
    record::lemma_record_size(made);
    assert forall|i: int| 0 <= i < after.len() implies after[i] == whole[i] by {
        assert(!(key_at <= i < key_at + key_len) && !(value_at <= i < value_at + value_len)
            ==> whole[i] == before[i]);
    }
    assert(after =~= whole);
}

/// A record that is reserved in a batch, with its key and its value still to be
/// filled in.
///
/// The batch's buffer has room for the record. Until the operation is finished
/// the record stands beside the batch, so an operation that is dropped before,
/// also by a panic, takes its reservation back: the batch holds what it held.
pub struct DeferredOp<'batch> {
    /// The batch, until the operation is finished.
    pub batch: Option<&'batch mut BatchInner>,
    /// The record, until the operation is finished.
    pub record: Vec<u8>,
    /// Where in the batch the record goes, and where it will end.
    pub reservation_start: usize,
    pub reservation_end: usize,
    /// Where in the batch the key and the value will stand.
    pub key_offset: usize,
    pub key_len: usize,
    pub value_offset: usize,
    pub value_len: usize,
}

impl<'batch> DeferredOp<'batch> {
    /// Where in the record the key is.
    pub open spec fn key_at(&self) -> int {
        self.key_offset - self.reservation_start
    }

    /// Where in the record the value is.
    pub open spec fn value_at(&self) -> int {
        self.value_offset - self.reservation_start
    }

    /// The operation is not finished, and the places for key and value lie in
    /// the record, the value behind the key.
    pub open spec fn open(&self) -> bool {
        &&& self.batch is Some
        &&& self.places_fit()
    }

    /// The places for key and value lie in the record, the value behind the key.
    pub open spec fn places_fit(&self) -> bool {
        &&& 0 <= self.key_at()
        &&& self.key_at() + self.key_len <= self.value_at()
        &&& self.value_at() + self.value_len <= self.record@.len()
    }

    /// This is a record reserved behind what `before` holds, with zero bytes for
    /// its key and its value.
    pub open spec fn reserves(
        &self,
        before: BatchInner,
        cf_id: u64,
        key_len: nat,
        value_len: nat,
        kind: BatchRecordKind,
    ) -> bool {
        let front = initialized(before.data@);
        let batch = *self.batch->0;
        &&& self.open()
        &&& batch.data@ == front
        &&& batch.count == before.count
        &&& batch.records == before.records
        &&& same_outside_data(before, batch)
        &&& self.record@ == record::record_bytes(blank_record(kind, cf_id, key_len, value_len))
        &&& self.reservation_start == front.len()
        &&& self.reservation_end == front.len() + self.record@.len()
        &&& self.key_offset == key_offset(front.len(), key_len)
        &&& self.key_len == key_len
        &&& self.value_offset == value_offset(front.len(), key_len, value_len)
        &&& self.value_len == value_len
    }

    /// `record` is this record with nothing changed but the key and the value.
    pub open spec fn fills(&self, record: Seq<u8>) -> bool {
        filled(
            self.record@,
            record,
            self.key_at(),
            self.key_len as int,
            self.value_at(),
            self.value_len as int,
        )
    }

    /// The record with the key and the value that stand in `record`.
    pub open spec fn made(&self, record: Seq<u8>, cf_id: u64, kind: BatchRecordKind) -> Record {
        Record {
            kind,
            cf_id,
            key: record.subrange(self.key_at(), self.key_at() + self.key_len),
            value: record.subrange(self.value_at(), self.value_at() + self.value_len),
        }
    }

    /// An operation that puts `record` into `batch`.
    pub fn new(
        batch: &'batch mut BatchInner,
        record: Vec<u8>,
        reservation_start: usize,
        reservation_end: usize,
        key_offset: usize,
        key_len: usize,
        value_offset: usize,
        value_len: usize,
    ) -> (op: Self)
        requires
            reservation_start <= reservation_end,
        ensures
            op.batch matches Some(held) && *held == *old(batch) && *final(held) == *final(batch),
            op.record == record,
            op.reservation_start == reservation_start,
            op.reservation_end == reservation_end,
            op.key_offset == key_offset,
            op.key_len == key_len,
            op.value_offset == value_offset,
            op.value_len == value_len,
    {
        DeferredOp {
            batch: Some(batch),
            record,
            reservation_start,
            reservation_end,
            key_offset,
            key_len,
            value_offset,
            value_len,
        }
    }

    /// The place of the key. What is written there is in the record.
    pub fn key_mut(&mut self) -> (key: &mut [u8])
        requires
            old(self).open(),
        ensures
            ({
                let record = old(self).record@;
                let at = old(self).key_at();
                let len = old(self).key_len as int;
                &&& key@ == record.subrange(at, at + len)
                &&& final(self).record@ == record.take(at) + final(key)@ + record.skip(at + len)
                &&& *final(self) == (DeferredOp { record: final(self).record, ..*old(self) })
            }),
    {
        let at = self.key_offset - self.reservation_start;
        let (_, tail) = self.record.as_mut_slice().split_at_mut(at);
        let (key, _) = tail.split_at_mut(self.key_len);
        key
    }

    /// The place of the value.
    pub fn value_mut(&mut self) -> (value: &mut [u8])
        requires
            old(self).open(),
        ensures
            ({
                let record = old(self).record@;
                let at = old(self).value_at();
                let len = old(self).value_len as int;
                &&& value@ == record.subrange(at, at + len)
                &&& final(self).record@ == record.take(at) + final(value)@ + record.skip(at + len)
                &&& *final(self) == (DeferredOp { record: final(self).record, ..*old(self) })
            }),
    {
        let at = self.value_offset - self.reservation_start;
        let (_, tail) = self.record.as_mut_slice().split_at_mut(at);
        let (value, _) = tail.split_at_mut(self.value_len);
        value
    }

    /// The places of the key and of the value.
    pub fn key_value_mut(&mut self) -> (places: (&mut [u8], &mut [u8]))
        requires
            old(self).open(),
        ensures
            ({
                let record = old(self).record@;
                let key_at = old(self).key_at();
                let key_len = old(self).key_len as int;
                let value_at = old(self).value_at();
                let value_len = old(self).value_len as int;
                &&& places.0@ == record.subrange(key_at, key_at + key_len)
                &&& places.1@ == record.subrange(value_at, value_at + value_len)
                &&& final(self).record@ == record.take(key_at) + final(places.0)@
                    + record.subrange(key_at + key_len, value_at) + final(places.1)@
                    + record.skip(value_at + value_len)
                &&& *final(self) == (DeferredOp { record: final(self).record, ..*old(self) })
            }),
    {
        let key_at = self.key_offset - self.reservation_start;
        let gap = self.value_offset - (self.key_offset + self.key_len);
        let (_, region) = self.record.as_mut_slice().split_at_mut(key_at);
        let (key, remainder) = region.split_at_mut(self.key_len);
        let (_, rest) = remainder.split_at_mut(gap);
        let (value, _) = rest.split_at_mut(self.value_len);
        (key, value)
    }

    /// Takes the reservation back: there is nothing left to put into the batch.
    pub fn rollback(&mut self)
        requires
            old(self).batch is Some,
        ensures
            final(self).record@.len() == 0,
            *final(self) == (DeferredOp {
                reservation_end: old(self).reservation_start,
                record: final(self).record,
                ..*old(self)
            }),
    {
        self.reservation_end = self.reservation_start;
        self.record.clear();
    }

    /// Lets go of the operation, as dropping it does: one that was not finished
    /// takes its reservation back, and the batch holds what it held. Returns
    /// whether it did.
    pub fn release(self) -> (rolled_back: bool)
        ensures
            rolled_back == (self.batch is Some),
            self.batch matches Some(batch) ==> *final(batch) == *batch,
    {
        self.batch.is_some()
    }

    /// Ends the operation: the record goes to the end of the batch as it is now.
    pub fn finish(&mut self)
        ensures
            final(self).batch is None,
            old(self).batch matches Some(batch) ==> {
                &&& (*final(batch)).data@ == (*batch).data@ + old(self).record@
                &&& (*final(batch)).count == (*batch).count
                &&& (*final(batch)).records == (*batch).records
                &&& same_outside_data(*batch, *final(batch))
            },
    {
        if let Some(batch) = self.batch.take() {
            batch.data.append(&mut self.record);
        }
    }
}

impl BatchInner {
    /// The header counts the operations, and the bytes behind it encode them.
    pub open spec fn wf(&self) -> bool {
        &&& self.count == self.records@.len()
        &&& self.data@.len() <= self.max_batch_size <= u32::MAX
        &&& self.data@.len() == 0 ==> self.records@.len() == 0
        &&& self.data@.len() > 0 ==> {
            &&& self.data@.len() >= 12
            &&& self.data@.subrange(8, 12) == utils::le_bytes(self.count as nat, 4)
            &&& self.data@.skip(12) == record::records_bytes(self.records@)
        }
    }

    /// A batch as it is made: a zeroed header, no operations.
    pub open spec fn fresh(&self) -> bool {
        &&& self.wf()
        &&& self.data@ == utils::zeros(12)
        &&& self.max_batch_size == MAX_BATCH_SIZE
        &&& self.records@ == Seq::<Record>::empty()
        &&& self.runtime_commit_state == BatchRuntimeState::Acquired
        &&& self.batch_meta == (BatchMeta { first_seen_cf_id: 0, multiple_cf_ids: false })
        &&& self.cf_table.len == 0
        &&& self.cf_table.vec@.len() == 0
        &&& self.sync_waiter.state == WalSyncResultState::Init
    }

    /// Where the sequence number starts.
    pub const SEQ_NO_OFFSET: usize = 0;

    /// Where the number of operations starts.
    pub const BATCH_COUNT_OFFSET: usize = 8;

    /// How long the header is.
    pub const HEADER_SIZE: usize = 12;

    /// An empty batch.
    pub fn new() -> (batch: Self)
        ensures
            batch.fresh(),
            batch.data@.len() == 12,
            forall|i: int| 0 <= i < 12 ==> #[trigger] batch.data@[i] == 0,
            batch.count == 0,
            batch.records@.len() == 0,
            batch.max_batch_size == 0x10_0000,
            batch.runtime_commit_state is Acquired,
            batch.sync_waiter.state is Init,
    {
        Self::with_room(DEFAULT_BATCH_INIT_SIZE)
    }

    /// An empty batch with room for `cap` bytes of operations. How much memory the
    /// allocator gives is left unsaid.
    pub fn new_with_capacity(cap: usize) -> (batch: Self)
        requires
            cap + Self::HEADER_SIZE <= MAX_BATCH_SIZE,
        ensures
            batch.fresh(),
            batch.data@.len() == 12,
            forall|i: int| 0 <= i < 12 ==> #[trigger] batch.data@[i] == 0,
            batch.count == 0,
            batch.records@.len() == 0,
            batch.max_batch_size == 0x10_0000,
            batch.runtime_commit_state is Acquired,
            batch.sync_waiter.state is Init,
    {
        Self::with_room(cap + Self::HEADER_SIZE)
    }

    /// An empty batch whose buffer has room for `capacity` bytes. How much memory
    /// the allocator gives is left unsaid.
    fn with_room(capacity: usize) -> (batch: Self)
        ensures
            batch.fresh(),
    {
        let mut data: Vec<u8> = Vec::with_capacity(capacity);
        data.resize(Self::HEADER_SIZE, 0);
        proof {
            assert(data@ =~= utils::zeros(12));
            assert(data@.subrange(8, 12) =~= utils::le_bytes(0, 4)) by {
                reveal_with_fuel(utils::le_bytes, 5);
            }
            assert(data@.skip(12) =~= Seq::<u8>::empty());
        }
        BatchInner {
            data,
            max_batch_size: MAX_BATCH_SIZE,
            count: 0,
            runtime_commit_state: BatchRuntimeState::Acquired,
            batch_meta: BatchMeta { first_seen_cf_id: 0, multiple_cf_ids: false },
            cf_table: CFTable::new(),
            sync_waiter: SyncLogWaiter::default(),
            records: Ghost(Seq::empty()),
        }
    }

    /// Gives a batch without any bytes a zeroed header, and room for
    /// `capacity_hint` bytes behind it.
    pub fn init_buffer(&mut self, capacity_hint: usize)
        requires
            old(self).data@.len() == 0,
            Self::HEADER_SIZE + capacity_hint <= old(self).max_batch_size,
        ensures
            final(self).data@ == utils::zeros(12),
            final(self).count == old(self).count,
            final(self).records == old(self).records,
            same_outside_data(*old(self), *final(self)),
    {
        self.data.reserve(Self::HEADER_SIZE + capacity_hint);
        self.data.resize(Self::HEADER_SIZE, 0);
        proof {
            assert(self.data@ =~= utils::zeros(12));
        }
    }

    /// The sequence number in the header.
    pub fn seq_num(&self) -> (seq_num: u64)
        requires
            self.data@.len() > Self::BATCH_COUNT_OFFSET,
        ensures
            seq_num == utils::le_value(self.data@.take(8)),
            seq_num == self.data@[0] + 0x100 * self.data@[1] + 0x1_0000 * self.data@[2] + 0x100_0000
                * self.data@[3] + 0x1_0000_0000 * self.data@[4] + 0x100_0000_0000 * self.data@[5]
                + 0x1_0000_0000_0000 * self.data@[6] + 0x100_0000_0000_0000 * self.data@[7],
    {
        utils::read_u64_le(self.data.as_slice())
    }

    /// Stamps the sequence number of the batch's first operation into the
    /// header. Nothing else changes.
    pub fn assign_seq_num_once(&mut self, seq_num: u64)
        requires
            old(self).data@.len() > Self::BATCH_COUNT_OFFSET,
        ensures
            final(self).data@ == utils::overwrite(old(self).data@, 0, utils::le_bytes(seq_num as nat, 8)),
            utils::le_value(final(self).data@.take(8)) == seq_num,
            final(self).count == old(self).count,
            final(self).records == old(self).records,
            same_outside_data(*old(self), *final(self)),
            old(self).wf() ==> final(self).wf(),
            final(self).data@.len() == old(self).data@.len(),
            forall|i: int|
                8 <= i < old(self).data@.len() ==> #[trigger] final(self).data@[i]
                    == old(self).data@[i],
    {
        utils::write_u64_le(&mut self.data, Self::SEQ_NO_OFFSET, seq_num);
        proof {
            let bytes = utils::le_bytes(seq_num as nat, 8);
            utils::lemma_le_bytes_len(seq_num as nat, 8);
            assert(self.data@.take(8) =~= bytes);
            assert(seq_num < utils::pow256(8)) by {
                reveal_with_fuel(utils::pow256, 9);
            }
            utils::law_le_round_trip(seq_num as nat, 8);
            if old(self).wf() {
                assert(self.data@.subrange(8, 12) =~= old(self).data@.subrange(8, 12));
                assert(self.data@.skip(12) =~= old(self).data@.skip(12));
            }
        }
    }

    /// Stores where in its life the batch is.
    pub fn set_runtime_state(&mut self, state: BatchRuntimeState)
        ensures
            *final(self) == (BatchInner { runtime_commit_state: state, ..*old(self) }),
    {
        self.runtime_commit_state = state;
    }

    /// Whether the pipeline is done with the batch.
    pub fn is_applied(&self) -> (applied: bool)
        ensures
            applied == (self.runtime_commit_state == BatchRuntimeState::Applied),
    {
        self.runtime_commit_state == BatchRuntimeState::Applied
    }

    /// Says that the pipeline is done with the batch.
    pub fn mark_applied(&mut self)
        ensures
            *final(self) == (BatchInner {
                runtime_commit_state: BatchRuntimeState::Applied,
                ..*old(self)
            }),
    {
        self.runtime_commit_state = BatchRuntimeState::Applied;
    }

    /// How many operations there are.
    pub fn get_batch_count(&self) -> (count: u32)
        ensures
            count == self.count,
    {
        self.count
    }

    /// How many bytes the batch comes to.
    pub fn get_batch_size(&self) -> (size: usize)
        ensures
            size == self.data@.len(),
    {
        self.data.len()
    }

    /// Hands back memory down to `new_size` bytes. The contents stay. How much
    /// memory is kept is up to the allocator, and is left unsaid.
    pub fn shrink_batch_to(&mut self, new_size: usize)
        ensures
            same_contents(*old(self), *final(self)),
    {
        shrink_to(&mut self.data, new_size);
    }

    /// How much of a memtable an entry will take. Not estimated yet: nothing.
    pub fn estimate_entry_size(&self, key_len: usize, value_len: usize) -> (size: usize)
        ensures
            size == 0,
    {
        0
    }

    /// Adds `record_size` zero bytes behind what is there, and returns where
    /// they start and end. On an error the batch is as it was.
    pub fn reserve_operation(&mut self, record_size: usize) -> (reserved: Result<(usize, usize)>)
        ensures
            match reserve_error(
                old(self).max_batch_size,
                old(self).data@.len(),
                record_size as int,
            ) {
                Some(error) => reserved == Err::<(usize, usize), Error>(error) && *final(self)
                    == *old(self),
                None => {
                    let start = initialized(old(self).data@).len();
                    &&& reserved matches Ok((s, e)) && s == start && e == start + record_size
                    &&& final(self).data@ == initialized(old(self).data@) + utils::zeros(record_size as nat)
                    &&& final(self).count == old(self).count
                    &&& final(self).records == old(self).records
                    &&& same_outside_data(*old(self), *final(self))
                },
            },
            reserved is Ok <==> 12 + record_size <= old(self).max_batch_size && (if old(
                self,
            ).data@.len() == 0 {
                12
            } else {
                old(self).data@.len()
            }) + record_size <= old(self).max_batch_size,
            reserved matches Ok((start, end)) ==> end - start == record_size,
            reserved is Err ==> *final(self) == *old(self),
    {
        let max_batch_size = self.max_batch_size;
        let empty_batch_size = match Self::HEADER_SIZE.checked_add(record_size) {
            Some(size) => size,
            None => {
                return Err(Error::RecordTooLarge { encoded_size: usize::MAX, max_batch_size });
            },
        };
        if empty_batch_size > max_batch_size {
            return Err(Error::RecordTooLarge { encoded_size: empty_batch_size, max_batch_size });
        }
        let current_size = if self.data.len() == 0 {
            self.init_buffer(record_size);
            Self::HEADER_SIZE
        } else {
            self.data.len()
        };
        let end = match current_size.checked_add(record_size) {
            Some(end) => end,
            None => {
                return Err(Error::BatchFull { record_size, current_size, max_batch_size });
            },
        };
        if end > max_batch_size {
            return Err(Error::BatchFull { record_size, current_size, max_batch_size });
        }
        let start = self.data.len();
        let ghost before = self.data@;
        self.data.resize(end, 0);
        proof {
            assert(self.data@ =~= before + utils::zeros(record_size as nat));
        }
        Ok((start, end))
    }

    /// Notes that a log sync was asked for.
    pub fn prime_sync_waiter(&mut self)
        ensures
            final(self).sync_waiter.state == WalSyncResultState::Primed,
            *final(self) == (BatchInner { sync_waiter: final(self).sync_waiter, ..*old(self) }),
    {
        self.sync_waiter.prime();
    }

    /// What is known of the batch's log sync.
    pub fn sync_waiter_state(&self) -> (state: WalSyncResultState)
        ensures
            state == self.sync_waiter.state,
    {
        self.sync_waiter.state()
    }

    /// Writes `count` into the header, and returns what stood there.
    pub fn adjust_count_in_header(&mut self, count: u32) -> (previous: u32)
        requires
            old(self).data@.len() >= Self::HEADER_SIZE,
        ensures
            previous == utils::le_value(old(self).data@.subrange(8, 12)),
            final(self).data@ == utils::overwrite(old(self).data@, 8, utils::le_bytes(count as nat, 4)),
            final(self).count == old(self).count,
            final(self).records == old(self).records,
            same_outside_data(*old(self), *final(self)),
    {
        let previous = utils::read_u32_le(
            vstd::slice::slice_subrange(
                self.data.as_slice(),
                Self::BATCH_COUNT_OFFSET,
                Self::HEADER_SIZE,
            ),
        );
        proof {
            let field = self.data@.subrange(8, 12);
            assert(field.take(4) =~= field);
        }
        utils::write_u32_le(&mut self.data, Self::BATCH_COUNT_OFFSET, count);
        previous
    }

    /// The encoded lengths of a key and a value, with the size of the whole
    /// record.
    pub fn key_value_record_layout(&self, key_len: usize, value_len: usize) -> (layout: Result<
        (VarInt, VarInt, usize),
    >)
        ensures
            match layout_error(self.max_batch_size, key_len as nat, value_len as nat) {
                Some(error) => layout == Err::<(VarInt, VarInt, usize), Error>(error),
                None => layout matches Ok((key, value, size)) && {
                    &&& key.wf() && value.wf()
                    &&& key@ == var_int::varint_bytes(key_len as nat)
                    &&& value@ == var_int::varint_bytes(value_len as nat)
                    &&& size == record::record_size(key_len as nat, value_len as nat)
                },
            },
    {
        if key_len > MAX_USER_KEY_BYTES {
            return Err(Error::KeyTooLarge { size: key_len, max: MAX_USER_KEY_BYTES });
        }
        if value_len > 0xffff_ffff {
            return Err(Error::ValueTooLarge { size: value_len, max: 0xffff_ffff });
        }
        let key_varint = VarInt::new(key_len as u32);
        let value_varint = VarInt::new(value_len as u32);
        proof {
            var_int::law_varint_size(key_len as nat);
            var_int::law_varint_size(value_len as nat);
        }
        let frame: usize = 1 + 8 + key_varint.size() + key_len + value_varint.size();
        match frame.checked_add(value_len) {
            Some(record_size) => Ok((key_varint, value_varint, record_size)),
            None => Err(
                Error::RecordTooLarge {
                    encoded_size: usize::MAX,
                    max_batch_size: self.max_batch_size,
                },
            ),
        }
    }

    /// Writes everything of a record but its key and its value over the zero
    /// bytes at `start`, and returns where key and value go.
    #[verifier::spinoff_prover]
    #[verifier::rlimit(40)]
    fn write_frame(
        &mut self,
        start: usize,
        kind: BatchRecordKind,
        cf_id: u64,
        key_varint: &VarInt,
        key_len: usize,
        value_varint: &VarInt,
        value_len: usize,
        Ghost(front): Ghost<Seq<u8>>,
    ) -> (offsets: (usize, usize))
        requires
            front.len() == start,
            start + record::record_size(key_len as nat, value_len as nat) <= usize::MAX,
            key_varint.wf(),
            value_varint.wf(),
            key_varint@ == var_int::varint_bytes(key_len as nat),
            value_varint@ == var_int::varint_bytes(value_len as nat),
            old(self).data@ == front + utils::zeros(
                record::record_size(key_len as nat, value_len as nat),
            ),
        ensures
            final(self).data@ == front + record::record_bytes(
                blank_record(kind, cf_id, key_len as nat, value_len as nat),
            ),
            offsets.0 == key_offset(front.len(), key_len as nat),
            offsets.1 == value_offset(front.len(), key_len as nat, value_len as nat),
            final(self).count == old(self).count,
            final(self).records == old(self).records,
            same_outside_data(*old(self), *final(self)),
    {
        let ghost size = record::record_size(key_len as nat, value_len as nat);
        let ghost k = key_varint@.len();
        let ghost v = value_varint@.len();
        self.data.set(start, kind.code());
        let ghost one = front + seq![record::kind_code(kind)];
        proof {
            assert(self.data@ =~= one + utils::zeros((size - 1) as nat));
            utils::lemma_le_bytes_len(cf_id as nat, 8);
            lemma_overwrite_zeros(one, (size - 1) as nat, utils::le_bytes(cf_id as nat, 8));
        }
        utils::write_u64_le(&mut self.data, start + 1, cf_id);
        let ghost two = one + utils::le_bytes(cf_id as nat, 8);
        let key_at: usize = start + 9 + key_varint.size();
        proof {
            lemma_overwrite_zeros(two, (size - 9) as nat, key_varint@);
        }
        utils::copy_at(&mut self.data, start + 9, key_varint.as_slice());
        let ghost three = two + key_varint@ + utils::zeros(key_len as nat);
        proof {
            lemma_zeros_split(key_len as nat, (v + value_len) as nat);
            assert(size - 9 - k == key_len + (v + value_len));
            assert(two + key_varint@ + (utils::zeros(key_len as nat) + utils::zeros(
                (v + value_len) as nat,
            )) =~= three + utils::zeros((v + value_len) as nat));
            lemma_overwrite_zeros(three, (v + value_len) as nat, value_varint@);
        }
        let value_varint_at: usize = key_at + key_len;
        utils::copy_at(&mut self.data, value_varint_at, value_varint.as_slice());
        proof {
            assert(self.data@ =~= front + record::record_bytes(
                blank_record(kind, cf_id, key_len as nat, value_len as nat),
            ));
        }
        (key_at, value_varint_at + value_varint.size())
    }

    /// Counts the record at the end of `data`, of which the rest of `self` does
    /// not know yet.
    #[verifier::spinoff_prover]
    #[verifier::rlimit(40)]
    fn count_operation(&mut self, Ghost(before): Ghost<BatchInner>, Ghost(added): Ghost<Record>)
        requires
            before.wf(),
            old(self).data@ == initialized(before.data@) + record::record_bytes(added),
            old(self).data@.len() <= before.max_batch_size,
            old(self).count == before.count,
            old(self).records == before.records,
            same_outside_data(before, *old(self)),
        ensures
            appended(before, *final(self), added),
    {
        let ghost front = initialized(before.data@);
        proof {
            record::lemma_records_size(before.records@);
            record::lemma_record_size(added);
            assert(11 * before.records@.len() <= front.len()) by {
                if before.data@.len() > 0 {
                    assert(before.data@.skip(12).len() == before.data@.len() - 12);
                }
            }
        }
        self.count = self.count + 1;
        let count = self.count;
        let _ = self.adjust_count_in_header(count);
        self.records = Ghost(before.records@.push(added));
        proof {
            utils::lemma_le_bytes_len(count as nat, 4);
            assert(self.data@.subrange(8, 12) =~= utils::le_bytes(count as nat, 4));
            assert(self.data@.take(8) =~= front.take(8));
            assert(before.records@.push(added).drop_last() =~= before.records@);
            assert(front.skip(12) =~= record::records_bytes(before.records@)) by {
                if before.data@.len() == 0 {
                    assert(before.records@ =~= Seq::<Record>::empty());
                }
            }
            assert(self.data@.skip(12) =~= front.skip(12) + record::record_bytes(added));
        }
    }

    /// Adds an operation that puts `value` under `key`. On an error the batch is
    /// as it was.
    #[verifier::spinoff_prover]
    #[verifier::rlimit(60)]
    pub fn put(&mut self, cf_id: u64, key: &[u8], value: &[u8]) -> (result: Result<()>)
        requires
            old(self).wf(),
        ensures
            match put_error(*old(self), key@.len(), value@.len()) {
                Some(error) => result == Err::<(), Error>(error) && *final(self) == *old(self),
                None => result is Ok && appended(
                    *old(self),
                    *final(self),
                    Record { kind: BatchRecordKind::Put, cf_id, key: key@, value: value@ },
                ),
            },
            result is Ok <==> ({
                let key_width: int = if key@.len() < 0x80 {
                    1
                } else if key@.len() < 0x4000 {
                    2
                } else {
                    3
                };
                let value_width: int = if value@.len() < 0x80 {
                    1
                } else if value@.len() < 0x4000 {
                    2
                } else if value@.len() < 0x20_0000 {
                    3
                } else if value@.len() < 0x1000_0000 {
                    4
                } else {
                    5
                };
                let size = 9 + key_width + key@.len() + value_width + value@.len();
                let current = if old(self).data@.len() == 0 {
                    12
                } else {
                    old(self).data@.len() as int
                };
                key@.len() <= 0x1_0000 && value@.len() <= 0xffff_ffff && current + size <= old(self).max_batch_size
            }),
            result is Ok ==> final(self).records@ == old(self).records@.push(
                Record { kind: BatchRecordKind::Put, cf_id, key: key@, value: value@ },
            ),
            result is Err ==> *final(self) == *old(self),
    {
        let ghost before = *self;
        proof {
            law_record_that_fits_is_taken(before, key.len(), value.len());
        }
        let key_len = key.len();
        let value_len = value.len();
        let (key_varint, value_varint, record_size) = match self.key_value_record_layout(
            key_len,
            value_len,
        ) {
            Ok(layout) => layout,
            Err(error) => {
                return Err(error);
            },
        };
        let (start, _end) = match self.reserve_operation(record_size) {
            Ok(reserved) => reserved,
            Err(error) => {
                return Err(error);
            },
        };
        let ghost front = initialized(before.data@);
        let (key_at, value_at) = self.write_frame(
            start,
            BatchRecordKind::Put,
            cf_id,
            &key_varint,
            key_len,
            &value_varint,
            value_len,
            Ghost(front),
        );
        proof {
            record::lemma_record_size(
                blank_record(BatchRecordKind::Put, cf_id, key_len as nat, value_len as nat),
            );
        }
        utils::copy_at(&mut self.data, key_at, key);
        utils::copy_at(&mut self.data, value_at, value);
        proof {
            let data = self.data@;
            lemma_filled(
                front,
                data,
                BatchRecordKind::Put,
                cf_id,
                key_len as nat,
                value_len as nat,
            );
            assert(data.subrange(key_at as int, key_at + key_len) =~= key@);
            assert(data.subrange(value_at as int, value_at + value_len) =~= value@);
        }
        self.count_operation(
            Ghost(before),
            Ghost(Record { kind: BatchRecordKind::Put, cf_id, key: key@, value: value@ }),
        );
        Ok(())
    }

    /// Reserves a record for a key and a value of these lengths and writes
    /// everything of it but the two, which the caller fills in through what is
    /// returned. The record is in the batch once that is finished, and not at all
    /// where it is dropped before. On an error the batch is as it was.
    pub fn prepare_with_key_value_impl<'batch>(
        &'batch mut self,
        cf_id: u64,
        key_len: usize,
        value_len: usize,
        kind: BatchRecordKind,
    ) -> (prepared: Result<DeferredOp<'batch>>)
        requires
            old(self).wf(),
            old(self).runtime_commit_state != BatchRuntimeState::InQueue,
        ensures
            match put_error(*old(self), key_len as nat, value_len as nat) {
                Some(error) => prepared == Err::<DeferredOp, Error>(error) && *final(self)
                    == *old(self),
                None => prepared matches Ok(op) && {
                    &&& op.reserves(*old(self), cf_id, key_len as nat, value_len as nat, kind)
                    &&& *final(self) == *final(op.batch->0)
                },
            },
            prepared is Ok <==> ({
                let key_width: int = if key_len < 0x80 {
                    1
                } else if key_len < 0x4000 {
                    2
                } else {
                    3
                };
                let value_width: int = if value_len < 0x80 {
                    1
                } else if value_len < 0x4000 {
                    2
                } else if value_len < 0x20_0000 {
                    3
                } else if value_len < 0x1000_0000 {
                    4
                } else {
                    5
                };
                let size = 9 + key_width + key_len + value_width + value_len;
                let current = if old(self).data@.len() == 0 {
                    12
                } else {
                    old(self).data@.len() as int
                };
                key_len <= 0x1_0000 && value_len <= 0xffff_ffff && current + size <= old(self).max_batch_size
            }),
    {
        let ghost before = *self;
        proof {
            law_record_that_fits_is_taken(before, key_len, value_len);
        }
        let (key_varint, value_varint, record_size) = match self.key_value_record_layout(
            key_len,
            value_len,
        ) {
            Ok(layout) => layout,
            Err(error) => {
                return Err(error);
            },
        };
        let (reservation_start, reservation_end) = match self.reserve_operation(record_size) {
            Ok(reserved) => reserved,
            Err(error) => {
                return Err(error);
            },
        };
        let (key_at, value_at) = self.write_frame(
            reservation_start,
            kind,
            cf_id,
            &key_varint,
            key_len,
            &value_varint,
            value_len,
            Ghost(initialized(before.data@)),
        );
        proof {
            record::lemma_record_size(
                blank_record(kind, cf_id, key_len as nat, value_len as nat),
            );
        }
        let record = self.data.split_off(reservation_start);
        proof {
            assert(self.data@ =~= initialized(before.data@));
            assert(record@ =~= record::record_bytes(
                blank_record(kind, cf_id, key_len as nat, value_len as nat),
            ));
        }
        Ok(
            DeferredOp::new(
                self,
                record,
                reservation_start,
                reservation_end,
                key_at,
                key_len,
                value_at,
                value_len,
            ),
        )
    }

    /// Adds an operation whose key and value `f` writes in place. On an error
    /// the batch is as it was, and `f` is not called.
    ///
    /// All that `f` may do to what it is handed is to fill in the key and the
    /// value, and to finish it. Where `f` panics, the operation is dropped, and the
    /// batch holds what it held.
    #[verifier::spinoff_prover]
    #[verifier::rlimit(40)]
    pub fn put_with<F>(
        &mut self,
        cf_id: u64,
        key_len: usize,
        value_len: usize,
        kind: BatchRecordKind,
        f: F,
    ) -> (result: Result<()>) where F: FnOnce(&mut DeferredOp)
        requires
            old(self).wf(),
            old(self).runtime_commit_state != BatchRuntimeState::InQueue,
            forall|op: &mut DeferredOp|
                op.reserves(*old(self), cf_id, key_len as nat, value_len as nat, kind)
                    ==> #[trigger] call_requires(f, (op,)),
            forall|op: &mut DeferredOp|
                op.reserves(*old(self), cf_id, key_len as nat, value_len as nat, kind)
                    && #[trigger] call_ensures(f, (op,), ()) ==> match final(op).batch {
                    Some(batch) => {
                        &&& *batch == *op.batch->0
                        &&& *final(batch) == *final(op.batch->0)
                        &&& op.fills(final(op).record@)
                    },
                    None => finished(*op.batch->0, *final(op.batch->0)) && op.fills(
                        added_bytes(*op.batch->0, *final(op.batch->0)),
                    ),
                },
        ensures
            match put_error(*old(self), key_len as nat, value_len as nat) {
                Some(error) => result == Err::<(), Error>(error) && *final(self) == *old(self),
                None => result is Ok && exists|op: &mut DeferredOp|
                    {
                        &&& op.reserves(*old(self), cf_id, key_len as nat, value_len as nat, kind)
                        &&& #[trigger] call_ensures(f, (op,), ())
                        &&& appended(
                            *old(self),
                            *final(self),
                            op.made(
                                match final(op).batch {
                                    Some(_) => final(op).record@,
                                    None => added_bytes(*op.batch->0, *final(op.batch->0)),
                                },
                                cf_id,
                                kind,
                            ),
                        )
                    },
            },
            result is Ok <==> ({
                let key_width: int = if key_len < 0x80 {
                    1
                } else if key_len < 0x4000 {
                    2
                } else {
                    3
                };
                let value_width: int = if value_len < 0x80 {
                    1
                } else if value_len < 0x4000 {
                    2
                } else if value_len < 0x20_0000 {
                    3
                } else if value_len < 0x1000_0000 {
                    4
                } else {
                    5
                };
                let size = 9 + key_width + key_len + value_width + value_len;
                let current = if old(self).data@.len() == 0 {
                    12
                } else {
                    old(self).data@.len() as int
                };
                key_len <= 0x1_0000 && value_len <= 0xffff_ffff && current + size <= old(self).max_batch_size
            }),
            result is Err ==> *final(self) == *old(self),
            result is Ok ==> {
                &&& final(self).records@.len() == old(self).records@.len() + 1
                &&& final(self).records@.drop_last() == old(self).records@
                &&& final(self).records@.last().kind == kind
                &&& final(self).records@.last().cf_id == cf_id
                &&& final(self).records@.last().key.len() == key_len
                &&& final(self).records@.last().value.len() == value_len
            },
    {
        let ghost before = *self;
        proof {
            law_record_that_fits_is_taken(before, key_len, value_len);
        }
        let mut op = match self.prepare_with_key_value_impl(cf_id, key_len, value_len, kind) {
            Ok(op) => op,
            Err(error) => {
                return Err(error);
            },
        };
        let handle = &mut op;
        let ghost given = handle;
        f(handle);
        op.finish();
        let ghost front = initialized(before.data@);
        let ghost bytes = self.data@.skip(front.len() as int);
        let ghost made = given.made(bytes, cf_id, kind);
        proof {
            assert(self.data@ =~= front + bytes);
            assert(bytes =~= match final(given).batch {
                Some(_) => final(given).record@,
                None => added_bytes(*given.batch->0, *final(given.batch->0)),
            });
            assert(Seq::<u8>::empty() + given.record@ =~= given.record@);
            assert(Seq::<u8>::empty() + record::record_bytes(made) =~= record::record_bytes(made));
            lemma_filled(
                Seq::empty(),
                bytes,
                kind,
                cf_id,
                key_len as nat,
                value_len as nat,
            );
            record::lemma_record_size(
                blank_record(kind, cf_id, key_len as nat, value_len as nat),
            );
        }
        self.count_operation(Ghost(before), Ghost(made));
        proof {
            assert(self.records@ == before.records@.push(made));
            assert(self.records@.drop_last() =~= before.records@);
            assert(self.records@.last() == made);
            assert(made.key.len() == key_len && made.value.len() == value_len);
        }
        Ok(())
    }

    /// Empties the batch. Its buffer keeps its memory.
    pub fn clear(&mut self)
        requires
            reset_safe(old(self).runtime_commit_state),
            old(self).max_batch_size <= u32::MAX,
        ensures
            final(self).cleared(*old(self)),
            final(self).data@.len() == 0,
            final(self).count == 0,
            final(self).records@.len() == 0,
            final(self).cf_table.len == 0,
            final(self).cf_table.vec@.len() == 0,
            final(self).batch_meta.first_seen_cf_id == 0,
            !final(self).batch_meta.multiple_cf_ids,
            final(self).max_batch_size == old(self).max_batch_size,
            final(self).runtime_commit_state == old(self).runtime_commit_state,
            final(self).sync_waiter == old(self).sync_waiter,
    {
        self.count = 0;
        self.data.clear();
        self.batch_meta.clear();
        self.cf_table.clear();
        self.records = Ghost(Seq::empty());
    }

    /// This is `before` without its operations and its header.
    pub open spec fn cleared(&self, before: BatchInner) -> bool {
        &&& self.wf()
        &&& self.data@.len() == 0
        &&& self.count == 0
        &&& self.records@ == Seq::<Record>::empty()
        &&& self.batch_meta == (BatchMeta { first_seen_cf_id: 0, multiple_cf_ids: false })
        &&& self.cf_table.len == 0
        &&& self.cf_table.vec@.len() == 0
        &&& self.max_batch_size == before.max_batch_size
        &&& self.runtime_commit_state == before.runtime_commit_state
        &&& self.sync_waiter == before.sync_waiter
    }
}

/// A batch's bytes say what it holds: reading the count in the header, and then
/// that many operations, gives the batch's operations.
pub proof fn law_batch_decodes(batch: BatchInner)
    requires
        batch.wf(),
        batch.data@.len() > 0,
    ensures
        utils::le_value(batch.data@.subrange(8, 12)) == batch.records@.len(),
        record::parse_records(
            batch.data@.skip(12),
            utils::le_value(batch.data@.subrange(8, 12)),
        ) == Some(batch.records@),
{
    assert(batch.count < utils::pow256(4)) by {
        reveal_with_fuel(utils::pow256, 5);
    }
    utils::law_le_round_trip(batch.count as nat, 4);
    record::law_records_round_trip(batch.records@);
}

/// A record that a batch is too full for goes into an empty batch of the same
/// limit, so a caller can commit the full one and try again.
pub proof fn law_full_batch_can_be_retried(
    full: BatchInner,
    empty: BatchInner,
    key_len: nat,
    value_len: nat,
)
    requires
        put_error(full, key_len, value_len) matches Some(Error::BatchFull { .. }),
        empty.max_batch_size == full.max_batch_size,
        empty.data@.len() == 0 || empty.data@.len() == 12,
    ensures
        put_error(empty, key_len, value_len) is None,
{
}

/// A record that fits is taken, and no other. Its key may have 65536 bytes, its
/// value what a `u32` can count. It takes one byte for its kind, eight for the column
/// family, the two lengths at seven bits to a byte, the key and the value. It fits
/// when these bytes, behind those of the batch, or behind a header of twelve where
/// the batch has none, come to the limit at most. Each refusal says which of these
/// is broken: a record that would not fit an empty batch is too large, another finds
/// the batch full.
pub proof fn law_record_that_fits_is_taken(batch: BatchInner, key_len: usize, value_len: usize)
    requires
        batch.wf(),
    ensures
        put_error(batch, key_len as nat, value_len as nat) is None <==> ({
            let key_width: int = if key_len < 0x80 {
                1
            } else if key_len < 0x4000 {
                2
            } else {
                3
            };
            let value_width: int = if value_len < 0x80 {
                1
            } else if value_len < 0x4000 {
                2
            } else if value_len < 0x20_0000 {
                3
            } else if value_len < 0x1000_0000 {
                4
            } else {
                5
            };
            let size = 9 + key_width + key_len + value_width + value_len;
            let current = if batch.data@.len() == 0 {
                12
            } else {
                batch.data@.len() as int
            };
            key_len <= 0x1_0000 && value_len <= 0xffff_ffff && current + size <= batch.max_batch_size
        }),
        put_error(batch, key_len as nat, value_len as nat) == Some(
            Error::KeyTooLarge { size: key_len, max: 0x1_0000 },
        ) <==> key_len > 0x1_0000,
        put_error(batch, key_len as nat, value_len as nat) == Some(
            Error::ValueTooLarge { size: value_len, max: 0xffff_ffff },
        ) <==> key_len <= 0x1_0000 && value_len > 0xffff_ffff,
        put_error(batch, key_len as nat, value_len as nat) matches Some(
            Error::BatchFull { record_size, current_size, max_batch_size },
        ) ==> {
            &&& max_batch_size == batch.max_batch_size
            &&& current_size == (if batch.data@.len() == 0 {
                12
            } else {
                batch.data@.len()
            })
            &&& 12 + record_size <= max_batch_size < current_size + record_size
        },
        put_error(batch, key_len as nat, value_len as nat) matches Some(
            Error::RecordTooLarge { encoded_size, max_batch_size },
        ) ==> max_batch_size == batch.max_batch_size <= encoded_size,
        put_error(batch, key_len as nat, value_len as nat) is None || {
            ||| put_error(batch, key_len as nat, value_len as nat)->0 is KeyTooLarge
            ||| put_error(batch, key_len as nat, value_len as nat)->0 is ValueTooLarge
            ||| put_error(batch, key_len as nat, value_len as nat)->0 is RecordTooLarge
            ||| put_error(batch, key_len as nat, value_len as nat)->0 is BatchFull
        },
        batch.data@.len() <= 12 ==> !(put_error(
            batch,
            key_len as nat,
            value_len as nat,
        ) matches Some(Error::BatchFull { .. })),
{
    var_int::law_varint_size(key_len as nat);
    var_int::law_varint_size(value_len as nat);
}

/// A batch that is filled takes every record up to its limit: any two records that
/// together fit go in one after the other, and what the first takes is what the
/// second has less.
pub proof fn law_records_fill_the_batch(
    before: BatchInner,
    after: BatchInner,
    record: Record,
    key_len: nat,
    value_len: nat,
)
    requires
        before.wf(),
        appended(before, after, record),
        record.key.len() <= 0x1_0000,
        record.value.len() <= 0xffff_ffff,
        key_len <= 0x1_0000,
        value_len <= 0xffff_ffff,
    ensures
        put_error(after, key_len, value_len) is None <==> {
            let front = if before.data@.len() == 0 {
                12
            } else {
                before.data@.len() as int
            };
            front + record::record_bytes(record).len() + record::record_size(key_len, value_len)
                <= before.max_batch_size
        },
{
    record::lemma_record_size(record);
    var_int::law_varint_size(key_len);
    var_int::law_varint_size(value_len);
}

/// Adding a record changes the end of the batch and its count, and nothing else: the
/// operations from before stand in front of it, with the same bytes; the count, also
/// in the header, is one more; and the sequence number, the limit and what else the
/// batch carries are untouched.
pub proof fn law_record_is_appended(before: BatchInner, after: BatchInner, record: Record)
    requires
        before.wf(),
        appended(before, after, record),
    ensures
        after.records@.len() == before.records@.len() + 1,
        after.records@.drop_last() == before.records@,
        after.records@.last() == record,
        after.count == before.count + 1,
        after.data@.len() >= 12,
        utils::le_value(after.data@.subrange(8, 12)) == before.count + 1,
        before.data@.len() > 0 ==> {
            &&& after.data@.take(8) == before.data@.take(8)
            &&& after.data@.skip(12) == before.data@.skip(12) + record::record_bytes(record)
        },
        before.data@.len() == 0 ==> {
            &&& forall|i: int| 0 <= i < 8 ==> #[trigger] after.data@[i] == 0
            &&& after.data@.skip(12) == record::record_bytes(record)
        },
        after.data@.len() <= before.max_batch_size,
        after.max_batch_size == before.max_batch_size,
        after.runtime_commit_state == before.runtime_commit_state,
        after.batch_meta == before.batch_meta,
        after.cf_table == before.cf_table,
        after.sync_waiter == before.sync_waiter,
{
    assert(before.records@.push(record).drop_last() =~= before.records@);
    assert(after.count < utils::pow256(4)) by {
        reveal_with_fuel(utils::pow256, 5);
    }
    utils::law_le_round_trip(after.count as nat, 4);
    record::lemma_record_size(record);
    if before.data@.len() == 0 {
        assert(before.records@ =~= Seq::<Record>::empty());
        assert(after.data@.skip(12) =~= record::record_bytes(record));
        assert forall|i: int| 0 <= i < 8 implies #[trigger] after.data@[i] == 0 by {
            assert(after.data@.take(8)[i] == utils::zeros(12).take(8)[i]);
        }
    }
}

/// An operation that is not finished leaves no trace: the batch, as it is given
/// back when the operation is dropped, holds the operations from before, and also
/// the bytes, but for the header that a batch without any bytes was given.
pub proof fn law_unfinished_operation_leaves_no_trace(
    op: DeferredOp,
    before: BatchInner,
    cf_id: u64,
    key_len: nat,
    value_len: nat,
    kind: BatchRecordKind,
)
    requires
        before.wf(),
        put_error(before, key_len, value_len) is None,
        op.reserves(before, cf_id, key_len, value_len, kind),
    ensures
        ({
            let batch = *op.batch->0;
            &&& batch.wf()
            &&& batch.data@ == initialized(before.data@)
            &&& batch.records == before.records
            &&& same_outside_data(before, batch)
        }),
{
    let batch = *op.batch->0;
    if before.data@.len() == 0 {
        assert(before.records@ =~= Seq::<Record>::empty());
        assert(batch.data@.subrange(8, 12) =~= utils::le_bytes(0, 4)) by {
            reveal_with_fuel(utils::le_bytes, 5);
        }
        assert(batch.data@.skip(12) =~= Seq::<u8>::empty());
    }
}

/// Only its owner can reach a batch that is in use or applied, so only then may it be
/// reset: not while it lies in a pool, stands in the queue, or waits for its sync.
pub proof fn law_reset_only_when_owned(state: BatchRuntimeState)
    ensures
        reset_safe(state) <==> state is Acquired || state is Applied,
        runtime_state_code(BatchRuntimeState::Idle) == 0,
        runtime_state_code(BatchRuntimeState::Acquired) == 1,
        runtime_state_code(BatchRuntimeState::InQueue) == 2,
        runtime_state_code(BatchRuntimeState::WaitingSync) == 3,
        runtime_state_code(BatchRuntimeState::Applied) == 4,
{
}

/// A batch that is made holds a zeroed header of twelve bytes and nothing else, and may
/// come to one mebibyte. One that was emptied holds nothing, and keeps its limit. Both
/// take the same records next.
pub proof fn law_emptied_batch_is_as_good_as_new(
    fresh: BatchInner,
    before: BatchInner,
    emptied: BatchInner,
    key_len: nat,
    value_len: nat,
)
    requires
        fresh.fresh(),
        emptied.cleared(before),
    ensures
        fresh.data@.len() == 12,
        forall|i: int| 0 <= i < 12 ==> #[trigger] fresh.data@[i] == 0,
        fresh.max_batch_size == 0x10_0000,
        fresh.records@.len() == 0,
        fresh.count == 0,
        emptied.data@.len() == 0,
        emptied.records@.len() == 0,
        emptied.count == 0,
        emptied.max_batch_size == before.max_batch_size,
        emptied.sync_waiter == before.sync_waiter,
        emptied.runtime_commit_state == before.runtime_commit_state,
        before.max_batch_size == fresh.max_batch_size ==> put_error(emptied, key_len, value_len)
            == put_error(fresh, key_len, value_len),
{
}

/// A batch whose memory changes holds what it held: the same bytes, operations and count,
/// under the same limit, in the same state.
pub proof fn law_memory_is_not_contents(before: BatchInner, after: BatchInner)
    requires
        same_contents(before, after),
    ensures
        after.data@ == before.data@,
        after.records@ == before.records@,
        after.count == before.count,
        after.max_batch_size == before.max_batch_size,
        after.runtime_commit_state == before.runtime_commit_state,
        after.batch_meta == before.batch_meta,
        after.cf_table == before.cf_table,
        after.sync_waiter == before.sync_waiter,
        before.wf() ==> after.wf(),
{
}

} // verus!
