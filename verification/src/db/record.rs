//! How the operations of a batch are encoded.
//!
//! An operation is its kind (1 byte), its column family (8 bytes, least
//! significant first), the length of its key (a variable-length integer), the
//! key, the length of its value, and the value. Operations follow one another
//! without anything between them.

use crate::utils;
use crate::utils::var_int;
use vstd::prelude::*;

verus! {

/// What an operation does.
#[derive(Debug, Clone, Copy, PartialEq, Eq, Structural)]
pub enum BatchRecordKind {
    Put,
    Delete,
    Merge,
    RangeDel,
}

/// The byte that stands for a kind.
pub open spec fn kind_code(kind: BatchRecordKind) -> u8 {
    match kind {
        BatchRecordKind::Put => 1,
        BatchRecordKind::Delete => 2,
        BatchRecordKind::Merge => 3,
        BatchRecordKind::RangeDel => 4,
    }
}

/// The kind that a byte stands for.
pub open spec fn kind_of_code(code: u8) -> Option<BatchRecordKind> {
    if code == 1 {
        Some(BatchRecordKind::Put)
    } else if code == 2 {
        Some(BatchRecordKind::Delete)
    } else if code == 3 {
        Some(BatchRecordKind::Merge)
    } else if code == 4 {
        Some(BatchRecordKind::RangeDel)
    } else {
        None
    }
}

impl BatchRecordKind {
    /// The byte that stands for this kind.
    pub fn code(self) -> (code: u8)
        ensures
            code == kind_code(self),
            self is Put <==> code == 1,
            self is Delete <==> code == 2,
            self is Merge <==> code == 3,
            self is RangeDel <==> code == 4,
            1 <= code <= 4,
    {
        match self {
            BatchRecordKind::Put => 1,
            BatchRecordKind::Delete => 2,
            BatchRecordKind::Merge => 3,
            BatchRecordKind::RangeDel => 4,
        }
    }
}

/// One operation of a batch.
#[verifier::ext_equal]
pub struct Record {
    pub kind: BatchRecordKind,
    pub cf_id: u64,
    pub key: Seq<u8>,
    pub value: Seq<u8>,
}

/// The part of an encoded operation that stands before its key.
pub open spec fn key_prefix(kind: BatchRecordKind, cf_id: u64, key_len: nat) -> Seq<u8> {
    seq![kind_code(kind)] + utils::le_bytes(cf_id as nat, 8) + var_int::varint_bytes(key_len)
}

/// An operation as bytes.
pub open spec fn record_bytes(record: Record) -> Seq<u8> {
    key_prefix(record.kind, record.cf_id, record.key.len()) + record.key + var_int::varint_bytes(
        record.value.len(),
    ) + record.value
}

/// How many bytes an operation takes.
pub open spec fn record_size(key_len: nat, value_len: nat) -> nat {
    9 + var_int::varint_bytes(key_len).len() + key_len + var_int::varint_bytes(value_len).len() + value_len
}

/// A list of operations as bytes.
pub open spec fn records_bytes(records: Seq<Record>) -> Seq<u8>
    decreases records.len(),
{
    if records.len() == 0 {
        Seq::empty()
    } else {
        records_bytes(records.drop_last()) + record_bytes(records.last())
    }
}

/// Reads one operation at the front of `bytes`, and says how many bytes it took.
#[verifier::opaque]
pub open spec fn parse_record(bytes: Seq<u8>) -> Option<(Record, nat)> {
    if bytes.len() < 9 {
        None
    } else {
        let (key_len, key_read) = var_int::varint_value(bytes.skip(9));
        let key_at = 9 + key_read;
        let (value_len, value_read) = var_int::varint_value(bytes.skip((key_at + key_len) as int));
        let value_at = key_at + key_len + value_read;
        match kind_of_code(bytes[0]) {
            None => None,
            Some(kind) => if value_at + value_len > bytes.len() {
                None
            } else {
                Some(
                    (
                        Record {
                            kind,
                            cf_id: utils::le_value(bytes.subrange(1, 9)) as u64,
                            key: bytes.subrange(key_at as int, (key_at + key_len) as int),
                            value: bytes.subrange(value_at as int, (value_at + value_len) as int),
                        },
                        value_at + value_len,
                    ),
                )
            },
        }
    }
}

/// Reads `count` operations, which must take all of `bytes`.
pub open spec fn parse_records(bytes: Seq<u8>, count: nat) -> Option<Seq<Record>>
    decreases count,
{
    if count == 0 {
        if bytes.len() == 0 {
            Some(Seq::empty())
        } else {
            None
        }
    } else {
        match parse_record(bytes) {
            None => None,
            Some((record, read)) => match parse_records(
                bytes.skip(read as int),
                (count - 1) as nat,
            ) {
                None => None,
                Some(rest) => Some(seq![record] + rest),
            },
        }
    }
}

/// An operation takes `record_size` bytes, and at least eleven.
pub proof fn lemma_record_size(record: Record)
    ensures
        record_bytes(record).len() == record_size(record.key.len(), record.value.len()),
        record_bytes(record).len() >= 11,
{
    utils::lemma_le_bytes_len(record.cf_id as nat, 8);
    var_int::law_varint_size(record.key.len());
    var_int::law_varint_size(record.value.len());
}

/// Operations take at least eleven bytes each.
pub proof fn lemma_records_size(records: Seq<Record>)
    ensures
        records_bytes(records).len() >= 11 * records.len(),
    decreases records.len(),
{
    if records.len() > 0 {
        lemma_records_size(records.drop_last());
        lemma_record_size(records.last());
    }
}

/// Reading an encoded operation gives it back, and reads exactly its bytes,
/// whatever follows.
pub proof fn law_record_round_trip(record: Record, rest: Seq<u8>)
    ensures
        parse_record(record_bytes(record) + rest) == Some((record, record_bytes(record).len())),
{
    reveal(parse_record);
    let bytes = record_bytes(record) + rest;
    let prefix = key_prefix(record.kind, record.cf_id, record.key.len());
    let key_len = var_int::varint_bytes(record.key.len());
    let value_len = var_int::varint_bytes(record.value.len());
    lemma_record_size(record);
    utils::lemma_le_bytes_len(record.cf_id as nat, 8);
    assert(bytes.subrange(1, 9) =~= utils::le_bytes(record.cf_id as nat, 8));
    assert(record.cf_id < utils::pow256(8)) by {
        reveal_with_fuel(utils::pow256, 9);
    }
    utils::law_le_round_trip(record.cf_id as nat, 8);
    let after_cf = record.key + value_len + record.value + rest;
    assert(bytes.skip(9) =~= key_len + after_cf);
    var_int::law_varint_round_trip(record.key.len(), after_cf);
    let key_at = prefix.len();
    let after_key = record.value + rest;
    assert(bytes.skip((key_at + record.key.len()) as int) =~= value_len + after_key);
    var_int::law_varint_round_trip(record.value.len(), after_key);
    assert(bytes.subrange(key_at as int, (key_at + record.key.len()) as int) =~= record.key);
    let value_at = key_at + record.key.len() + value_len.len();
    assert(bytes.subrange(value_at as int, (value_at + record.value.len()) as int)
        =~= record.value);
}

/// The encoding of a list starts with the encoding of its first operation.
proof fn lemma_records_bytes_first(records: Seq<Record>)
    requires
        records.len() > 0,
    ensures
        records_bytes(records) == record_bytes(records[0]) + records_bytes(records.drop_first()),
    decreases records.len(),
{
    if records.len() == 1 {
        assert(records.drop_last() =~= Seq::<Record>::empty());
        assert(records.drop_first() =~= Seq::<Record>::empty());
        assert(records_bytes(records) =~= record_bytes(records[0]) + records_bytes(
            records.drop_first(),
        ));
    } else {
        lemma_records_bytes_first(records.drop_last());
        assert(records.drop_last().drop_first() =~= records.drop_first().drop_last());
        assert(records_bytes(records) =~= record_bytes(records[0]) + records_bytes(
            records.drop_first(),
        ));
    }
}

/// Reading encoded operations gives them back, in their order: no two lists of
/// operations of one length have the same bytes.
pub proof fn law_records_round_trip(records: Seq<Record>)
    ensures
        parse_records(records_bytes(records), records.len()) == Some(records),
    decreases records.len(),
{
    if records.len() > 0 {
        let rest = records.drop_first();
        let bytes = records_bytes(records);
        lemma_records_bytes_first(records);
        law_record_round_trip(records[0], records_bytes(rest));
        assert(bytes.skip(record_bytes(records[0]).len() as int) =~= records_bytes(rest));
        law_records_round_trip(rest);
        assert(seq![records[0]] + rest =~= records);
    }
}

/// What stands where in an encoded operation: its kind in the first byte, the column
/// family in the next eight with the least significant first, the length of the key,
/// the key, the length of the value, and the value, with nothing between them and
/// nothing behind.
pub proof fn law_record_layout(record: Record, i: nat)
    requires
        i < 8,
    ensures
        ({
            let bytes = record_bytes(record);
            let key_width = var_int::varint_bytes(record.key.len()).len() as int;
            let value_width = var_int::varint_bytes(record.value.len()).len() as int;
            let key_at = 9 + key_width;
            let value_at = key_at + record.key.len() + value_width;
            &&& bytes.len() == value_at + record.value.len()
            &&& record.kind is Put <==> bytes[0] == 1
            &&& record.kind is Delete <==> bytes[0] == 2
            &&& record.kind is Merge <==> bytes[0] == 3
            &&& record.kind is RangeDel <==> bytes[0] == 4
            &&& bytes[1 + i as int] == record.cf_id as int / vstd::arithmetic::power::pow(256, i) % 256
            &&& bytes.subrange(9, key_at) == var_int::varint_bytes(record.key.len())
            &&& bytes.subrange(key_at, key_at + record.key.len()) == record.key
            &&& bytes.subrange(key_at + record.key.len(), value_at) == var_int::varint_bytes(
                record.value.len(),
            )
            &&& bytes.skip(value_at) == record.value
        }),
{
    utils::lemma_le_bytes_len(record.cf_id as nat, 8);
    utils::law_le_digits(record.cf_id as nat, 8, i);
    let bytes = record_bytes(record);
    let key_len = var_int::varint_bytes(record.key.len());
    let value_len = var_int::varint_bytes(record.value.len());
    let key_at = 9 + key_len.len();
    let value_at = key_at + record.key.len() + value_len.len();
    assert(bytes[1 + i as int] == utils::le_bytes(record.cf_id as nat, 8)[i as int]);
    assert(bytes.subrange(9, key_at as int) =~= key_len);
    assert(bytes.subrange(key_at as int, (key_at + record.key.len()) as int) =~= record.key);
    assert(bytes.subrange((key_at + record.key.len()) as int, value_at as int) =~= value_len);
    assert(bytes.skip(value_at as int) =~= record.value);
}

/// Operations follow one another: the bytes of a longer list are those of the shorter
/// one, and then those of the operation that was added.
pub proof fn law_records_follow_one_another(records: Seq<Record>, record: Record)
    ensures
        records_bytes(records.push(record)) == records_bytes(records) + record_bytes(record),
        records_bytes(Seq::<Record>::empty()).len() == 0,
{
    assert(records.push(record).drop_last() =~= records);
}

} // verus!
