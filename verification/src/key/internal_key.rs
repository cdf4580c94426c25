//! Internal keys: a user key with a trailer of eight bytes.
//!
//! The trailer packs a sequence number and the kind of the operation into one
//! number, the kind in its low byte. It is stored most significant byte first,
//! so that trailers compare by their bytes as the numbers do.

use crate::db::record::BatchRecordKind;
use crate::utils;
use crate::utils::text;
use vstd::prelude::*;

verus! {

/// How long an internal key is that is stored inline.
pub const INLINE_IK_SIZE: usize = 20;

/// What an operation on a key does.
#[derive(Debug, Clone, Copy, PartialEq, Eq, PartialOrd, Ord, Structural)]
pub enum InternalKeyKind {
    Put,
    Delete,
    Merge,
    /// Above every other kind, for searches.
    Max,
}

/// A trailer has a kind byte that is not part of the encoding.
///
/// Keys are read back from files, so an unknown byte is bad input and nothing
/// else. The byte is kept for whoever looks into it.
#[derive(Debug, Clone, Copy, PartialEq, Eq, Structural)]
pub struct InvalidInternalKeyKind {
    pub raw: u8,
}

impl InvalidInternalKeyKind {
    /// The byte.
    pub fn raw(self) -> (raw: u8)
        ensures
            raw == self.raw,
    {
        self.raw
    }

    /// The error in words.
    pub fn to_string(&self) -> (message: String)
        ensures
            message@ == "invalid internal-key kind: "@ + text::decimal(self.raw as nat),
    {
        let mut message = String::from_str("invalid internal-key kind: ");
        text::append_decimal(&mut message, self.raw as u64);
        message
    }
}

/// The byte that stands for a kind.
pub open spec fn key_kind_code(kind: InternalKeyKind) -> u8 {
    match kind {
        InternalKeyKind::Put => 1,
        InternalKeyKind::Delete => 2,
        InternalKeyKind::Merge => 3,
        InternalKeyKind::Max => 255,
    }
}

/// The kind that a byte stands for, or the error that holds the byte.
pub open spec fn key_kind(raw: u8) -> std::result::Result<InternalKeyKind, InvalidInternalKeyKind> {
    if raw == 1 {
        Ok(InternalKeyKind::Put)
    } else if raw == 2 {
        Ok(InternalKeyKind::Delete)
    } else if raw == 3 {
        Ok(InternalKeyKind::Merge)
    } else if raw == 255 {
        Ok(InternalKeyKind::Max)
    } else {
        Err(InvalidInternalKeyKind { raw })
    }
}

/// A kind by its name.
pub open spec fn key_kind_name(kind: InternalKeyKind) -> Seq<char> {
    match kind {
        InternalKeyKind::Put => "Put"@,
        InternalKeyKind::Delete => "Delete"@,
        InternalKeyKind::Merge => "Merge"@,
        InternalKeyKind::Max => "Max"@,
    }
}

impl vstd::std_specs::convert::FromSpecImpl<InternalKeyKind> for u64 {
    open spec fn obeys_from_spec() -> bool {
        true
    }

    open spec fn from_spec(op: InternalKeyKind) -> u64 {
        key_kind_code(op) as u64
    }
}

impl From<InternalKeyKind> for u64 {
    fn from(op: InternalKeyKind) -> (code: u64) {
        match op {
            InternalKeyKind::Put => 1,
            InternalKeyKind::Delete => 2,
            InternalKeyKind::Merge => 3,
            InternalKeyKind::Max => 255,
        }
    }
}

impl vstd::std_specs::convert::TryFromSpecImpl<u8> for InternalKeyKind {
    open spec fn obeys_try_from_spec() -> bool {
        true
    }

    open spec fn try_from_spec(raw: u8) -> std::result::Result<Self, InvalidInternalKeyKind> {
        key_kind(raw)
    }
}

impl TryFrom<u8> for InternalKeyKind {
    type Error = InvalidInternalKeyKind;

    fn try_from(raw: u8) -> (kind: std::result::Result<Self, InvalidInternalKeyKind>) {
        match raw {
            1 => Ok(InternalKeyKind::Put),
            2 => Ok(InternalKeyKind::Delete),
            3 => Ok(InternalKeyKind::Merge),
            255 => Ok(InternalKeyKind::Max),
            raw => Err(InvalidInternalKeyKind { raw }),
        }
    }
}

/// The kind of key that an operation of a batch leaves, or the operation itself
/// where it is not on a single key.
pub open spec fn key_kind_of_record(kind: BatchRecordKind) -> std::result::Result<
    InternalKeyKind,
    BatchRecordKind,
> {
    match kind {
        BatchRecordKind::Put => Ok(InternalKeyKind::Put),
        BatchRecordKind::Delete => Ok(InternalKeyKind::Delete),
        BatchRecordKind::Merge => Ok(InternalKeyKind::Merge),
        BatchRecordKind::RangeDel => Err(BatchRecordKind::RangeDel),
    }
}

impl vstd::std_specs::convert::TryFromSpecImpl<BatchRecordKind> for InternalKeyKind {
    open spec fn obeys_try_from_spec() -> bool {
        true
    }

    open spec fn try_from_spec(kind: BatchRecordKind) -> std::result::Result<
        Self,
        BatchRecordKind,
    > {
        key_kind_of_record(kind)
    }
}

impl TryFrom<BatchRecordKind> for InternalKeyKind {
    type Error = BatchRecordKind;

    fn try_from(kind: BatchRecordKind) -> (result: std::result::Result<Self, BatchRecordKind>) {
        match kind {
            BatchRecordKind::Put => Ok(InternalKeyKind::Put),
            BatchRecordKind::Delete => Ok(InternalKeyKind::Delete),
            BatchRecordKind::Merge => Ok(InternalKeyKind::Merge),
            BatchRecordKind::RangeDel => Err(BatchRecordKind::RangeDel),
        }
    }
}

impl InternalKeyKind {
    /// The kind's name.
    pub fn to_string(&self) -> (name: String)
        ensures
            name@ == key_kind_name(*self),
            *self is Put ==> name@ == "Put"@,
            *self is Delete ==> name@ == "Delete"@,
            *self is Merge ==> name@ == "Merge"@,
            *self is Max ==> name@ == "Max"@,
    {
        let name = match self {
            InternalKeyKind::Put => "Put",
            InternalKeyKind::Delete => "Delete",
            InternalKeyKind::Merge => "Merge",
            InternalKeyKind::Max => "Max",
        };
        String::from_str(name)
    }
}

/// A sequence number and a kind in one number.
pub open spec fn trailer(seq_no: nat, op: InternalKeyKind) -> nat {
    seq_no * 256 + key_kind_code(op) as nat
}

/// Packs a sequence number and a kind into one number. A sequence number has 56
/// bits.
pub fn pack_trailer(seq_no: u64, op: InternalKeyKind) -> (packed: u64)
    requires
        seq_no < 0x100_0000_0000_0000,
    ensures
        packed == trailer(seq_no as nat, op),
        packed / 256 == seq_no,
        op is Put <==> packed % 256 == 1,
        op is Delete <==> packed % 256 == 2,
        op is Merge <==> packed % 256 == 3,
        op is Max <==> packed % 256 == 255,
{
    seq_no * 256 + u64::from(op)
}

/// The trailer of a key.
#[must_use]
pub fn encode_trailer(seq_no: u64, op: InternalKeyKind) -> (bytes: [u8; 8])
    requires
        seq_no < 0x100_0000_0000_0000,
    ensures
        bytes@ == utils::be_bytes(trailer(seq_no as nat, op), 8),
        op is Put <==> bytes@[7] == 1,
        op is Delete <==> bytes@[7] == 2,
        op is Merge <==> bytes@[7] == 3,
        op is Max <==> bytes@[7] == 255,
        seq_no == bytes@[6] + 0x100 * bytes@[5] + 0x1_0000 * bytes@[4] + 0x100_0000 * bytes@[3]
            + 0x1_0000_0000 * bytes@[2] + 0x100_0000_0000 * bytes@[1] + 0x1_0000_0000_0000
            * bytes@[0],
{
    utils::u64_be_bytes(pack_trailer(seq_no, op))
}

/// The sequence number and the kind byte in a trailer.
pub fn unpack_trailer_raw(trailer: u64) -> (parts: (u64, u8))
    ensures
        parts == ((trailer / 256) as u64, (trailer % 256) as u8),
{
    (trailer / 256, (trailer % 256) as u8)
}

/// The sequence number and the kind in a trailer.
pub fn unpack_trailer(trailer: u64) -> (parts: std::result::Result<
    (u64, InternalKeyKind),
    InvalidInternalKeyKind,
>)
    ensures
        parts == (match key_kind((trailer % 256) as u8) {
            Ok(kind) => Ok(((trailer / 256) as u64, kind)),
            Err(error) => Err(error),
        }),
        parts is Ok <==> trailer % 256 == 1 || trailer % 256 == 2 || trailer % 256 == 3 || trailer
            % 256 == 255,
        parts matches Ok((seq_no, kind)) ==> {
            &&& seq_no == trailer / 256
            &&& kind is Put <==> trailer % 256 == 1
            &&& kind is Delete <==> trailer % 256 == 2
            &&& kind is Merge <==> trailer % 256 == 3
            &&& kind is Max <==> trailer % 256 == 255
        },
        parts matches Err(error) ==> error.raw == trailer % 256,
{
    let (seq_no, op) = unpack_trailer_raw(trailer);
    match InternalKeyKind::try_from(op) {
        Ok(kind) => Ok((seq_no, kind)),
        Err(error) => Err(error),
    }
}

/// The sequence number in a trailer.
pub fn extract_seq_no(trailer: u64) -> (seq_no: u64)
    ensures
        seq_no == trailer / 256,
{
    trailer / 256
}

/// The kind in a trailer.
pub fn extract_op(trailer: u64) -> (kind: std::result::Result<
    InternalKeyKind,
    InvalidInternalKeyKind,
>)
    ensures
        kind == key_kind((trailer % 256) as u8),
        kind is Ok <==> trailer % 256 == 1 || trailer % 256 == 2 || trailer % 256 == 3 || trailer
            % 256 == 255,
        kind matches Ok(kind) ==> {
            &&& kind is Put <==> trailer % 256 == 1
            &&& kind is Delete <==> trailer % 256 == 2
            &&& kind is Merge <==> trailer % 256 == 3
            &&& kind is Max <==> trailer % 256 == 255
        },
        kind matches Err(error) ==> error.raw == trailer % 256,
{
    InternalKeyKind::try_from((trailer % 256) as u8)
}

/// The kind byte in a trailer.
pub fn extract_op_raw(trailer: u64) -> (op: u8)
    ensures
        op == trailer % 256,
{
    (trailer % 256) as u8
}

/// An internal key, taken apart.
#[derive(Debug, PartialEq, Eq, Clone, Copy)]
pub struct InternalKeyRef<'a> {
    pub user_key: &'a [u8],
    pub seq_no: u64,
    pub op: u8,
}

/// A key in words, given its user key as text.
pub open spec fn key_text(user_key: Seq<char>, seq_no: u64, op: u8) -> Seq<char> {
    user_key + "-"@ + text::decimal(seq_no as nat) + "-"@ + (match key_kind(op) {
        Ok(kind) => key_kind_name(kind),
        Err(error) => "Invalid("@ + text::decimal(error.raw as nat) + ")"@,
    })
}

impl<'a> InternalKeyRef<'a> {
    /// Takes a key apart.
    pub fn from(key: &'a [u8]) -> (decoded: Self)
        requires
            key@.len() >= 8,
        ensures
            decoded.user_key@ == key@.take(key@.len() - 8),
            decoded.seq_no == utils::be_value(key@.skip(key@.len() - 8)) / 256,
            decoded.op == utils::be_value(key@.skip(key@.len() - 8)) % 256,
            decoded.user_key@ == key@.subrange(0, key@.len() - 8),
            decoded.op == key@[key@.len() - 1],
            ({
                let at = key@.len() - 8;
                decoded.seq_no == key@[at + 6] + 0x100 * key@[at + 5] + 0x1_0000 * key@[at + 4]
                    + 0x100_0000 * key@[at + 3] + 0x1_0000_0000 * key@[at + 2] + 0x100_0000_0000
                    * key@[at + 1] + 0x1_0000_0000_0000 * key@[at]
            }),
    {
        let at = key.len() - 8;
        let user_key = vstd::slice::slice_subrange(key, 0, at);
        let trailer_bytes = vstd::slice::slice_subrange(key, at, key.len());
        proof {
            assert(key@.subrange(at as int, key@.len() as int) =~= key@.skip(at as int));
            assert(trailer_bytes@.take(8) =~= trailer_bytes@);
        }
        let (seq_no, op) = unpack_trailer_raw(utils::read_u64_be(trailer_bytes));
        InternalKeyRef { user_key, seq_no, op }
    }

    /// The key in words: the user key as text, the sequence number and the kind.
    pub fn to_string(&self) -> (words: String)
        ensures
            words@ == key_text(text::utf8_lossy(self.user_key@), self.seq_no, self.op),
            vstd::utf8::valid_utf8(self.user_key@) ==> words@ == key_text(
                vstd::utf8::decode_utf8(self.user_key@),
                self.seq_no,
                self.op,
            ),
    {
        describe_key(text::from_utf8_lossy(self.user_key), self.seq_no, self.op)
    }
}

/// A key in words, given its user key as text.
pub fn describe_key(user_key: String, seq_no: u64, op: u8) -> (words: String)
    ensures
        words@ == key_text(user_key@, seq_no, op),
        op == 1 ==> words@ == user_key@ + "-"@ + text::decimal(seq_no as nat) + "-"@ + "Put"@,
        op == 2 ==> words@ == user_key@ + "-"@ + text::decimal(seq_no as nat) + "-"@ + "Delete"@,
        op == 3 ==> words@ == user_key@ + "-"@ + text::decimal(seq_no as nat) + "-"@ + "Merge"@,
        op == 255 ==> words@ == user_key@ + "-"@ + text::decimal(seq_no as nat) + "-"@ + "Max"@,
        op == 0 || 4 <= op < 255 ==> words@ == user_key@ + "-"@ + text::decimal(seq_no as nat)
            + "-"@ + ("Invalid("@ + text::decimal(op as nat) + ")"@),
{
    let mut words = user_key;
    words.append("-");
    text::append_decimal(&mut words, seq_no);
    words.append("-");
    match InternalKeyKind::try_from(op) {
        Ok(kind) => {
            words.append(kind.to_string().as_str());
        },
        Err(error) => {
            let ghost before = words@;
            words.append("Invalid(");
            text::append_decimal(&mut words, error.raw() as u64);
            words.append(")");
            proof {
                assert(words@ =~= before + ("Invalid("@ + text::decimal(error.raw as nat) + ")"@));
            }
        },
    }
    words
}

/// A trailer holds its sequence number and its kind.
pub proof fn law_trailer_round_trip(seq_no: u64, op: InternalKeyKind)
    ensures
        trailer(seq_no as nat, op) / 256 == seq_no,
        key_kind((trailer(seq_no as nat, op) % 256) as u8) == Ok::<
            InternalKeyKind,
            InvalidInternalKeyKind,
        >(op),
{
}

/// Trailers compare by their bytes as by sequence number first and kind second.
pub proof fn law_trailer_order(
    seq_a: u64,
    op_a: InternalKeyKind,
    seq_b: u64,
    op_b: InternalKeyKind,
)
    requires
        seq_a < 0x100_0000_0000_0000,
        seq_b < 0x100_0000_0000_0000,
    ensures
        utils::lex_less(
            utils::be_bytes(trailer(seq_a as nat, op_a), 8),
            utils::be_bytes(trailer(seq_b as nat, op_b), 8),
        ) <==> seq_a < seq_b || (seq_a == seq_b && key_kind_code(op_a) < key_kind_code(op_b)),
{
    let a = trailer(seq_a as nat, op_a);
    let b = trailer(seq_b as nat, op_b);
    utils::lemma_be_bytes_len(a, 8);
    utils::lemma_be_bytes_len(b, 8);
    assert(utils::pow256(8) == 0x1_0000_0000_0000_0000) by {
        reveal_with_fuel(utils::pow256, 9);
    }
    utils::law_be_round_trip(a, 8);
    utils::law_be_round_trip(b, 8);
    utils::law_big_endian_order(utils::be_bytes(a, 8), utils::be_bytes(b, 8));
}

/// Taking apart a user key followed by a trailer gives back the user key, the
/// sequence number and the kind.
pub proof fn law_internal_key_round_trip(user_key: Seq<u8>, seq_no: u64, op: InternalKeyKind)
    requires
        seq_no < 0x100_0000_0000_0000,
    ensures
        ({
            let key = user_key + utils::be_bytes(trailer(seq_no as nat, op), 8);
            &&& key.len() == user_key.len() + 8
            &&& key.take(key.len() - 8) == user_key
            &&& utils::be_value(key.skip(key.len() - 8)) / 256 == seq_no
            &&& utils::be_value(key.skip(key.len() - 8)) % 256 == key_kind_code(op)
        }),
{
    let packed = trailer(seq_no as nat, op);
    let bytes = utils::be_bytes(packed, 8);
    let key = user_key + bytes;
    utils::lemma_be_bytes_len(packed, 8);
    assert(key.take(key.len() - 8) =~= user_key);
    assert(key.skip(key.len() - 8) =~= bytes);
    assert(utils::pow256(8) == 0x1_0000_0000_0000_0000) by {
        reveal_with_fuel(utils::pow256, 9);
    }
    utils::law_be_round_trip(packed, 8);
}

/// The bytes that stand for the kinds are 1, 2, 3 and 255, the last for a kind that is
/// above the others; a byte stands for a kind exactly where that kind is written as
/// the byte, and any other byte is given back as an error.
pub proof fn law_key_kind_bytes(raw: u8, kind: InternalKeyKind)
    ensures
        key_kind(raw) == Ok::<InternalKeyKind, InvalidInternalKeyKind>(kind) <==> key_kind_code(
            kind,
        ) == raw,
        key_kind(raw) is Ok <==> raw == 1 || raw == 2 || raw == 3 || raw == 255,
        key_kind(raw) matches Err(error) ==> error.raw == raw,
        key_kind_code(InternalKeyKind::Put) == 1,
        key_kind_code(InternalKeyKind::Delete) == 2,
        key_kind_code(InternalKeyKind::Merge) == 3,
        kind != InternalKeyKind::Max ==> key_kind_code(kind) < key_kind_code(InternalKeyKind::Max),
{
}

/// A batch's operation on one key and the key that it leaves have the same kind byte; a
/// deletion of a range leaves no such key.
pub proof fn law_record_kind_is_key_kind(kind: BatchRecordKind)
    ensures
        kind is RangeDel <==> key_kind_of_record(kind) is Err,
        key_kind_of_record(kind) matches Err(same) ==> same == kind,
        key_kind_of_record(kind) matches Ok(key) ==> key_kind_code(key)
            == crate::db::record::kind_code(kind),
{
}

} // verus!
