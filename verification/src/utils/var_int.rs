//! Variable-length encoding of `u32`: seven payload bits per byte, least
//! significant group first, the top bit set on every byte but the last.

use vstd::prelude::*;

verus! {

/// The encoding of `value`.
pub open spec fn varint_bytes(value: nat) -> Seq<u8>
    decreases value,
{
    if value < 128 {
        seq![value as u8]
    } else {
        seq![(value % 128 + 128) as u8] + varint_bytes(value / 128)
    }
}

/// What `bytes` decode to: the number, and how many bytes were read. Reading
/// ends after the first byte below 128, or at the end of `bytes`.
pub open spec fn varint_value(bytes: Seq<u8>) -> (nat, nat)
    decreases bytes.len(),
{
    if bytes.len() == 0 {
        (0, 0)
    } else if bytes[0] < 128 {
        (bytes[0] as nat, 1)
    } else {
        let (high, read) = varint_value(bytes.drop_first());
        ((bytes[0] - 128) as nat + 128 * high, read + 1)
    }
}

/// Decoding an encoding gives the number back and reads exactly the encoding,
/// whatever bytes follow it.
pub proof fn law_varint_round_trip(value: nat, rest: Seq<u8>)
    ensures
        varint_value(varint_bytes(value) + rest) == (value, varint_bytes(value).len()),
    decreases value,
{
    let bytes = varint_bytes(value) + rest;
    if value >= 128 {
        law_varint_round_trip(value / 128, rest);
        assert(bytes.drop_first() =~= varint_bytes(value / 128) + rest);
    }
}

/// No byte more than five is needed for a `u32`, and the encoding of a larger
/// number is never shorter.
pub proof fn law_varint_size(value: nat)
    ensures
        1 <= varint_bytes(value).len(),
        value < 0x80 <==> varint_bytes(value).len() == 1,
        0x80 <= value < 0x4000 <==> varint_bytes(value).len() == 2,
        0x4000 <= value < 0x20_0000 <==> varint_bytes(value).len() == 3,
        0x20_0000 <= value < 0x1000_0000 <==> varint_bytes(value).len() == 4,
        0x1000_0000 <= value < 0x8_0000_0000 <==> varint_bytes(value).len() == 5,
{
    reveal_with_fuel(varint_bytes, 7);
    if value >= 0x8_0000_0000 {
        assert(varint_bytes(value / 128 / 128 / 128 / 128 / 128).len() >= 1);
    }
}

/// Each byte of an encoding holds seven bits of the number in its low bits, the
/// lowest of them first, and its top bit says whether another byte follows.
pub proof fn law_varint_layout(value: nat, i: nat)
    requires
        i < varint_bytes(value).len(),
    ensures
        varint_bytes(value)[i as int] as int % 128 == value as int
            / vstd::arithmetic::power::pow(128, i) % 128,
        varint_bytes(value)[i as int] >= 128 <==> i + 1 < varint_bytes(value).len(),
    decreases value,
{
    reveal(vstd::arithmetic::power::pow);
    if value < 128 {
        assert(value as int / 1 == value);
    } else {
        let rest = varint_bytes(value / 128);
        law_varint_size(value / 128);
        if i > 0 {
            law_varint_layout(value / 128, (i - 1) as nat);
            let p = vstd::arithmetic::power::pow(128, (i - 1) as nat);
            vstd::arithmetic::power::lemma_pow_positive(128, (i - 1) as nat);
            vstd::arithmetic::div_mod::lemma_div_denominator(value as int, 128, p);
            assert(varint_bytes(value)[i as int] == rest[i - 1]);
        } else {
            assert(value as int / 1 == value);
        }
    }
}

/// Reading goes up to the first byte below 128, or to the end. A byte below 128 is
/// the number itself; another one holds the lowest seven bits, and the rest is what
/// the bytes behind it decode to.
pub proof fn law_varint_value(bytes: Seq<u8>)
    ensures
        varint_value(bytes).1 <= bytes.len(),
        bytes.len() > 0 ==> varint_value(bytes).1 > 0,
        forall|i: int| 0 <= i < varint_value(bytes).1 - 1 ==> (#[trigger] bytes[i]) >= 128,
        varint_value(bytes).1 < bytes.len() ==> bytes[varint_value(bytes).1 - 1] < 128,
        bytes.len() == 0 ==> varint_value(bytes).0 == 0,
        bytes.len() > 0 && bytes[0] < 128 ==> varint_value(bytes).0 == bytes[0],
        bytes.len() > 0 && bytes[0] >= 128 ==> varint_value(bytes).0 == bytes[0] - 128 + 128
            * varint_value(bytes.skip(1)).0,
    decreases bytes.len(),
{
    if bytes.len() > 0 && bytes[0] >= 128 {
        let rest = bytes.drop_first();
        law_varint_value(rest);
        assert(rest =~= bytes.skip(1));
        assert forall|i: int| 0 <= i < varint_value(bytes).1 - 1 implies (#[trigger] bytes[i])
            >= 128 by {
            if i > 0 {
                assert(bytes[i] == rest[i - 1]);
            }
        }
    }
}

/// The encoding of one `u32`, held in a fixed buffer.
#[derive(Debug)]
pub struct VarInt {
    pub buf: [u8; 5],
    pub len: u8,
}

impl View for VarInt {
    type V = Seq<u8>;

    open spec fn view(&self) -> Seq<u8> {
        self.buf@.take(self.len as int)
    }
}

impl VarInt {
    /// Most bytes that a `u32` takes.
    pub const MAX_VARINT: usize = 5;

    /// The used prefix fits in the buffer.
    pub open spec fn wf(&self) -> bool {
        1 <= self.len <= 5
    }

    /// Encodes `value`.
    pub fn new(value: u32) -> (encoded: Self)
        ensures
            encoded.wf(),
            encoded@ == varint_bytes(value as nat),
    {
        let mut buf = [0u8; 5];
        let mut v = value;
        let mut i: usize = 0;
        proof {
            law_varint_size(value as nat);
            assert(buf@.take(0) + varint_bytes(v as nat) =~= varint_bytes(value as nat));
        }
        while v > 127
            invariant
                buf@.len() == 5,
                i + varint_bytes(v as nat).len() == varint_bytes(value as nat).len(),
                varint_bytes(value as nat).len() <= 5,
                varint_bytes(v as nat).len() >= 1,
                buf@.take(i as int) + varint_bytes(v as nat) == varint_bytes(value as nat),
            decreases v,
        {
            let ghost before = buf@;
            proof {
                law_varint_size((v / 128) as nat);
            }
            buf[i] = (v % 128 + 128) as u8;
            proof {
                let tail = varint_bytes((v / 128) as nat);
                assert(varint_bytes(v as nat) == seq![(v % 128 + 128) as u8] + tail);
                assert(buf@.take(i + 1) + tail =~= before.take(i as int) + varint_bytes(v as nat));
            }
            v = v / 128;
            i = i + 1;
        }
        let ghost before = buf@;
        buf[i] = v as u8;
        proof {
            assert(buf@.take(i + 1) =~= before.take(i as int) + varint_bytes(v as nat));
        }
        VarInt { buf, len: (i + 1) as u8 }
    }

    /// Decodes the number at the front of `buf` and says how many bytes it
    /// took. Bits above the low 32 are dropped; a buffer that ends inside a
    /// number gives the part that was there.
    pub fn decode(buf: &[u8]) -> (decoded: (u32, usize))
        requires
            varint_value(buf@).1 <= 5,
        ensures
            decoded.0 == varint_value(buf@).0 % 0x1_0000_0000,
            decoded.1 == varint_value(buf@).1,
    {
        let mut result: u64 = 0;
        let mut weight: u64 = 1;
        let mut read: usize = 0;
        let mut open = true;
        proof {
            assert(buf@.skip(0) =~= buf@);
        }
        while open && read < buf.len()
            invariant
                read <= buf@.len(),
                varint_value(buf@).1 <= 5,
                open ==> varint_value(buf@).1 == read + varint_value(buf@.skip(read as int)).1,
                open ==> varint_value(buf@).0 == result + weight * varint_value(
                    buf@.skip(read as int),
                ).0,
                !open ==> varint_value(buf@) == (result as nat, read as nat),
                open ==> (read == 0 && weight == 1 && result < 1) || (read == 1 && weight == 0x80
                    && result < 0x80) || (read == 2 && weight == 0x4000 && result < 0x4000) || (read
                    == 3 && weight == 0x20_0000 && result < 0x20_0000) || (read == 4 && weight
                    == 0x1000_0000 && result < 0x1000_0000) || (read == 5 && weight == 0x8_0000_0000
                    && result < 0x8_0000_0000),
            decreases buf@.len() - read, open as int,
        {
            let byte = buf[read];
            let ghost tail = buf@.skip(read as int);
            let ghost high = varint_value(buf@.skip(read + 1)).0;
            proof {
                assert(tail.drop_first() =~= buf@.skip(read + 1));
                assert(tail[0] == byte);
                assert(read <= 4);
                assert(weight * 128 <= 0x8_0000_0000);
                assert((byte % 128) as int * weight <= 127 * weight) by (nonlinear_arith)
                    requires
                        byte % 128 <= 127,
                        weight >= 0,
                ;
                if byte >= 128 {
                    assert(weight * ((byte - 128) + 128 * high) == (byte % 128) * weight + (weight
                        * 128) * high) by (nonlinear_arith)
                        requires
                            byte % 128 == byte - 128,
                    ;
                } else {
                    assert(weight * byte == (byte % 128) * weight) by (nonlinear_arith)
                        requires
                            byte % 128 == byte,
                    ;
                }
            }
            result = result + (byte % 128) as u64 * weight;
            read = read + 1;
            if byte < 128 {
                open = false;
            } else {
                weight = weight * 128;
            }
        }
        proof {
            if open {
                assert(buf@.skip(read as int) =~= Seq::<u8>::empty());
                assert(weight * 0 == 0) by (nonlinear_arith);
            }
        }
        ((result % 0x1_0000_0000) as u32, read)
    }

    /// Number of bytes in the encoding.
    pub fn size(&self) -> (size: usize)
        requires
            self.wf(),
        ensures
            size == self@.len(),
    {
        self.len as usize
    }

    /// The bytes of the encoding.
    pub fn as_slice(&self) -> (bytes: &[u8])
        requires
            self.wf(),
        ensures
            bytes@ == self@,
    {
        vstd::slice::slice_subrange(&self.buf, 0, self.size())
    }
}

} // verus!
