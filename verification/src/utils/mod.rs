//! Byte-order helpers shared by the encoders, and the small utility types.

pub mod cache_padded;
pub mod radix;
pub mod tagged_pointer;
pub mod text;
pub mod var_int;

use vstd::prelude::*;

verus! {

/// The number that `bytes` spell with the least significant byte first.
pub open spec fn le_value(bytes: Seq<u8>) -> nat
    decreases bytes.len(),
{
    if bytes.len() == 0 {
        0
    } else {
        bytes[0] as nat + 256 * le_value(bytes.drop_first())
    }
}

/// The `width` low bytes of `value`, least significant byte first.
pub open spec fn le_bytes(value: nat, width: nat) -> Seq<u8>
    decreases width,
{
    if width == 0 {
        Seq::empty()
    } else {
        seq![(value % 256) as u8] + le_bytes(value / 256, (width - 1) as nat)
    }
}

/// The number that `bytes` spell with the most significant byte first.
pub open spec fn be_value(bytes: Seq<u8>) -> nat
    decreases bytes.len(),
{
    if bytes.len() == 0 {
        0
    } else {
        be_value(bytes.drop_last()) * 256 + bytes.last() as nat
    }
}

/// The `width` low bytes of `value`, most significant byte first.
pub open spec fn be_bytes(value: nat, width: nat) -> Seq<u8>
    decreases width,
{
    if width == 0 {
        Seq::empty()
    } else {
        be_bytes(value / 256, (width - 1) as nat).push((value % 256) as u8)
    }
}

/// `256` to the power of `n`.
pub open spec fn pow256(n: nat) -> nat
    decreases n,
{
    if n == 0 {
        1
    } else {
        256 * pow256((n - 1) as nat)
    }
}

/// `bytes` with the bytes from `at` on replaced by `patch`.
pub open spec fn overwrite(bytes: Seq<u8>, at: int, patch: Seq<u8>) -> Seq<u8> {
    bytes.take(at) + patch + bytes.skip(at + patch.len())
}

/// A sequence of `n` zero bytes.
pub open spec fn zeros(n: nat) -> Seq<u8> {
    Seq::new(n, |i: int| 0u8)
}

/// Byte-wise lexicographic order on sequences.
pub open spec fn lex_less(a: Seq<u8>, b: Seq<u8>) -> bool
    decreases a.len(),
{
    if b.len() == 0 {
        false
    } else if a.len() == 0 {
        true
    } else if a[0] != b[0] {
        a[0] < b[0]
    } else {
        lex_less(a.drop_first(), b.drop_first())
    }
}

/// Little-endian encoding has the requested width.
pub proof fn lemma_le_bytes_len(value: nat, width: nat)
    ensures
        le_bytes(value, width).len() == width,
    decreases width,
{
    if width > 0 {
        lemma_le_bytes_len(value / 256, (width - 1) as nat);
    }
}

/// Big-endian encoding has the requested width.
pub proof fn lemma_be_bytes_len(value: nat, width: nat)
    ensures
        be_bytes(value, width).len() == width,
    decreases width,
{
    if width > 0 {
        lemma_be_bytes_len(value / 256, (width - 1) as nat);
    }
}

/// A number survives being written and read back with the least significant
/// byte first, whenever it fits in the width.
pub proof fn law_le_round_trip(value: nat, width: nat)
    requires
        value < pow256(width),
    ensures
        le_value(le_bytes(value, width)) == value,
    decreases width,
{
    if width > 0 {
        let rest = le_bytes(value / 256, (width - 1) as nat);
        assert(value / 256 < pow256((width - 1) as nat)) by (nonlinear_arith)
            requires
                value < 256 * pow256((width - 1) as nat),
        ;
        law_le_round_trip(value / 256, (width - 1) as nat);
        assert(le_bytes(value, width).drop_first() =~= rest);
    }
}

/// A number survives being written and read back with the most significant
/// byte first, whenever it fits in the width.
pub proof fn law_be_round_trip(value: nat, width: nat)
    requires
        value < pow256(width),
    ensures
        be_value(be_bytes(value, width)) == value,
    decreases width,
{
    if width > 0 {
        let rest = be_bytes(value / 256, (width - 1) as nat);
        assert(value / 256 < pow256((width - 1) as nat)) by (nonlinear_arith)
            requires
                value < 256 * pow256((width - 1) as nat),
        ;
        law_be_round_trip(value / 256, (width - 1) as nat);
        assert(be_bytes(value, width).drop_last() =~= rest);
    }
}

/// `be_value` splits off the first byte.
proof fn lemma_be_value_first(bytes: Seq<u8>)
    requires
        bytes.len() > 0,
    ensures
        be_value(bytes) == bytes[0] as nat * pow256((bytes.len() - 1) as nat) + be_value(
            bytes.drop_first(),
        ),
        be_value(bytes.drop_first()) < pow256((bytes.len() - 1) as nat),
    decreases bytes.len(),
{
    let n = (bytes.len() - 1) as nat;
    if n == 0 {
        assert(bytes.drop_last() =~= Seq::<u8>::empty());
        assert(bytes.drop_first() =~= Seq::<u8>::empty());
        assert(bytes[0] as nat * 1 == bytes[0] as nat) by (nonlinear_arith);
    } else {
        lemma_be_value_first(bytes.drop_last());
        let p = pow256((n - 1) as nat);
        let tail = be_value(bytes.drop_last().drop_first());
        assert(bytes.drop_last().drop_first() =~= bytes.drop_first().drop_last());
        assert((bytes[0] as nat * p + tail) * 256 == bytes[0] as nat * (256 * p) + tail * 256)
            by (nonlinear_arith);
        assert(pow256(n) == 256 * p);
        assert(be_value(bytes) == (bytes[0] as nat * p + tail) * 256 + bytes.last() as nat);
        assert(be_value(bytes.drop_first()) == tail * 256 + bytes.last() as nat);
    }
}

/// On encodings of one width, byte-wise order of the big-endian bytes is the
/// numeric order of what they spell.
pub proof fn law_big_endian_order(a: Seq<u8>, b: Seq<u8>)
    requires
        a.len() == b.len(),
    ensures
        lex_less(a, b) <==> be_value(a) < be_value(b),
    decreases a.len(),
{
    if a.len() > 0 {
        lemma_be_value_first(a);
        lemma_be_value_first(b);
        let p = pow256((a.len() - 1) as nat);
        let x = a[0] as nat;
        let y = b[0] as nat;
        if x == y {
            law_big_endian_order(a.drop_first(), b.drop_first());
        } else if x < y {
            assert((x + 1) * p <= y * p) by (nonlinear_arith)
                requires
                    x < y,
            ;
            assert((x + 1) * p == x * p + p) by (nonlinear_arith);
        } else {
            assert((y + 1) * p <= x * p) by (nonlinear_arith)
                requires
                    y < x,
            ;
            assert((y + 1) * p == y * p + p) by (nonlinear_arith);
        }
    }
}

/// Reads two bytes, least significant first.
pub fn read_u16_le(bytes: &[u8]) -> (value: u16)
    requires
        bytes@.len() >= 2,
    ensures
        value == le_value(bytes@.take(2)),
        value == bytes@[0] + 0x100 * bytes@[1],
{
    proof {
        reveal_with_fuel(le_value, 3);
    }
    bytes[0] as u16 + 256 * (bytes[1] as u16)
}

/// Reads four bytes, least significant first.
pub fn read_u32_le(bytes: &[u8]) -> (value: u32)
    requires
        bytes@.len() >= 4,
    ensures
        value == le_value(bytes@.take(4)),
        value == bytes@[0] + 0x100 * bytes@[1] + 0x1_0000 * bytes@[2] + 0x100_0000 * bytes@[3],
{
    proof {
        reveal_with_fuel(le_value, 5);
    }
    bytes[0] as u32 + 0x100 * (bytes[1] as u32) + 0x1_0000 * (bytes[2] as u32) + 0x100_0000 * (
    bytes[3] as u32)
}

/// Reads eight bytes, least significant first.
pub fn read_u64_le(bytes: &[u8]) -> (value: u64)
    requires
        bytes@.len() >= 8,
    ensures
        value == le_value(bytes@.take(8)),
        value == bytes@[0] + 0x100 * bytes@[1] + 0x1_0000 * bytes@[2] + 0x100_0000 * bytes@[3] + 0x1_0000_0000 * bytes@[4] + 0x100_0000_0000 * bytes@[5] + 0x1_0000_0000_0000 * bytes@[6] + 0x100_0000_0000_0000 * bytes@[7],
{
    proof {
        reveal_with_fuel(le_value, 9);
    }
    bytes[0] as u64 + 0x100 * (bytes[1] as u64) + 0x1_0000 * (bytes[2] as u64) + 0x100_0000 * (
    bytes[3] as u64) + 0x1_0000_0000 * (bytes[4] as u64) + 0x100_0000_0000 * (bytes[5] as u64)
        + 0x1_0000_0000_0000 * (bytes[6] as u64) + 0x100_0000_0000_0000 * (bytes[7] as u64)
}

/// Reads four bytes, most significant first.
pub fn read_u32_be(bytes: &[u8]) -> (value: u32)
    requires
        bytes@.len() >= 4,
    ensures
        value == be_value(bytes@.take(4)),
        value == bytes@[3] + 0x100 * bytes@[2] + 0x1_0000 * bytes@[1] + 0x100_0000 * bytes@[0],
{
    proof {
        reveal_with_fuel(be_value, 5);
    }
    bytes[3] as u32 + 0x100 * (bytes[2] as u32) + 0x1_0000 * (bytes[1] as u32) + 0x100_0000 * (
    bytes[0] as u32)
}

/// Reads eight bytes, most significant first.
pub fn read_u64_be(bytes: &[u8]) -> (value: u64)
    requires
        bytes@.len() >= 8,
    ensures
        value == be_value(bytes@.take(8)),
        value == bytes@[7] + 0x100 * bytes@[6] + 0x1_0000 * bytes@[5] + 0x100_0000 * bytes@[4] + 0x1_0000_0000 * bytes@[3] + 0x100_0000_0000 * bytes@[2] + 0x1_0000_0000_0000 * bytes@[1] + 0x100_0000_0000_0000 * bytes@[0],
{
    proof {
        reveal_with_fuel(be_value, 9);
    }
    bytes[7] as u64 + 0x100 * (bytes[6] as u64) + 0x1_0000 * (bytes[5] as u64) + 0x100_0000 * (
    bytes[4] as u64) + 0x1_0000_0000 * (bytes[3] as u64) + 0x100_0000_0000 * (bytes[2] as u64)
        + 0x1_0000_0000_0000 * (bytes[1] as u64) + 0x100_0000_0000_0000 * (bytes[0] as u64)
}

/// The two bytes of `value`, least significant first.
pub fn u16_le_bytes(value: u16) -> (bytes: [u8; 2])
    ensures
        bytes@ == le_bytes(value as nat, 2),
        bytes@[0] == value % 256,
        bytes@[1] == value / 256 % 256,
{
    let bytes = [(value % 256) as u8, (value / 256) as u8];
    proof {
        reveal_with_fuel(le_bytes, 3);
        assert(bytes@ =~= le_bytes(value as nat, 2));
    }
    bytes
}

/// The four bytes of `value`, least significant first.
pub fn u32_le_bytes(value: u32) -> (bytes: [u8; 4])
    ensures
        bytes@ == le_bytes(value as nat, 4),
        bytes@[0] == value % 256,
        bytes@[1] == value / 256 % 256,
        bytes@[2] == value / 256 / 256 % 256,
        bytes@[3] == value / 256 / 256 / 256 % 256,
{
    let bytes = [
        (value % 256) as u8,
        (value / 256 % 256) as u8,
        (value / 256 / 256 % 256) as u8,
        (value / 256 / 256 / 256) as u8,
    ];
    proof {
        reveal_with_fuel(le_bytes, 5);
        assert(bytes@ =~= le_bytes(value as nat, 4));
    }
    bytes
}

/// The eight bytes of `value`, least significant first.
pub fn u64_le_bytes(value: u64) -> (bytes: [u8; 8])
    ensures
        bytes@ == le_bytes(value as nat, 8),
        bytes@[0] == value % 256,
        bytes@[1] == value / 256 % 256,
        bytes@[2] == value / 256 / 256 % 256,
        bytes@[3] == value / 256 / 256 / 256 % 256,
        bytes@[4] == value / 256 / 256 / 256 / 256 % 256,
        bytes@[5] == value / 256 / 256 / 256 / 256 / 256 % 256,
        bytes@[6] == value / 256 / 256 / 256 / 256 / 256 / 256 % 256,
        bytes@[7] == value / 256 / 256 / 256 / 256 / 256 / 256 / 256 % 256,
{
    let bytes = [
        (value % 256) as u8,
        (value / 256 % 256) as u8,
        (value / 256 / 256 % 256) as u8,
        (value / 256 / 256 / 256 % 256) as u8,
        (value / 256 / 256 / 256 / 256 % 256) as u8,
        (value / 256 / 256 / 256 / 256 / 256 % 256) as u8,
        (value / 256 / 256 / 256 / 256 / 256 / 256 % 256) as u8,
        (value / 256 / 256 / 256 / 256 / 256 / 256 / 256) as u8,
    ];
    proof {
        reveal_with_fuel(le_bytes, 9);
        assert(bytes@ =~= le_bytes(value as nat, 8));
    }
    bytes
}

/// The four bytes of `value`, most significant first.
pub fn u32_be_bytes(value: u32) -> (bytes: [u8; 4])
    ensures
        bytes@ == be_bytes(value as nat, 4),
        bytes@[3] == value % 256,
        bytes@[2] == value / 256 % 256,
        bytes@[1] == value / 256 / 256 % 256,
        bytes@[0] == value / 256 / 256 / 256 % 256,
{
    let bytes = [
        (value / 256 / 256 / 256) as u8,
        (value / 256 / 256 % 256) as u8,
        (value / 256 % 256) as u8,
        (value % 256) as u8,
    ];
    proof {
        reveal_with_fuel(be_bytes, 5);
        assert(bytes@ =~= be_bytes(value as nat, 4));
    }
    bytes
}

/// The eight bytes of `value`, most significant first.
pub fn u64_be_bytes(value: u64) -> (bytes: [u8; 8])
    ensures
        bytes@ == be_bytes(value as nat, 8),
        bytes@[7] == value % 256,
        bytes@[6] == value / 256 % 256,
        bytes@[5] == value / 256 / 256 % 256,
        bytes@[4] == value / 256 / 256 / 256 % 256,
        bytes@[3] == value / 256 / 256 / 256 / 256 % 256,
        bytes@[2] == value / 256 / 256 / 256 / 256 / 256 % 256,
        bytes@[1] == value / 256 / 256 / 256 / 256 / 256 / 256 % 256,
        bytes@[0] == value / 256 / 256 / 256 / 256 / 256 / 256 / 256 % 256,
{
    let bytes = [
        (value / 256 / 256 / 256 / 256 / 256 / 256 / 256) as u8,
        (value / 256 / 256 / 256 / 256 / 256 / 256 % 256) as u8,
        (value / 256 / 256 / 256 / 256 / 256 % 256) as u8,
        (value / 256 / 256 / 256 / 256 % 256) as u8,
        (value / 256 / 256 / 256 % 256) as u8,
        (value / 256 / 256 % 256) as u8,
        (value / 256 % 256) as u8,
        (value % 256) as u8,
    ];
    proof {
        reveal_with_fuel(be_bytes, 9);
        assert(bytes@ =~= be_bytes(value as nat, 8));
    }
    bytes
}

/// Copies `source` over the bytes of `target` that start at `at`.
pub fn copy_at(target: &mut Vec<u8>, at: usize, source: &[u8])
    requires
        at + source@.len() <= old(target)@.len(),
    ensures
        final(target)@ == overwrite(old(target)@, at as int, source@),
{
    let ghost before = target@;
    let limit: usize = target.len();
    let mut i: usize = 0;
    while i < source.len()
        invariant
            i <= source@.len(),
            at + source@.len() <= limit == before.len(),
            target@ == overwrite(before, at as int, source@.take(i as int)),
        decreases source@.len() - i,
    {
        target.set(at + i, source[i]);
        i = i + 1;
        proof {
            assert(target@ =~= overwrite(before, at as int, source@.take(i as int)));
        }
    }
    proof {
        assert(source@.take(i as int) =~= source@);
    }
}

/// Writes `value` over the two bytes at `at`, least significant first.
pub fn write_u16_le(target: &mut Vec<u8>, at: usize, value: u16)
    requires
        at + 2 <= old(target)@.len(),
    ensures
        final(target)@ == overwrite(old(target)@, at as int, le_bytes(value as nat, 2)),
{
    let bytes = u16_le_bytes(value);
    copy_at(target, at, &bytes);
}

/// Writes `value` over the four bytes at `at`, least significant first.
pub fn write_u32_le(target: &mut Vec<u8>, at: usize, value: u32)
    requires
        at + 4 <= old(target)@.len(),
    ensures
        final(target)@ == overwrite(old(target)@, at as int, le_bytes(value as nat, 4)),
{
    let bytes = u32_le_bytes(value);
    copy_at(target, at, &bytes);
}

/// Writes `value` over the eight bytes at `at`, least significant first.
pub fn write_u64_le(target: &mut Vec<u8>, at: usize, value: u64)
    requires
        at + 8 <= old(target)@.len(),
    ensures
        final(target)@ == overwrite(old(target)@, at as int, le_bytes(value as nat, 8)),
{
    let bytes = u64_le_bytes(value);
    copy_at(target, at, &bytes);
}

/// Writes `value` over the four bytes at `at`, most significant first.
pub fn write_u32_be(target: &mut Vec<u8>, at: usize, value: u32)
    requires
        at + 4 <= old(target)@.len(),
    ensures
        final(target)@ == overwrite(old(target)@, at as int, be_bytes(value as nat, 4)),
{
    let bytes = u32_be_bytes(value);
    copy_at(target, at, &bytes);
}

/// With the least significant byte first, the byte at `i` is the digit of the number
/// to the base of 256 that counts powers of 256.
pub proof fn law_le_digits(value: nat, width: nat, i: nat)
    requires
        i < width,
    ensures
        le_bytes(value, width).len() == width,
        le_bytes(value, width)[i as int] == value as int / vstd::arithmetic::power::pow(256, i)
            % 256,
    decreases width,
{
    reveal(vstd::arithmetic::power::pow);
    lemma_le_bytes_len(value, width);
    let rest = le_bytes(value / 256, (width - 1) as nat);
    if i > 0 {
        law_le_digits(value / 256, (width - 1) as nat, (i - 1) as nat);
        let p = vstd::arithmetic::power::pow(256, (i - 1) as nat);
        vstd::arithmetic::power::lemma_pow_positive(256, (i - 1) as nat);
        vstd::arithmetic::div_mod::lemma_div_denominator(value as int, 256, p);
        assert(le_bytes(value, width)[i as int] == rest[i - 1]);
    } else {
        assert(value as int / 1 == value);
    }
}

/// The most significant byte first is the least significant byte first, read from
/// the end.
pub proof fn law_be_is_le_reversed(value: nat, width: nat)
    ensures
        be_bytes(value, width) == le_bytes(value, width).reverse(),
    decreases width,
{
    if width > 0 {
        law_be_is_le_reversed(value / 256, (width - 1) as nat);
        lemma_le_bytes_len(value, width);
        lemma_be_bytes_len(value, width);
        assert(be_bytes(value, width) =~= le_bytes(value, width).reverse());
    } else {
        assert(be_bytes(value, width) =~= le_bytes(value, width).reverse());
    }
}

/// One row of bytes is below another where they first differ, or where it ends first.
pub proof fn law_lex_order(a: Seq<u8>, b: Seq<u8>)
    ensures
        lex_less(a, b) <==> exists|i: int|
            #![trigger a.take(i)]
            {
                &&& 0 <= i <= a.len()
                &&& i < b.len()
                &&& a.take(i) == b.take(i)
                &&& i == a.len() || a[i] < b[i]
            },
    decreases a.len(),
{
    if b.len() == 0 {
    } else if a.len() == 0 {
        assert(a.take(0) =~= b.take(0));
    } else if a[0] != b[0] {
        assert(a.take(0) =~= b.take(0));
        assert forall|i: int| 0 < i <= a.len() && i < b.len() implies a.take(i) != b.take(i) by {
            assert(a.take(i)[0] != b.take(i)[0]);
        }
    } else {
        let c = a.drop_first();
        let d = b.drop_first();
        law_lex_order(c, d);
        if lex_less(a, b) {
            let i = choose|i: int|
                #![trigger c.take(i)]
                {
                    &&& 0 <= i <= c.len()
                    &&& i < d.len()
                    &&& c.take(i) == d.take(i)
                    &&& i == c.len() || c[i] < d[i]
                };
            assert(a.take(i + 1) =~= seq![a[0]] + c.take(i));
            assert(b.take(i + 1) =~= seq![b[0]] + d.take(i));
        }
        if exists|i: int|
            #![trigger a.take(i)]
            {
                &&& 0 <= i <= a.len()
                &&& i < b.len()
                &&& a.take(i) == b.take(i)
                &&& i == a.len() || a[i] < b[i]
            } {
            let i = choose|i: int|
                #![trigger a.take(i)]
                {
                    &&& 0 <= i <= a.len()
                    &&& i < b.len()
                    &&& a.take(i) == b.take(i)
                    &&& i == a.len() || a[i] < b[i]
                };
            assert(i > 0);
            assert(c.take(i - 1) =~= a.take(i).drop_first());
            assert(d.take(i - 1) =~= b.take(i).drop_first());
        }
    }
}

/// Overwriting replaces the bytes from `at` on, as many as there are in `patch`, and
/// no others.
pub proof fn law_overwrite(bytes: Seq<u8>, at: int, patch: Seq<u8>, i: int)
    requires
        0 <= at,
        at + patch.len() <= bytes.len(),
        0 <= i < bytes.len(),
    ensures
        overwrite(bytes, at, patch).len() == bytes.len(),
        at <= i < at + patch.len() ==> overwrite(bytes, at, patch)[i] == patch[i - at],
        i < at || at + patch.len() <= i ==> overwrite(bytes, at, patch)[i] == bytes[i],
        zeros(bytes.len()).len() == bytes.len(),
        zeros(bytes.len())[i] == 0,
{
}

} // verus!
