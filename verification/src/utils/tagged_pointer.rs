//! Addresses that carry a tag in bits which are zero anyway.
//!
//! An address of a value is a multiple of the value's alignment, so its low bits
//! are zero, and as many of them as the alignment leaves can hold a tag.

use std::marker::PhantomData;
use vstd::prelude::*;

verus! {

/// How many bits a tag can have, by the alignment in bits.
#[allow(non_camel_case_types)]
#[derive(Debug, Clone, Copy, PartialEq, Eq, Structural)]
pub enum TAGGABLE_BITS {
    TAG_16,
    TAG_32,
    TAG_64,
    TAG_128,
}

/// How many low bits of an address are zero when the alignment is `align`.
pub open spec fn tag_bits(align: nat) -> u32 {
    if align == 2 {
        1
    } else if align == 4 {
        2
    } else if align == 8 {
        3
    } else if align == 16 {
        4
    } else {
        0
    }
}

/// A type with `bits` bits for a tag, aligned to `align`, has room for a tag of
/// `required` bits.
pub open spec fn tag_fits(bits: u32, align: nat, required: u32) -> bool {
    &&& 1 <= bits <= 4
    &&& tag_bits(align) == bits
    &&& 0 < required <= bits
}

impl TAGGABLE_BITS {
    /// Whether a tag can have so many bits.
    pub fn is_taggable(tagging: u32) -> (taggable: bool)
        ensures
            taggable == (1 <= tagging <= 4),
    {
        match tagging {
            1 => true,
            2 => true,
            3 => true,
            4 => true,
            _ => false,
        }
    }

    /// How many bits a tag can have at an address of a `T`.
    pub fn from_alignment<T>() -> (bits: u32)
        requires
            tag_bits(vstd::layout::align_of::<T>()) > 0,
        ensures
            bits == tag_bits(vstd::layout::align_of::<T>()),
    {
        Self::of_alignment(core::mem::align_of::<T>())
    }

    /// How many bits a tag can have at a multiple of `align`: none, where the
    /// alignment is not one that is used.
    pub fn of_alignment(align: usize) -> (bits: u32)
        ensures
            bits == tag_bits(align as nat),
            align == 2 <==> bits == 1,
            align == 4 <==> bits == 2,
            align == 8 <==> bits == 3,
            align == 16 <==> bits == 4,
            bits <= 4,
    {
        match align {
            2 => 1,
            4 => 2,
            8 => 3,
            16 => 4,
            _ => 0,
        }
    }
}

/// A type whose addresses can carry a tag.
pub trait Taggable: Sized {
    /// How many bits a tag can have.
    fn tag_bits() -> u32;
}

/// How many bits a tag can have at an address of a `T`.
pub fn available_bits<T: Taggable>(object: &T) -> (bits: usize)
    ensures
        call_ensures(T::tag_bits, (), bits as u32),
        bits <= u32::MAX,
{
    T::tag_bits() as usize
}

/// Whether an address of a `T` has room for a tag of `REQUIRED_BITS` bits, and
/// `T` says truly how many it has room for.
pub fn verify<T: Taggable, const REQUIRED_BITS: u32>() -> (fits: bool)
    ensures
        exists|bits: u32|
            #[trigger] call_ensures(T::tag_bits, (), bits) && fits == tag_fits(
                bits,
                vstd::layout::align_of::<T>(),
                REQUIRED_BITS,
            ),
{
    let bits: u32 = T::tag_bits();
    let aligned = TAGGABLE_BITS::of_alignment(core::mem::align_of::<T>());
    TAGGABLE_BITS::is_taggable(bits) && aligned == bits && REQUIRED_BITS > 0 && bits
        >= REQUIRED_BITS
}

/// An address of a `T`, with room for a tag of `TAG_BITS` bits.
#[derive(Debug)]
pub struct TaggedPointer<T, const TAG_BITS: u32> {
    pub ptr: usize,
    pub object: PhantomData<T>,
}

impl<T: Taggable, const TAG_BITS: u32> TaggedPointer<T, TAG_BITS> {
    /// The address, where `T` has room for the tag.
    pub fn new(address: usize) -> (pointer: Option<Self>)
        ensures
            exists|bits: u32|
                #[trigger] call_ensures(T::tag_bits, (), bits) && match pointer {
                    Some(pointer) => tag_fits(bits, vstd::layout::align_of::<T>(), TAG_BITS)
                        && pointer.ptr == address,
                    None => !tag_fits(bits, vstd::layout::align_of::<T>(), TAG_BITS),
                },
    {
        if verify::<T, TAG_BITS>() {
            Some(TaggedPointer { ptr: address, object: PhantomData })
        } else {
            None
        }
    }
}

pub type TaggedPointer1Bit<T> = TaggedPointer<T, 1>;

pub type TaggedPointer2Bits<T> = TaggedPointer<T, 2>;

pub type TaggedPointer3Bits<T> = TaggedPointer<T, 3>;

pub type TaggedPointer4Bits<T> = TaggedPointer<T, 4>;

/// A tag has room in the low bits that the alignment leaves zero: with `bits` of them
/// the alignment is that power of two, so every multiple of it has them free.
pub proof fn law_tag_fits_the_alignment(bits: u32, align: nat, required: u32)
    ensures
        tag_fits(bits, align, required) <==> {
            &&& 0 < required <= bits <= 4
            &&& align == vstd::arithmetic::power2::pow2(bits as nat)
        },
{
    vstd::arithmetic::power2::lemma2_to64();
}

} // verus!
