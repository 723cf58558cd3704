//! The bit vector that keeps the pixels, and what is taken on trust about it.
//!
//! The pixels live in a `bitvec::vec::BitVec<u8, Lsb0>`. Nothing in this file
//! is proved: the contracts restate what the `bitvec` crate does.

use bitvec::order::Lsb0;
use bitvec::vec::BitVec;
use crate::packing::with_bit;
use vstd::prelude::*;

verus! {

/// A `BitVec<u8, Lsb0>`: bits packed into bytes, eight to a byte, the first
/// of them in the least significant position.
///
/// The vector is opaque to the verifier. What it holds is named by
/// [`stored_bits`], [`raw_bytes`] and [`head_offset`].
#[verifier::external_body]
pub struct PixelBits {
    bits: BitVec<u8, Lsb0>,
}

/// The live bits of a bit vector, in index order.
pub uninterp spec fn stored_bits(v: PixelBits) -> Seq<bool>;

/// The memory elements that hold the live bits of a bit vector, in address
/// order: what `as_raw_slice` hands out.
pub uninterp spec fn raw_bytes(v: PixelBits) -> Seq<u8>;

/// The position, within the first memory element, of the first live bit.
pub uninterp spec fn head_offset(v: PixelBits) -> nat;

/// Calls `BitVec::<u8, Lsb0>::repeat(false, len)`.
///
/// `repeat` panics when `len` exceeds `BitSlice::MAX_BITS`, which is
/// `usize::MAX >> 3`. Otherwise it allocates `ceil(len / 8)` elements, lets
/// the live bits start at bit 0 of the first one, and fills every element with
/// zero, the bits past the last live one included.
#[verifier::external_body]
pub(crate) fn zeroed_bits(len: usize) -> (v: PixelBits)
    requires
        len <= usize::MAX / 8,
    ensures
        stored_bits(v) == Seq::new(len as nat, |i: int| false),
        raw_bytes(v) == Seq::new(((len + 7) / 8) as nat, |k: int| 0u8),
        head_offset(v) == 0,
{
    PixelBits { bits: BitVec::repeat(false, len) }
}

/// Calls `BitSlice::set` through the bit vector.
///
/// `set` panics when `index` is not below the length. Otherwise it writes
/// `value` to the live bit `index` and leaves the others alone. In memory this
/// is bit `head + index`, counted from the least significant bit of the first
/// element: with the `Lsb0` order the element is or-ed with `1 << position` to
/// set the bit, and and-ed with the complement of that to clear it.
#[verifier::external_body]
pub(crate) fn set_bit(v: &mut PixelBits, index: usize, value: bool)
    requires
        index < stored_bits(*old(v)).len(),
    ensures
        stored_bits(*final(v)) == stored_bits(*old(v)).update(index as int, value),
        head_offset(*final(v)) == head_offset(*old(v)),
        raw_bytes(*final(v)) == ({
            let at = head_offset(*old(v)) + index;
            raw_bytes(*old(v)).update(
                at / 8,
                with_bit(raw_bytes(*old(v))[at / 8], (at % 8) as u8, value),
            )
        }),
{
    v.bits.set(index, value)
}

/// Calls `BitVec::as_raw_slice`, which views the memory elements that hold
/// live bits as a slice.
#[verifier::external_body]
pub(crate) fn raw_slice(v: &PixelBits) -> (bytes: &[u8])
    ensures
        bytes@ == raw_bytes(*v),
{
    v.bits.as_raw_slice()
}

} // verus!
