//! The inclusion mask: one bit for each item of a trait, set where the item
//! is forwarded. The bits are held by a `bitvec::vec::BitVec`.

use vstd::prelude::*;
use bitvec::vec::BitVec;

verus! {

/// A sequence of bits.
#[verifier::external_body]
pub struct ItemMask {
    bits: BitVec,
}

/// The bits that a mask holds, the one pushed first at 0.
pub uninterp spec fn mask_bits(mask: ItemMask) -> Seq<bool>;

impl View for ItemMask {
    type V = Seq<bool>;

    open spec fn view(&self) -> Seq<bool> {
        mask_bits(*self)
    }
}

/// The most bits that a mask can hold: what a `BitVec` can, the largest
/// `usize` without its three top bits.
pub open spec fn mask_limit() -> int {
    usize::MAX as int / 8
}

/// How many of the bits are set.
pub open spec fn count_ones(bits: Seq<bool>) -> nat
    decreases bits.len(),
{
    if bits.len() == 0 {
        0
    } else {
        count_ones(bits.drop_last()) + if bits.last() {
            1nat
        } else {
            0nat
        }
    }
}

/// `BitVec::with_capacity`: a mask without bits, with room for `capacity`
/// of them. The call panics on a capacity above the limit.
#[verifier::external_body]
pub(crate) fn mask_with_capacity(capacity: usize) -> (mask: ItemMask)
    requires
        capacity <= mask_limit(),
    ensures
        mask_bits(mask) == Seq::<bool>::empty(),
{
    ItemMask { bits: BitVec::with_capacity(capacity) }
}

/// `BitVec::push`: appends one bit and leaves the bits before it as they
/// are. The call panics where the mask is at its limit.
#[verifier::external_body]
pub(crate) fn mask_push(mask: &mut ItemMask, bit: bool)
    requires
        mask_bits(*old(mask)).len() < mask_limit(),
    ensures
        mask_bits(*final(mask)) == mask_bits(*old(mask)).push(bit),
{
    mask.bits.push(bit)
}

/// `BitVec::len`: the number of bits.
#[verifier::external_body]
pub(crate) fn mask_len(mask: &ItemMask) -> (len: usize)
    ensures
        len == mask_bits(*mask).len(),
{
    mask.bits.len()
}

/// Indexing a `BitVec` by a `usize`: the bit at `index`. The call panics on
/// an index that is not below the length.
#[verifier::external_body]
pub(crate) fn mask_index(mask: &ItemMask, index: usize) -> (bit: bool)
    requires
        index < mask_bits(*mask).len(),
    ensures
        bit == mask_bits(*mask)[index as int],
{
    mask.bits[index]
}

/// `BitSlice::count_ones`, reached through a `BitVec`: the number of bits
/// that are set.
#[verifier::external_body]
pub(crate) fn mask_count_ones(mask: &ItemMask) -> (count: usize)
    ensures
        count == count_ones(mask_bits(*mask)),
{
    mask.bits.count_ones()
}

impl ItemMask {
    /// The number of bits.
    pub fn len(&self) -> (len: usize)
        ensures
            len == self@.len(),
    {
        mask_len(self)
    }

    /// The bit at `index`, if there is one.
    pub fn get(&self, index: usize) -> (bit: Option<bool>)
        ensures
            bit == if index < self@.len() {
                Some(self@[index as int])
            } else {
                None
            },
    {
        if index < mask_len(self) {
            Some(mask_index(self, index))
        } else {
            None
        }
    }

    /// The number of bits that are set.
    pub fn count_ones(&self) -> (count: usize)
        ensures
            count == count_ones(self@),
    {
        mask_count_ones(self)
    }
}

} // verus!
