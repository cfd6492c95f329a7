//! The validity bitmap: a packed bit-set held in bitvec's bit-vector, behind
//! a trusted boundary.

use vstd::prelude::*;

verus! {

/// A packed per-slot validity bitmap, one bit per logical slot. The backing
/// store is bitvec's `BitVec` with its default storage and ordering
/// parameters, so memory cost is one bit per slot, not one byte.
#[verifier::external_body]
pub struct Bitmap {
    bits: bitvec::vec::BitVec<usize, bitvec::order::Lsb0>,
}

impl Clone for Bitmap {
    /// Relies on the Clone impl of bitvec::vec::BitVec: the copy holds the
    /// same bits.
    #[verifier::external_body]
    fn clone(&self) -> (r: Bitmap)
        ensures
            bits_of(r) == bits_of(*self),
    {
        Bitmap { bits: self.bits.clone() }
    }
}

/// The sequence of bits a bitmap holds, in index order.
pub uninterp spec fn bits_of(v: Bitmap) -> Seq<bool>;

/// Largest bit count a bitvec::vec::BitVec can hold: one eighth of the usize
/// range, because the vector packs a bit offset into the low three bits of
/// its length field. Its growing operations panic beyond this.
pub open spec fn bitmap_limit() -> nat {
    usize::MAX as nat / 8
}

impl Bitmap {
    /// Relies on bitvec::vec::BitVec::with_capacity: it returns an empty
    /// bit-vector (and panics on a capacity above the length limit).
    #[verifier::external_body]
    pub(crate) fn with_capacity(capacity: usize) -> (r: Bitmap)
        requires
            capacity as nat <= bitmap_limit(),
        ensures
            bits_of(r) == Seq::<bool>::empty(),
    {
        Bitmap { bits: bitvec::vec::BitVec::with_capacity(capacity) }
    }

    /// Relies on bitvec::vec::BitVec::push: it appends one bit (and panics
    /// when the new length would exceed the length limit).
    #[verifier::external_body]
    pub(crate) fn push(&mut self, bit: bool)
        requires
            bits_of(*old(self)).len() < bitmap_limit(),
        ensures
            bits_of(*final(self)) == bits_of(*old(self)).push(bit),
    {
        self.bits.push(bit)
    }

    /// Relies on bitvec::vec::BitVec::len: the number of bits held.
    #[verifier::external_body]
    pub(crate) fn len(&self) -> (r: usize)
        ensures
            r as nat == bits_of(*self).len(),
    {
        self.bits.len()
    }

    /// Relies on the Index impl of bitvec::slice::BitSlice: it returns the
    /// bit at the given position (and panics out of range).
    #[verifier::external_body]
    pub(crate) fn get(&self, i: usize) -> (r: bool)
        requires
            (i as nat) < bits_of(*self).len(),
        ensures
            r == bits_of(*self)[i as int],
    {
        self.bits[i]
    }

    /// Relies on bitvec::vec::BitVec::extend_from_bitslice: it appends every
    /// bit of the other bit-vector, in order (and panics when the combined
    /// length would exceed the length limit).
    #[verifier::external_body]
    pub(crate) fn extend(&mut self, other: &Bitmap)
        requires
            bits_of(*old(self)).len() + bits_of(*other).len() <= bitmap_limit(),
        ensures
            bits_of(*final(self)) == bits_of(*old(self)) + bits_of(*other),
    {
        self.bits.extend_from_bitslice(other.bits.as_bitslice())
    }

    /// The bits of this bitmap as plain booleans, in order.
    pub fn to_bools(&self) -> (r: Vec<bool>)
        ensures
            r@ == bits_of(*self),
    {
        let mut out: Vec<bool> = Vec::new();
        let n: usize = self.len();
        let mut i: usize = 0;
        while i < n
            invariant
                n as nat == bits_of(*self).len(),
                i <= n,
                out@ == bits_of(*self).subrange(0, i as int),
            decreases n - i,
        {
            out.push(self.get(i));
            proof {
                assert(out@ =~= bits_of(*self).subrange(0, i + 1));
            }
            i = i + 1;
        }
        proof {
            assert(out@ =~= bits_of(*self));
        }
        out
    }
}

} // verus!
