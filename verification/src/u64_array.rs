//! The fixed-width nullable array of 64-bit unsigned integers, the carrier of
//! packed row identifiers.

use crate::array::{slot_of, Array, ArrayBuilder};
use crate::bitmap::{bitmap_limit, bits_of, Bitmap};
use vstd::prelude::*;

verus! {

/// An immutable, nullable column of `u64` values: one value per slot paired
/// with a validity bit.
#[derive(Clone)]
pub struct U64Array {
    valid: Bitmap,
    data: Vec<u64>,
}

impl U64Array {
    /// The validity bit of each slot, in order.
    pub closed spec fn valid_bits(&self) -> Seq<bool> {
        bits_of(self.valid)
    }

    /// The raw per-slot validity bitmap, for vectorized null testing.
    pub fn get_valid_bitmap(&self) -> (r: &Bitmap)
        ensures
            bits_of(*r) == self.valid_bits(),
    {
        &self.valid
    }
}

impl Array for U64Array {
    type Item = u64;

    type Model = u64;

    closed spec fn model(&self) -> Seq<Option<u64>> {
        Seq::new(
            bits_of(self.valid).len(),
            |i: int|
                if bits_of(self.valid)[i] {
                    Some(self.data@[i])
                } else {
                    None
                },
        )
    }

    closed spec fn inv(&self) -> bool {
        bits_of(self.valid).len() == self.data@.len()
    }

    open spec fn item_model(v: &u64) -> u64 {
        *v
    }

    fn len(&self) -> (r: usize) {
        self.valid.len()
    }

    fn get(&self, idx: usize) -> (r: Option<&u64>) {
        if self.valid.get(idx) {
            Some(&self.data[idx])
        } else {
            None
        }
    }
}

/// The growable accumulator for a [`U64Array`]; a null push stores a zero
/// value under a cleared validity bit.
pub struct U64ArrayBuilder {
    valid: Bitmap,
    data: Vec<u64>,
}

impl ArrayBuilder for U64ArrayBuilder {
    type Array = U64Array;

    closed spec fn model(&self) -> Seq<Option<u64>> {
        Seq::new(
            bits_of(self.valid).len(),
            |i: int|
                if bits_of(self.valid)[i] {
                    Some(self.data@[i])
                } else {
                    None
                },
        )
    }

    closed spec fn inv(&self) -> bool {
        bits_of(self.valid).len() == self.data@.len()
    }

    open spec fn pushable(&self, value: Option<&u64>) -> bool {
        self.model().len() < bitmap_limit()
    }

    open spec fn appendable(&self, other: &U64Array) -> bool {
        self.model().len() + other.model().len() <= bitmap_limit()
    }

    fn with_capacity(capacity: usize) -> (r: Self) {
        let bound: usize = usize::MAX / 8;
        let hint: usize = if capacity < bound {
            capacity
        } else {
            bound
        };
        U64ArrayBuilder { valid: Bitmap::with_capacity(hint), data: Vec::with_capacity(hint) }
    }

    fn push(&mut self, value: Option<&u64>) {
        self.valid.push(value.is_some());
        match value {
            Some(v) => self.data.push(*v),
            None => self.data.push(0),
        }
        proof {
            assert(final(self).model() =~= old(self).model().push(
                slot_of::<U64Array>(value),
            ));
        }
    }

    fn append(&mut self, other: &U64Array) {
        self.valid.extend(&other.valid);
        let mut i: usize = 0;
        let n: usize = other.data.len();
        while i < n
            invariant
                n == other.data@.len(),
                i <= n,
                bits_of(self.valid) == bits_of(old(self).valid) + bits_of(other.valid),
                self.data@ == old(self).data@ + other.data@.subrange(0, i as int),
            decreases n - i,
        {
            self.data.push(other.data[i]);
            proof {
                assert(self.data@ =~= old(self).data@ + other.data@.subrange(0, i + 1));
            }
            i = i + 1;
        }
        proof {
            assert(other.data@.subrange(0, n as int) =~= other.data@);
            assert(final(self).model() =~= old(self).model() + other.model());
        }
    }

    fn finish(self) -> (r: U64Array) {
        U64Array { valid: self.valid, data: self.data }
    }
}

} // verus!
