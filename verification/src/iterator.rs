//! A sequential read-only cursor over any [`Array`].

use crate::array::Array;
use vstd::prelude::*;

verus! {

/// An iterator over the elements of an [`Array`]: a forward-only cursor that
/// yields one optional borrowed item per slot, in order, then signals
/// exhaustion. Cloning duplicates only the cursor, never the array.
#[derive(Clone)]
pub struct ArrayIter<'a, A: Array> {
    data: &'a A,
    pos: usize,
}

impl<'a, A: Array> ArrayIter<'a, A> {
    /// The array being traversed.
    pub closed spec fn array(&self) -> &'a A {
        self.data
    }

    /// The position of the next slot to yield.
    pub closed spec fn cursor(&self) -> nat {
        self.pos as nat
    }

    /// A cursor over `data`, starting at the first slot.
    pub fn new(data: &'a A) -> (r: Self)
        ensures
            r.array() == data,
            r.cursor() == 0,
    {
        ArrayIter { data, pos: 0 }
    }

    /// Yields the slot under the cursor and advances past it, or returns
    /// nothing once every slot has been yielded.
    pub fn next(&mut self) -> (r: Option<Option<&'a A::Item>>)
        requires
            old(self).array().inv(),
        ensures
            final(self).array() == old(self).array(),
            old(self).cursor() >= old(self).array().model().len() ==> r is None
                && final(self).cursor() == old(self).cursor(),
            old(self).cursor() < old(self).array().model().len() ==> {
                let slot = old(self).array().model()[old(self).cursor() as int];
                &&& final(self).cursor() == old(self).cursor() + 1
                &&& r matches Some(item) && (item is Some <==> slot is Some)
                &&& (r matches Some(Some(v)) ==> slot == Some(A::item_model(v)))
            },
    {
        if self.pos >= self.data.len() {
            None
        } else {
            let item = self.data.get(self.pos);
            self.pos = self.pos + 1;
            Some(item)
        }
    }
}

} // verus!
