//! The generic contract every column array and every array builder offers.

use vstd::prelude::*;

verus! {

/// The slot a borrowed optional item stands for: `None` for a null slot,
/// otherwise the item's mathematical model.
pub open spec fn slot_of<A: Array>(value: Option<&A::Item>) -> Option<A::Model> {
    match value {
        Some(v) => Some(A::item_model(v)),
        None => None,
    }
}

/// An immutable, typed, nullable column: a sequence of logical slots, each
/// either null or holding one value of the item type.
pub trait Array: Sized {
    /// The borrowed item type `get` hands out.
    type Item: ?Sized;

    /// The mathematical model of one item.
    type Model;

    /// The slot sequence this array represents: `None` for a null slot,
    /// `Some(m)` for a slot holding a value modelled by `m`.
    spec fn model(&self) -> Seq<Option<Self::Model>>;

    /// Well-formedness of the backing buffers.
    spec fn inv(&self) -> bool;

    /// Maps a borrowed item to its mathematical model.
    spec fn item_model(v: &Self::Item) -> Self::Model;

    /// The number of logical slots, nulls included.
    fn len(&self) -> (r: usize)
        requires
            self.inv(),
        ensures
            r as nat == self.model().len(),
    ;

    /// A borrowed view of the value at `idx`, or nothing if that slot is null.
    fn get(&self, idx: usize) -> (r: Option<&Self::Item>)
        requires
            self.inv(),
            (idx as nat) < self.model().len(),
        ensures
            (r is Some <==> self.model()[idx as int] is Some),
            (r matches Some(v) ==> self.model()[idx as int] == Some(Self::item_model(v))),
    ;
}

/// A write-only, append-only accumulator for one array, consumed by `finish`.
pub trait ArrayBuilder: Sized {
    /// The array type this builder produces.
    type Array: Array;

    /// The slot sequence accumulated so far.
    spec fn model(&self) -> Seq<Option<<Self::Array as Array>::Model>>;

    /// Well-formedness of the backing buffers.
    spec fn inv(&self) -> bool;

    /// Whether the machine limits of the backing buffers admit one more slot
    /// holding `value`.
    spec fn pushable(&self, value: Option<&<Self::Array as Array>::Item>) -> bool;

    /// Whether the machine limits of the backing buffers admit appending
    /// every slot of `other`.
    spec fn appendable(&self, other: &Self::Array) -> bool;

    /// A fresh, empty builder; `capacity` is a preallocation hint with no
    /// observable effect.
    fn with_capacity(capacity: usize) -> (r: Self)
        ensures
            r.inv(),
            r.model() == Seq::<Option<<Self::Array as Array>::Model>>::empty(),
    ;

    /// Appends one slot: null if `value` is nothing.
    fn push(&mut self, value: Option<&<Self::Array as Array>::Item>)
        requires
            old(self).inv(),
            old(self).pushable(value),
        ensures
            final(self).inv(),
            final(self).model() == old(self).model().push(slot_of::<Self::Array>(value)),
    ;

    /// Appends every slot of `other`, in order, with identical nullness and
    /// values.
    fn append(&mut self, other: &Self::Array)
        requires
            old(self).inv(),
            other.inv(),
            old(self).appendable(other),
        ensures
            final(self).inv(),
            final(self).model() == old(self).model() + other.model(),
    ;

    /// Consumes the builder, returning the immutable array it accumulated.
    fn finish(self) -> (r: Self::Array)
        requires
            self.inv(),
        ensures
            r.inv(),
            r.model() == self.model(),
    ;
}

/// The slot sequence reached from `acc` by pushing every slot of `rest`, one
/// at a time, in order.
pub open spec fn iterated_push<T>(acc: Seq<Option<T>>, rest: Seq<Option<T>>) -> Seq<Option<T>>
    decreases rest.len(),
{
    if rest.len() == 0 {
        acc
    } else {
        iterated_push(acc.push(rest[0]), rest.drop_first())
    }
}

/// Appending a whole slot sequence at once is the same as pushing its slots
/// one by one, in order. Together with the `append`, `push` and `finish`
/// contracts this says: `append(other)` followed by `finish` produces an
/// array equal, slot by slot, to one built by pushing every slot of `other`
/// individually.
pub proof fn lemma_append_is_iterated_push<T>(acc: Seq<Option<T>>, rest: Seq<Option<T>>)
    ensures
        iterated_push(acc, rest) == acc + rest,
    decreases rest.len(),
{
    if rest.len() == 0 {
        assert(iterated_push(acc, rest) =~= acc + rest);
    } else {
        lemma_append_is_iterated_push(acc.push(rest[0]), rest.drop_first());
        assert(acc.push(rest[0]) + rest.drop_first() =~= acc + rest);
    }
}

} // verus!
