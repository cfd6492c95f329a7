//! The variable-length nullable string column: a flat byte buffer, an offset
//! vector and a validity bitmap, with zero-width ranges for null slots.

use crate::array::{Array, ArrayBuilder};
use crate::bitmap::{bitmap_limit, bits_of, Bitmap};
use vstd::prelude::*;
use vstd::slice::slice_subrange;
use vstd::string::StringSliceAdditionalSpecFns;
use vstd::utf8::{encode_utf8, valid_utf8};

verus! {

/// The mathematical content of a string column: the three co-owned buffers.
/// `offsets` has one more entry than there are slots; slot `i` owns the byte
/// range `data[offsets[i] .. offsets[i + 1]]`, and a null slot owns an empty
/// range.
pub ghost struct StrColumn {
    pub offsets: Seq<int>,
    pub valid: Seq<bool>,
    pub data: Seq<u8>,
}

impl StrColumn {
    /// The number of logical slots, nulls included.
    pub open spec fn slot_count(self) -> nat {
        self.valid.len()
    }

    /// The byte range attributed to slot `i`.
    pub open spec fn slot_bytes(self, i: int) -> Seq<u8> {
        self.data.subrange(self.offsets[i], self.offsets[i + 1])
    }

    /// Slot `i`: null, or the bytes it holds.
    pub open spec fn slot(self, i: int) -> Option<Seq<u8>> {
        if self.valid[i] {
            Some(self.slot_bytes(i))
        } else {
            None
        }
    }

    /// The whole slot sequence.
    pub open spec fn slots(self) -> Seq<Option<Seq<u8>>> {
        Seq::new(self.slot_count(), |i: int| self.slot(i))
    }

    /// Well-formedness: the offset vector starts at zero, is non-decreasing,
    /// has one entry per slot plus one, ends at the data length; a null slot
    /// has a zero-width range; a valid slot's range holds well-formed UTF-8.
    pub open spec fn wf(self) -> bool {
        &&& self.offsets.len() == self.valid.len() + 1
        &&& self.offsets[0] == 0
        &&& forall|i: int|
            0 <= i < self.valid.len() ==> #[trigger] self.offsets[i] <= self.offsets[i + 1]
        &&& self.offsets[self.valid.len() as int] == self.data.len()
        &&& forall|i: int|
            0 <= i < self.valid.len() && !self.valid[i] ==> #[trigger] self.offsets[i]
                == self.offsets[i + 1]
        &&& forall|i: int|
            0 <= i < self.valid.len() && self.valid[i] ==> valid_utf8(#[trigger] self.slot_bytes(i))
    }

    /// The empty column.
    pub open spec fn empty() -> StrColumn {
        StrColumn { offsets: seq![0int], valid: Seq::empty(), data: Seq::empty() }
    }

    /// The column after pushing one valid slot holding `bytes`.
    pub open spec fn push_value(self, bytes: Seq<u8>) -> StrColumn {
        StrColumn {
            offsets: self.offsets.push(self.data.len() + bytes.len() as int),
            valid: self.valid.push(true),
            data: self.data + bytes,
        }
    }

    /// The column after pushing one null slot: the bitmap gains a cleared
    /// bit, the offset vector repeats its last entry, the data is untouched.
    pub open spec fn push_null(self) -> StrColumn {
        StrColumn {
            offsets: self.offsets.push(self.data.len() as int),
            valid: self.valid.push(false),
            data: self.data,
        }
    }

    /// The column after pushing one slot, null or valid.
    pub open spec fn push_slot(self, v: Option<Seq<u8>>) -> StrColumn {
        match v {
            Some(bytes) => self.push_value(bytes),
            None => self.push_null(),
        }
    }

    /// The column holding first every slot of `self`, then every slot of
    /// `other`, with `other`'s offsets re-based past `self`'s data.
    pub open spec fn concat(self, other: StrColumn) -> StrColumn {
        StrColumn {
            offsets: self.offsets + other.offsets.skip(1).map_values(
                |o: int| o + self.data.len(),
            ),
            valid: self.valid + other.valid,
            data: self.data + other.data,
        }
    }
}

/// In a well-formed column the offsets are globally monotone.
pub proof fn lemma_wf_offsets_monotone(c: StrColumn, i: int, j: int)
    requires
        c.wf(),
        0 <= i <= j <= c.slot_count(),
    ensures
        c.offsets[i] <= c.offsets[j],
    decreases j - i,
{
    if i < j {
        lemma_wf_offsets_monotone(c, i + 1, j);
        assert(c.offsets[i] <= c.offsets[i + 1]);
    }
}

/// In a well-formed column every offset pair delimits a range that lies
/// inside the data buffer.
pub proof fn lemma_wf_offsets_bounded(c: StrColumn, i: int, j: int)
    requires
        c.wf(),
        0 <= i <= j <= c.slot_count(),
    ensures
        0 <= c.offsets[i] <= c.offsets[j] <= c.data.len(),
{
    lemma_wf_offsets_monotone(c, 0, i);
    lemma_wf_offsets_monotone(c, i, j);
    lemma_wf_offsets_monotone(c, j, c.slot_count() as int);
}

/// Pushing one slot keeps a column well-formed and extends its slot sequence
/// by exactly that slot, leaving every earlier slot unchanged.
pub proof fn lemma_push_slot(c: StrColumn, v: Option<Seq<u8>>)
    requires
        c.wf(),
        v matches Some(bytes) ==> valid_utf8(bytes),
    ensures
        c.push_slot(v).wf(),
        c.push_slot(v).slots() == c.slots().push(v),
{
    let p = c.push_slot(v);
    assert forall|i: int| 0 <= i < c.slot_count() implies p.slot_bytes(i) == c.slot_bytes(i) by {
        lemma_wf_offsets_bounded(c, i + 1, c.slot_count() as int);
        lemma_wf_offsets_bounded(c, i, i + 1);
        assert(p.slot_bytes(i) =~= c.slot_bytes(i));
    }
    match v {
        Some(bytes) => {
            lemma_wf_offsets_bounded(c, c.slot_count() as int, c.slot_count() as int);
            assert(p.slot_bytes(c.slot_count() as int) =~= bytes);
        },
        None => {},
    }
    assert(p.wf());
    assert(p.slots() =~= c.slots().push(v));
}

/// Pointwise: a concatenation's offsets are the first column's, then the
/// second column's re-based past the first column's data.
pub proof fn lemma_concat_offsets(c: StrColumn, other: StrColumn, i: int)
    requires
        c.wf(),
        other.wf(),
        0 <= i <= c.slot_count() + other.slot_count(),
    ensures
        i <= c.slot_count() ==> c.concat(other).offsets[i] == c.offsets[i],
        i >= c.slot_count() ==> c.concat(other).offsets[i] == other.offsets[i - c.slot_count()]
            + c.data.len(),
{
    let m = c.slot_count() as int;
    let k = c.concat(other);
    if i <= m {
        assert(k.offsets[i] == c.offsets[i]);
        if i == m {
            assert(other.offsets[0] == 0);
        }
    } else {
        assert(k.offsets[i] == other.offsets.skip(1).map_values(|o: int| o + c.data.len())[i - m
            - 1]);
    }
}

/// Pointwise: re-basing preserves each slot's byte range across a
/// concatenation.
proof fn lemma_concat_slot_bytes(c: StrColumn, other: StrColumn, i: int)
    requires
        c.wf(),
        other.wf(),
        0 <= i < c.slot_count() + other.slot_count(),
    ensures
        i < c.slot_count() ==> c.concat(other).slot_bytes(i) == c.slot_bytes(i),
        i >= c.slot_count() ==> c.concat(other).slot_bytes(i) == other.slot_bytes(
            i - c.slot_count(),
        ),
{
    let m = c.slot_count() as int;
    let k = c.concat(other);
    lemma_concat_offsets(c, other, i);
    lemma_concat_offsets(c, other, i + 1);
    if i < m {
        lemma_wf_offsets_bounded(c, i, i + 1);
        assert(k.slot_bytes(i) =~= c.slot_bytes(i));
    } else {
        lemma_wf_offsets_bounded(other, i - m, i - m + 1);
        assert(k.slot_bytes(i) =~= other.slot_bytes(i - m));
    }
}

/// A concatenation of well-formed columns is well-formed.
proof fn lemma_concat_wf(c: StrColumn, other: StrColumn)
    requires
        c.wf(),
        other.wf(),
    ensures
        c.concat(other).wf(),
{
    let m = c.slot_count() as int;
    let n = other.slot_count() as int;
    let k = c.concat(other);
    assert(k.offsets.len() == m + n + 1);
    assert(k.valid.len() == m + n);
    assert forall|i: int| 0 <= i <= m + n implies #[trigger] k.offsets[i] == (if i <= m {
        c.offsets[i]
    } else {
        other.offsets[i - m] + c.data.len()
    }) by {
        lemma_concat_offsets(c, other, i);
    }
    assert(k.offsets[0] == 0);
    assert(k.offsets[m + n] == k.data.len());
    assert forall|i: int| 0 <= i < m + n implies #[trigger] k.offsets[i] <= k.offsets[i + 1] by {
        if i < m {
            assert(c.offsets[i] <= c.offsets[i + 1]);
        } else {
            assert(other.offsets[i - m] <= other.offsets[i - m + 1]);
        }
    }
    assert forall|i: int| 0 <= i < m + n && !k.valid[i] implies #[trigger] k.offsets[i]
        == k.offsets[i + 1] by {
        if i < m {
            assert(!c.valid[i]);
        } else {
            assert(!other.valid[i - m]);
        }
    }
    assert forall|i: int|
        0 <= i < m + n && k.valid[i] implies valid_utf8(#[trigger] k.slot_bytes(i)) by {
        lemma_concat_slot_bytes(c, other, i);
        if i < m {
            assert(c.valid[i]);
        } else {
            assert(other.valid[i - m]);
        }
    }
}

/// Concatenating two well-formed columns is well-formed and yields exactly
/// the two slot sequences, one after the other: re-basing the second column's
/// offsets preserves every one of its slots, null or valid.
pub proof fn lemma_concat_slots(c: StrColumn, other: StrColumn)
    requires
        c.wf(),
        other.wf(),
    ensures
        c.concat(other).wf(),
        c.concat(other).slots() == c.slots() + other.slots(),
{
    let m = c.slot_count() as int;
    let n = other.slot_count() as int;
    let k = c.concat(other);
    lemma_concat_wf(c, other);
    assert forall|i: int| 0 <= i < m + n implies k.slots()[i] == (c.slots() + other.slots())[i] by {
        lemma_concat_slot_bytes(c, other, i);
        if i < m {
            assert(k.valid[i] == c.valid[i]);
        } else {
            assert(k.valid[i] == other.valid[i - m]);
        }
    }
    assert(k.slots() =~= c.slots() + other.slots());
}

/// Appending a whole column into a builder and then finishing yields exactly
/// the slot sequence reached by pushing every slot of that column, one at a
/// time, in order: the two build paths are indistinguishable, slot by slot,
/// in value and in nullness.
pub proof fn lemma_append_matches_iterated_push(c: StrColumn, other: StrColumn)
    requires
        c.wf(),
        other.wf(),
    ensures
        c.concat(other).slots() == crate::array::iterated_push(c.slots(), other.slots()),
{
    lemma_concat_slots(c, other);
    crate::array::lemma_append_is_iterated_push(c.slots(), other.slots());
}

/// Relies on std::str::from_utf8: it returns the string slice viewing the
/// given bytes exactly when they are valid UTF-8.
#[verifier::external_body]
fn bytes_as_str(v: &[u8]) -> (r: Option<&str>)
    ensures
        r is Some <==> valid_utf8(v@),
        r matches Some(s) ==> s.spec_bytes() == v@,
{
    std::str::from_utf8(v).ok()
}

/// A collection of UTF-8 strings: an immutable, nullable string column.
#[derive(Clone)]
pub struct Utf8Array {
    offset: Vec<usize>,
    valid: Bitmap,
    data: Vec<u8>,
}

impl View for Utf8Array {
    type V = StrColumn;

    closed spec fn view(&self) -> StrColumn {
        StrColumn {
            offsets: self.offset@.map_values(|x: usize| x as int),
            valid: bits_of(self.valid),
            data: self.data@,
        }
    }
}

impl Utf8Array {
    /// The raw per-slot validity bitmap, for vectorized null testing.
    pub fn get_valid_bitmap(&self) -> (r: &Bitmap)
        ensures
            bits_of(*r) == self@.valid,
    {
        &self.valid
    }

    /// The offset vector: `len() + 1` cumulative byte positions into the data
    /// buffer, as the persistence boundary reads it.
    pub fn offsets(&self) -> (r: &Vec<usize>)
        ensures
            r@.map_values(|x: usize| x as int) == self@.offsets,
    {
        &self.offset
    }

    /// The flat byte buffer holding every valid slot's bytes, in order, as
    /// the persistence boundary reads it.
    pub fn data_buffer(&self) -> (r: &Vec<u8>)
        ensures
            r@ == self@.data,
    {
        &self.data
    }

    /// An approximate byte footprint of the backing storage.
    pub fn get_estimated_size(&self) -> (r: usize)
        ensures
            r as nat == estimated_size_spec(self@),
    {
        let a: usize = self.data.len();
        let b: usize = self.offset.len();
        let c: usize = self.valid.len() / 8;
        let ab: usize = if a <= usize::MAX - b {
            a + b
        } else {
            usize::MAX
        };
        if ab <= usize::MAX - c {
            ab + c
        } else {
            usize::MAX
        }
    }
}

/// The approximate footprint of a column's backing storage: its byte count,
/// its offset entry count and its bitmap byte count, saturating at the
/// machine word range.
pub open spec fn estimated_size_spec(c: StrColumn) -> nat {
    let total = c.data.len() + c.offsets.len() + c.valid.len() / 8;
    if total <= usize::MAX as nat {
        total
    } else {
        usize::MAX as nat
    }
}

/// The estimated size never shrinks as slots are pushed, whatever
/// interleaving of null and valid pushes builds the column.
pub proof fn lemma_estimated_size_monotone(c: StrColumn, v: Option<Seq<u8>>)
    ensures
        estimated_size_spec(c.push_slot(v)) >= estimated_size_spec(c),
{
}

impl Array for Utf8Array {
    type Item = str;

    type Model = Seq<u8>;

    open spec fn model(&self) -> Seq<Option<Seq<u8>>> {
        self@.slots()
    }

    open spec fn inv(&self) -> bool {
        self@.wf()
    }

    open spec fn item_model(v: &str) -> Seq<u8> {
        v.spec_bytes()
    }

    fn len(&self) -> (r: usize) {
        self.valid.len()
    }

    fn get(&self, idx: usize) -> (r: Option<&str>) {
        proof {
            lemma_wf_offsets_bounded(self@, idx + 1, self@.slot_count() as int);
            lemma_wf_offsets_bounded(self@, idx as int, idx + 1);
        }
        let offset_entries: usize = self.offset.len();
        proof {
            assert(idx + 1 < offset_entries);
        }
        if self.valid.get(idx) {
            let lo: usize = self.offset[idx];
            let hi: usize = self.offset[idx + 1];
            let bytes: &[u8] = slice_subrange(self.data.as_slice(), lo, hi);
            match bytes_as_str(bytes) {
                Some(s) => Some(s),
                None => None,
            }
        } else {
            None
        }
    }
}

/// The slot a borrowed optional string stands for: null, or its UTF-8 bytes.
pub open spec fn str_slot(value: Option<&str>) -> Option<Seq<u8>> {
    match value {
        Some(s) => Some(s.spec_bytes()),
        None => None,
    }
}

/// A builder that accumulates `&str` pushes into a [`Utf8Array`].
pub struct Utf8ArrayBuilder {
    offset: Vec<usize>,
    valid: Bitmap,
    data: Vec<u8>,
}

impl View for Utf8ArrayBuilder {
    type V = StrColumn;

    closed spec fn view(&self) -> StrColumn {
        StrColumn {
            offsets: self.offset@.map_values(|x: usize| x as int),
            valid: bits_of(self.valid),
            data: self.data@,
        }
    }
}

impl ArrayBuilder for Utf8ArrayBuilder {
    type Array = Utf8Array;

    open spec fn model(&self) -> Seq<Option<Seq<u8>>> {
        self@.slots()
    }

    open spec fn inv(&self) -> bool {
        self@.wf()
    }

    open spec fn pushable(&self, value: Option<&str>) -> bool {
        &&& self@.slot_count() + 1 <= bitmap_limit()
        &&& (value matches Some(s) ==> self@.data.len() + s.spec_bytes().len() < usize::MAX)
    }

    open spec fn appendable(&self, other: &Utf8Array) -> bool {
        &&& self@.slot_count() + other@.slot_count() <= bitmap_limit()
        &&& self@.data.len() + other@.data.len() <= usize::MAX
    }

    fn with_capacity(capacity: usize) -> (r: Self)
        ensures
            r@ == StrColumn::empty(),
    {
        let bound: usize = usize::MAX / 8;
        let hint: usize = if capacity < bound {
            capacity
        } else {
            bound
        };
        let mut offset: Vec<usize> = Vec::with_capacity(hint + 1);
        offset.push(0);
        let r = Utf8ArrayBuilder {
            offset,
            valid: Bitmap::with_capacity(hint),
            data: Vec::with_capacity(hint),
        };
        proof {
            assert(r@.offsets =~= StrColumn::empty().offsets);
            assert(r@ == StrColumn::empty());
            assert(r.model() =~= Seq::<Option<Seq<u8>>>::empty());
        }
        r
    }

    fn push(&mut self, value: Option<&str>)
        ensures
            final(self)@ == old(self)@.push_slot(str_slot(value)),
    {
        self.valid.push(value.is_some());
        if let Some(x) = value {
            let bytes: &[u8] = x.as_bytes();
            self.data.extend_from_slice(bytes);
            proof {
                assert forall|i: int|
                    0 <= i < self.data@.len() implies #[trigger] self.data@[i] == (old(self).data@
                    + x.spec_bytes())[i] by {
                    if i >= old(self).data@.len() {
                        assert(vstd::pervasive::cloned::<u8>(
                            x.spec_bytes()[i - old(self).data@.len()],
                            self.data@[i],
                        ));
                    }
                }
                assert(self.data@ =~= old(self).data@ + x.spec_bytes());
            }
        }
        let end: usize = self.data.len();
        self.offset.push(end);
        proof {
            broadcast use vstd::utf8::encode_utf8_valid_utf8;

            assert(self@.offsets =~= old(self)@.offsets.push(self@.data.len() as int));
            assert(self@ == old(self)@.push_slot(str_slot(value)));
            lemma_push_slot(old(self)@, str_slot(value));
        }
    }

    #[verifier::rlimit(100)]
    #[verifier::spinoff_prover]
    fn append(&mut self, other: &Utf8Array)
        ensures
            final(self)@ == old(self)@.concat(other@),
    {
        proof {
            lemma_concat_slots(old(self)@, other@);
        }
        self.valid.extend(&other.valid);
        let start: usize = self.data.len();
        self.data.extend_from_slice(other.data.as_slice());
        proof {
            assert forall|i: int|
                0 <= i < self.data@.len() implies #[trigger] self.data@[i] == (old(self).data@
                + other.data@)[i] by {
                if i >= old(self).data@.len() {
                    assert(vstd::pervasive::cloned::<u8>(
                        other.data@[i - old(self).data@.len()],
                        self.data@[i],
                    ));
                }
            }
            assert(self.data@ =~= old(self).data@ + other.data@);
        }
        let entry_count: usize = other.offset.len();
        let mut j: usize = 1;
        while j < entry_count
            invariant
                old(self)@.wf(),
                other@.wf(),
                old(self).appendable(other),
                entry_count == other.offset@.len(),
                1 <= j <= entry_count,
                start == old(self).data@.len(),
                bits_of(self.valid) == bits_of(old(self).valid) + bits_of(other.valid),
                self.data@ == old(self).data@ + other.data@,
                self.offset@.len() == old(self).offset@.len() + j - 1,
                forall|k: int|
                    0 <= k < old(self).offset@.len() ==> #[trigger] self.offset@[k] == old(
                        self,
                    ).offset@[k],
                forall|k: int|
                    0 <= k < j - 1 ==> #[trigger] self.offset@[old(self).offset@.len() + k]
                        == start + other.offset@[1 + k],
            decreases entry_count - j,
        {
            proof {
                lemma_wf_offsets_bounded(other@, j as int, other@.slot_count() as int);
            }
            let o: usize = other.offset[j];
            self.offset.push(start + o);
            j = j + 1;
        }
        proof {
            let target = old(self)@.concat(other@);
            assert forall|k: int|
                0 <= k < self@.offsets.len() implies #[trigger] self@.offsets[k]
                == target.offsets[k] by {
                lemma_concat_offsets(old(self)@, other@, k);
                if k >= old(self).offset@.len() {
                    let t = k - old(self).offset@.len();
                    assert(self.offset@[old(self).offset@.len() + t] == start + other.offset@[1
                        + t]);
                }
            }
            assert(self@.offsets =~= target.offsets);
            assert(self@ == target);
        }
    }

    fn finish(self) -> (r: Utf8Array)
        ensures
            r@ == self@,
    {
        Utf8Array { offset: self.offset, valid: self.valid, data: self.data }
    }
}

/// The byte width one optional string contributes to the data buffer.
pub open spec fn slot_width(v: Option<String>) -> nat {
    match v {
        Some(s) => encode_utf8(s@).len(),
        None => 0,
    }
}

/// The total byte width a sequence of optional strings contributes.
pub open spec fn total_width(values: Seq<Option<String>>) -> nat
    decreases values.len(),
{
    if values.len() == 0 {
        0
    } else {
        total_width(values.drop_last()) + slot_width(values.last())
    }
}

/// The slot sequence a sequence of optional strings denotes.
pub open spec fn string_slots(values: Seq<Option<String>>) -> Seq<Option<Seq<u8>>> {
    values.map_values(
        |v: Option<String>|
            match v {
                Some(s) => Some(encode_utf8(s@)),
                None => None,
            },
    )
}

proof fn lemma_total_width_take(values: Seq<Option<String>>, i: int)
    requires
        0 <= i <= values.len(),
    ensures
        total_width(values.take(i)) <= total_width(values),
    decreases values.len() - i,
{
    if i == values.len() {
        assert(values.take(i) =~= values);
    } else {
        lemma_total_width_take(values, i + 1);
        assert(values.take(i + 1).drop_last() =~= values.take(i));
        assert(values.take(i + 1).last() == values[i]);
    }
}

impl Utf8Array {
    /// Builds a string column by pushing every element of `values` in order:
    /// a present string becomes a valid slot holding its bytes, an absent one
    /// a null slot. The sequence length serves only as a preallocation hint.
    pub fn from_iter(values: &Vec<Option<String>>) -> (r: Utf8Array)
        requires
            values@.len() <= bitmap_limit(),
            total_width(values@) < usize::MAX,
        ensures
            r.inv(),
            r.model() == string_slots(values@),
    {
        let mut builder = Utf8ArrayBuilder::with_capacity(values.len());
        let n: usize = values.len();
        let mut i: usize = 0;
        while i < n
            invariant
                n == values@.len(),
                values@.len() <= bitmap_limit(),
                total_width(values@) < usize::MAX,
                i <= n,
                builder.inv(),
                builder.model() == string_slots(values@.take(i as int)),
                builder@.data.len() == total_width(values@.take(i as int)),
            decreases n - i,
        {
            proof {
                lemma_total_width_take(values@, i + 1);
                assert(values@.take(i + 1).drop_last() =~= values@.take(i as int));
                assert(values@.take(i + 1).last() == values@[i as int]);
                assert(builder.model().len() == i as nat);
                assert(builder@.slot_count() == i as nat);
                assert(builder@.data.len() + slot_width(values@[i as int]) < usize::MAX);
            }
            match values[i].as_ref() {
                Some(s) => builder.push(Some(s.as_str())),
                None => builder.push(None),
            }
            proof {
                assert(string_slots(values@.take(i + 1)) =~= string_slots(
                    values@.take(i as int),
                ).push(
                    match values@[i as int] {
                        Some(s) => Some(encode_utf8(s@)),
                        None => None,
                    },
                ));
            }
            i = i + 1;
        }
        proof {
            assert(values@.take(n as int) =~= values@);
        }
        builder.finish()
    }
}

/// The column a raw buffer triple denotes.
pub open spec fn raw_column(offsets: Seq<usize>, valid: Seq<bool>, data: Seq<u8>) -> StrColumn {
    StrColumn { offsets: offsets.map_values(|x: usize| x as int), valid, data }
}

impl Utf8Array {
    /// Reassembles a string column from its three persisted buffers, as the
    /// persistence boundary hands them back. Succeeds exactly when the
    /// buffers are well-formed (and the bitmap fits its backing store), and
    /// then every read of the result is byte-identical to the array the
    /// buffers were taken from.
    #[verifier::rlimit(100)]
    #[verifier::spinoff_prover]
    pub fn from_buffers(offset: Vec<usize>, valid_bits: &Vec<bool>, data: Vec<u8>) -> (r: Option<
        Utf8Array,
    >)
        ensures
            r is Some <==> (raw_column(offset@, valid_bits@, data@).wf() && valid_bits@.len()
                <= bitmap_limit()),
            r matches Some(a) ==> a@ == raw_column(offset@, valid_bits@, data@),
    {
        let ghost c = raw_column(offset@, valid_bits@, data@);
        let n: usize = valid_bits.len();
        let bound: usize = usize::MAX / 8;
        if n > bound {
            return None;
        }
        if offset.len() != n + 1 {
            return None;
        }
        if offset[0] != 0 {
            return None;
        }
        if offset[n] != data.len() {
            return None;
        }
        let mut i: usize = 0;
        while i < n
            invariant
                c == raw_column(offset@, valid_bits@, data@),
                n == valid_bits@.len(),
                offset@.len() == n + 1,
                c.offsets[0] == 0,
                c.offsets[n as int] == data@.len(),
                i <= n,
                forall|k: int| 0 <= k < i ==> #[trigger] c.offsets[k] <= c.offsets[k + 1],
                forall|k: int| 0 <= k < i ==> #[trigger] c.offsets[k + 1] <= data@.len(),
                forall|k: int|
                    0 <= k < i && !c.valid[k] ==> #[trigger] c.offsets[k] == c.offsets[k + 1],
                forall|k: int|
                    0 <= k < i && c.valid[k] ==> valid_utf8(#[trigger] c.slot_bytes(k)),
            decreases n - i,
        {
            let lo: usize = offset[i];
            let hi: usize = offset[i + 1];
            proof {
                assert(c.offsets[i as int] == lo as int);
                assert(c.offsets[i + 1] == hi as int);
            }
            if lo > hi || hi > data.len() {
                proof {
                    if c.wf() {
                        lemma_wf_offsets_bounded(c, i + 1, n as int);
                        assert(false);
                    }
                }
                return None;
            }
            if valid_bits[i] {
                let bytes: &[u8] = slice_subrange(data.as_slice(), lo, hi);
                proof {
                    assert(c.slot_bytes(i as int) == bytes@);
                }
                if bytes_as_str(bytes).is_none() {
                    proof {
                        if c.wf() {
                            assert(valid_utf8(c.slot_bytes(i as int)));
                            assert(false);
                        }
                    }
                    return None;
                }
            } else {
                if lo != hi {
                    proof {
                        if c.wf() {
                            assert(c.offsets[i as int] == c.offsets[i + 1]);
                            assert(false);
                        }
                    }
                    return None;
                }
            }
            i = i + 1;
        }
        proof {
            assert(c.wf());
        }
        let mut bitmap = Bitmap::with_capacity(n);
        let mut j: usize = 0;
        while j < n
            invariant
                n == valid_bits@.len(),
                n as nat <= bitmap_limit(),
                j <= n,
                bits_of(bitmap) == valid_bits@.subrange(0, j as int),
            decreases n - j,
        {
            bitmap.push(valid_bits[j]);
            proof {
                assert(bits_of(bitmap) =~= valid_bits@.subrange(0, j + 1));
            }
            j = j + 1;
        }
        proof {
            assert(bits_of(bitmap) =~= valid_bits@);
        }
        let array = Utf8Array { offset, valid: bitmap, data };
        proof {
            assert(array@ == c);
        }
        Some(array)
    }
}

/// The byte width of each valid slot among the first `n`, summed; null slots
/// contribute nothing.
pub open spec fn valid_width_sum(c: StrColumn, n: int) -> int
    decreases n,
{
    if n <= 0 {
        0
    } else {
        valid_width_sum(c, n - 1) + if c.valid[n - 1] {
            c.offsets[n] - c.offsets[n - 1]
        } else {
            0
        }
    }
}

proof fn lemma_valid_width_sum_prefix(c: StrColumn, n: int)
    requires
        c.wf(),
        0 <= n <= c.slot_count(),
    ensures
        valid_width_sum(c, n) == c.offsets[n],
    decreases n,
{
    if n > 0 {
        lemma_valid_width_sum_prefix(c, n - 1);
    }
}

/// In every well-formed column — so in every finished array, whatever mix of
/// pushes and appends built it — the offset vector is non-decreasing, has one
/// entry more than there are slots, and the widths of the valid slots sum to
/// exactly the data buffer's length.
pub proof fn lemma_offsets_account_for_data(c: StrColumn)
    requires
        c.wf(),
    ensures
        c.offsets.len() == c.slot_count() + 1,
        forall|i: int, j: int|
            0 <= i <= j <= c.slot_count() ==> #[trigger] c.offsets[i] <= #[trigger] c.offsets[j],
        valid_width_sum(c, c.slot_count() as int) == c.data.len(),
{
    lemma_valid_width_sum_prefix(c, c.slot_count() as int);
    assert forall|i: int, j: int|
        0 <= i <= j <= c.slot_count() implies #[trigger] c.offsets[i] <= #[trigger] c.offsets[j] by {
        lemma_wf_offsets_monotone(c, i, j);
    }
}

} // verus!
