//! Row identity: a (segment id, row offset) pair packed into one ordered
//! 64-bit integer, and the mass production of runs of such identifiers as a
//! fixed-width array.

use crate::array::{Array, ArrayBuilder};
use crate::u64_array::{U64Array, U64ArrayBuilder};
use vstd::prelude::*;

verus! {

/// A row's identity: a row offset within a segment.
#[derive(PartialEq, Eq, Structural, Clone, Copy, Debug)]
pub struct RowHandler {
    pub segment_id: u32,
    pub row_offset: u32,
}

/// The packed form of a (segment id, row offset) pair: segment id in the
/// high 32 bits, row offset in the low 32 bits.
pub open spec fn pack_spec(segment_id: u32, row_offset: u32) -> int {
    segment_id as int * 0x1_0000_0000 + row_offset as int
}

/// The packed form as the 64-bit value it always fits in.
pub open spec fn packed(segment_id: u32, row_offset: u32) -> u64 {
    pack_spec(segment_id, row_offset) as u64
}

impl RowHandler {
    pub fn new(segment_id: u32, row_offset: u32) -> (r: RowHandler)
        ensures
            r.segment_id == segment_id,
            r.row_offset == row_offset,
    {
        RowHandler { segment_id, row_offset }
    }

    /// Combine the pair into a single 64-bit identifier whose integer order
    /// is the lexicographic order on (segment id, row offset).
    pub fn pack(&self) -> (r: u64)
        ensures
            r == pack_spec(self.segment_id, self.row_offset),
    {
        let s: u64 = self.segment_id as u64;
        let o: u64 = self.row_offset as u64;
        let r: u64 = (s << 32u64) | o;
        proof {
            assert(r == s * 0x1_0000_0000 + o) by (bit_vector)
                requires
                    s < 0x1_0000_0000,
                    o < 0x1_0000_0000,
                    r == (s << 32u64) | o,
            ;
        }
        r
    }

    /// Recover the (segment id, row offset) pair a packed identifier encodes;
    /// the exact inverse of `pack`.
    pub fn unpack(packed_value: u64) -> (r: RowHandler)
        ensures
            pack_spec(r.segment_id, r.row_offset) == packed_value,
    {
        let s: u64 = packed_value >> 32u64;
        let o: u64 = packed_value & 0xFFFF_FFFFu64;
        proof {
            assert(s < 0x1_0000_0000 && o < 0x1_0000_0000 && (s * 0x1_0000_0000 + o
                == packed_value)) by (bit_vector)
                requires
                    s == packed_value >> 32u64,
                    o == packed_value & 0xFFFF_FFFFu64,
            ;
        }
        RowHandler { segment_id: s as u32, row_offset: o as u32 }
    }
}

/// Unpacking a packed pair gives back exactly that pair: packing is
/// invertible on every representable pair.
pub proof fn lemma_pack_invertible(a: RowHandler, b: RowHandler)
    requires
        pack_spec(a.segment_id, a.row_offset) == pack_spec(b.segment_id, b.row_offset),
    ensures
        a == b,
{
    assert(a.segment_id == b.segment_id && a.row_offset == b.row_offset) by (nonlinear_arith)
        requires
            a.segment_id as int * 0x1_0000_0000 + a.row_offset as int == b.segment_id as int
                * 0x1_0000_0000 + b.row_offset as int,
            a.segment_id < 0x1_0000_0000,
            b.segment_id < 0x1_0000_0000,
            a.row_offset < 0x1_0000_0000,
            b.row_offset < 0x1_0000_0000,
    ;
}

/// Packed identifiers order exactly as their pairs order lexicographically:
/// first by segment id, then by row offset.
pub proof fn lemma_pack_order(a: RowHandler, b: RowHandler)
    ensures
        pack_spec(a.segment_id, a.row_offset) < pack_spec(b.segment_id, b.row_offset) <==> (
        a.segment_id < b.segment_id || (a.segment_id == b.segment_id && a.row_offset
            < b.row_offset)),
{
    assert(((a.segment_id as int * 0x1_0000_0000 + a.row_offset as int) < (b.segment_id as int
        * 0x1_0000_0000 + b.row_offset as int)) <==> (a.segment_id < b.segment_id || (a.segment_id
        == b.segment_id && a.row_offset < b.row_offset))) by (nonlinear_arith)
        requires
            a.segment_id < 0x1_0000_0000,
            b.segment_id < 0x1_0000_0000,
            a.row_offset < 0x1_0000_0000,
            b.row_offset < 0x1_0000_0000,
    ;
}

/// Generates runs of row identifiers as a fixed-width array.
pub struct RowHandlerSequencer {}

impl RowHandlerSequencer {
    /// An array of exactly `length` packed identifiers for the row offsets
    /// `begin_row_id, begin_row_id + 1, ...` within `rowset_id`, in order,
    /// none of them null, each strictly greater than the one before it.
    pub fn sequence(rowset_id: u32, begin_row_id: u32, length: u32) -> (r: U64Array)
        requires
            begin_row_id as int + length as int <= 0x1_0000_0000,
            length as nat <= crate::bitmap::bitmap_limit(),
        ensures
            r.inv(),
            r.model().len() == length as nat,
            forall|i: int|
                0 <= i < length as int ==> r.model()[i] == Some(
                    packed(rowset_id, (begin_row_id + i) as u32),
                ),
            forall|i: int, j: int|
                0 <= i < j < length as int ==> r.model()[i]->0 < r.model()[j]->0,
    {
        let mut builder = U64ArrayBuilder::with_capacity(length as usize);
        let mut done: u32 = 0;
        while done < length
            invariant
                begin_row_id as int + length as int <= 0x1_0000_0000,
                length as nat <= crate::bitmap::bitmap_limit(),
                done <= length,
                builder.inv(),
                builder.model().len() == done as nat,
                forall|i: int|
                    0 <= i < done as int ==> builder.model()[i] == Some(
                        packed(rowset_id, (begin_row_id + i) as u32),
                    ),
            decreases length - done,
        {
            let item: u64 = RowHandler {
                segment_id: rowset_id,
                row_offset: begin_row_id + done,
            }.pack();
            builder.push(Some(&item));
            done = done + 1;
        }
        let r = builder.finish();
        proof {
            assert forall|i: int, j: int| 0 <= i < j < length as int implies r.model()[i]->0
                < r.model()[j]->0 by {
                lemma_pack_order(
                    RowHandler { segment_id: rowset_id, row_offset: (begin_row_id + i) as u32 },
                    RowHandler { segment_id: rowset_id, row_offset: (begin_row_id + j) as u32 },
                );
            }
        }
        r
    }
}

} // verus!
