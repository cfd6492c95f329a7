use columnar::array::{Array, ArrayBuilder};
use columnar::iterator::ArrayIter;
use columnar::row_handler::{RowHandler, RowHandlerSequencer};
use columnar::u64_array::{U64Array, U64ArrayBuilder};

#[test]
fn pack_places_segment_in_high_half() {
    assert_eq!(RowHandler::new(5, 10).pack(), (5u64 << 32) | 10);
    assert_eq!(RowHandler::new(0, 0).pack(), 0);
    assert_eq!(RowHandler::new(1, 0).pack(), 1u64 << 32);
    assert_eq!(RowHandler::new(0, u32::MAX).pack(), u32::MAX as u64);
    assert_eq!(RowHandler::new(u32::MAX, u32::MAX).pack(), u64::MAX);
}

#[test]
fn unpack_inverts_pack() {
    let pairs = [
        (0u32, 0u32),
        (5, 10),
        (0, u32::MAX),
        (u32::MAX, 0),
        (u32::MAX, u32::MAX),
        (123456, 654321),
    ];
    for (segment_id, row_offset) in pairs {
        let handler = RowHandler::new(segment_id, row_offset);
        let unpacked = RowHandler::unpack(handler.pack());
        assert_eq!(unpacked, handler);
    }
}

#[test]
fn packed_order_is_lexicographic() {
    assert!(RowHandler::new(1, 5).pack() < RowHandler::new(1, 6).pack());
    assert!(RowHandler::new(1, u32::MAX).pack() < RowHandler::new(2, 0).pack());
    assert!(RowHandler::new(2, 0).pack() > RowHandler::new(1, 99).pack());
    assert_eq!(RowHandler::new(7, 7).pack(), RowHandler::new(7, 7).pack());
}

#[test]
fn sequence_emits_consecutive_identifiers() {
    // segment 5, starting at row offset 10, three rows.
    let array = RowHandlerSequencer::sequence(5, 10, 3);
    assert_eq!(array.len(), 3);
    let expected = [
        RowHandler::new(5, 10).pack(),
        RowHandler::new(5, 11).pack(),
        RowHandler::new(5, 12).pack(),
    ];
    for i in 0..3 {
        assert_eq!(array.get(i), Some(&expected[i]));
    }
    assert!(expected[0] < expected[1] && expected[1] < expected[2]);
}

#[test]
fn sequence_of_zero_length_is_empty() {
    let array = RowHandlerSequencer::sequence(9, 42, 0);
    assert_eq!(array.len(), 0);
}

#[test]
fn u64_builder_round_trips() {
    let mut builder = U64ArrayBuilder::with_capacity(4);
    builder.push(Some(&7));
    builder.push(None);
    builder.push(Some(&u64::MAX));
    let array: U64Array = builder.finish();
    assert_eq!(array.len(), 3);
    assert_eq!(array.get(0), Some(&7));
    assert_eq!(array.get(1), None);
    assert_eq!(array.get(2), Some(&u64::MAX));
    assert_eq!(array.get_valid_bitmap().to_bools(), vec![true, false, true]);
}

#[test]
fn u64_append_preserves_slots() {
    let mut source = U64ArrayBuilder::with_capacity(2);
    source.push(None);
    source.push(Some(&11));
    let source_array = source.finish();
    let mut builder = U64ArrayBuilder::with_capacity(3);
    builder.push(Some(&3));
    builder.append(&source_array);
    let array = builder.finish();
    assert_eq!(array.len(), 3);
    assert_eq!(array.get(0), Some(&3));
    assert_eq!(array.get(1), None);
    assert_eq!(array.get(2), Some(&11));
}

#[test]
fn iterator_walks_identifier_array() {
    let array = RowHandlerSequencer::sequence(2, 0, 2);
    let mut iter = ArrayIter::new(&array);
    assert_eq!(iter.next(), Some(Some(&RowHandler::new(2, 0).pack())));
    assert_eq!(iter.next(), Some(Some(&RowHandler::new(2, 1).pack())));
    assert_eq!(iter.next(), None);
}
