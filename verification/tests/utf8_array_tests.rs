use columnar::array::{Array, ArrayBuilder};
use columnar::iterator::ArrayIter;
use columnar::utf8_array::{Utf8Array, Utf8ArrayBuilder};

#[test]
fn test_utf8_builder() {
    let mut builder = Utf8ArrayBuilder::with_capacity(100);
    for i in 0..100 {
        if i % 2 == 0 {
            builder.push(Some(&format!("{}", i)));
        } else {
            builder.push(None);
        }
    }
    builder.finish();
}

#[test]
fn push_then_get_round_trips() {
    let mut builder = Utf8ArrayBuilder::with_capacity(0);
    builder.push(Some("hello"));
    builder.push(None);
    builder.push(Some(""));
    builder.push(Some("wörld"));
    let array = builder.finish();
    assert_eq!(array.len(), 4);
    assert_eq!(array.get(0), Some("hello"));
    assert_eq!(array.get(1), None);
    assert_eq!(array.get(2), Some(""));
    assert_eq!(array.get(3), Some("wörld"));
}

#[test]
fn null_slots_have_zero_width() {
    // Pushing None, Some("a"), None, Some("bc") yields exactly these buffers.
    let mut builder = Utf8ArrayBuilder::with_capacity(4);
    builder.push(None);
    builder.push(Some("a"));
    builder.push(None);
    builder.push(Some("bc"));
    let array = builder.finish();
    assert_eq!(array.len(), 4);
    assert_eq!(array.get(0), None);
    assert_eq!(array.get(1), Some("a"));
    assert_eq!(array.get(2), None);
    assert_eq!(array.get(3), Some("bc"));
    assert_eq!(array.offsets().as_slice(), &[0, 0, 1, 1, 3]);
    let bits = array.get_valid_bitmap().to_bools();
    assert_eq!(bits.len(), 4);
    assert_eq!(bits, vec![false, true, false, true]);
    assert_eq!(array.data_buffer().len(), 3);
    assert_eq!(array.data_buffer().as_slice(), b"abc");
}

#[test]
fn append_rebases_offsets() {
    // Two columns [Some("x"), None] and [None, Some("yz")], the second
    // appended into the first, give the four slots with re-based offsets.
    let mut first = Utf8ArrayBuilder::with_capacity(2);
    first.push(Some("x"));
    first.push(None);
    let mut second = Utf8ArrayBuilder::with_capacity(2);
    second.push(None);
    second.push(Some("yz"));
    let second_array = second.finish();
    first.append(&second_array);
    let array = first.finish();
    assert_eq!(array.len(), 4);
    assert_eq!(array.get(0), Some("x"));
    assert_eq!(array.get(1), None);
    assert_eq!(array.get(2), None);
    assert_eq!(array.get(3), Some("yz"));
    assert_eq!(array.offsets().as_slice(), &[0, 1, 1, 1, 3]);
}

#[test]
fn append_equals_individual_pushes() {
    let mut source = Utf8ArrayBuilder::with_capacity(3);
    source.push(Some("ab"));
    source.push(None);
    source.push(Some("cde"));
    let source_array = source.finish();

    let mut by_append = Utf8ArrayBuilder::with_capacity(0);
    by_append.append(&source_array);
    let appended = by_append.finish();

    let mut by_push = Utf8ArrayBuilder::with_capacity(0);
    for i in 0..source_array.len() {
        by_push.push(source_array.get(i));
    }
    let pushed = by_push.finish();

    assert_eq!(appended.len(), pushed.len());
    for i in 0..appended.len() {
        assert_eq!(appended.get(i), pushed.get(i));
    }
    assert_eq!(appended.offsets(), pushed.offsets());
    assert_eq!(appended.data_buffer(), pushed.data_buffer());
    assert_eq!(
        appended.get_valid_bitmap().to_bools(),
        pushed.get_valid_bitmap().to_bools()
    );
}

#[test]
fn offsets_account_for_data() {
    let mut builder = Utf8ArrayBuilder::with_capacity(5);
    builder.push(Some("aa"));
    builder.push(None);
    builder.push(Some("b"));
    builder.push(None);
    builder.push(Some("cccc"));
    let array = builder.finish();
    let offsets = array.offsets();
    assert_eq!(offsets.len(), array.len() + 1);
    let bits = array.get_valid_bitmap().to_bools();
    let mut sum: usize = 0;
    for i in 0..array.len() {
        assert!(offsets[i] <= offsets[i + 1]);
        if bits[i] {
            sum += offsets[i + 1] - offsets[i];
        }
    }
    assert_eq!(sum, array.data_buffer().len());
}

#[test]
fn estimated_size_is_monotone() {
    let values = [
        Some("a"),
        None,
        Some("bbbb"),
        None,
        None,
        Some(""),
        Some("cc"),
    ];
    let mut last: usize = 0;
    for prefix in 0..=values.len() {
        let mut builder = Utf8ArrayBuilder::with_capacity(prefix);
        for v in values.iter().take(prefix) {
            builder.push(*v);
        }
        let size = builder.finish().get_estimated_size();
        assert!(size >= last);
        last = size;
    }
}

#[test]
fn from_iter_pushes_in_order() {
    let values = vec![
        None,
        Some("one".to_string()),
        Some(String::new()),
        None,
        Some("two".to_string()),
    ];
    let array = Utf8Array::from_iter(&values);
    assert_eq!(array.len(), 5);
    assert_eq!(array.get(0), None);
    assert_eq!(array.get(1), Some("one"));
    assert_eq!(array.get(2), Some(""));
    assert_eq!(array.get(3), None);
    assert_eq!(array.get(4), Some("two"));
}

#[test]
fn iterator_yields_every_slot_in_order() {
    let mut builder = Utf8ArrayBuilder::with_capacity(3);
    builder.push(Some("a"));
    builder.push(None);
    builder.push(Some("b"));
    let array = builder.finish();
    let mut iter = ArrayIter::new(&array);
    assert_eq!(iter.next(), Some(Some("a")));
    let mut copy = iter.clone();
    assert_eq!(iter.next(), Some(None));
    assert_eq!(iter.next(), Some(Some("b")));
    assert_eq!(iter.next(), None);
    assert_eq!(iter.next(), None);
    // The clone kept only its cursor position.
    assert_eq!(copy.next(), Some(None));
    assert_eq!(copy.next(), Some(Some("b")));
    assert_eq!(copy.next(), None);
}

#[test]
fn from_buffers_round_trips() {
    let mut builder = Utf8ArrayBuilder::with_capacity(3);
    builder.push(Some("ab"));
    builder.push(None);
    builder.push(Some("c"));
    let array = builder.finish();
    let restored = Utf8Array::from_buffers(
        array.offsets().clone(),
        &array.get_valid_bitmap().to_bools(),
        array.data_buffer().clone(),
    )
    .expect("well-formed buffers restore");
    assert_eq!(restored.len(), array.len());
    for i in 0..array.len() {
        assert_eq!(restored.get(i), array.get(i));
    }
}

#[test]
fn from_buffers_rejects_corrupt_input() {
    // Offset vector of the wrong length.
    assert!(Utf8Array::from_buffers(vec![0], &vec![true], vec![b'a']).is_none());
    // Offsets not starting at zero.
    assert!(Utf8Array::from_buffers(vec![1, 1], &vec![false], Vec::new()).is_none());
    // Offsets not ending at the data length.
    assert!(Utf8Array::from_buffers(vec![0, 0], &vec![false], vec![b'a']).is_none());
    // Decreasing offsets.
    assert!(Utf8Array::from_buffers(vec![0, 2, 1, 3], &vec![true, true, true], vec![b'a'; 3]).is_none());
    // A null slot with a non-empty range.
    assert!(Utf8Array::from_buffers(vec![0, 1], &vec![false], vec![b'a']).is_none());
    // A valid slot holding bytes that are not UTF-8.
    assert!(Utf8Array::from_buffers(vec![0, 2], &vec![true], vec![0xC0, 0x80]).is_none());
    // The same bytes under a well-formed triple succeed.
    let ok = Utf8Array::from_buffers(vec![0, 1], &vec![true], vec![b'a']);
    assert_eq!(ok.expect("well-formed").get(0), Some("a"));
}

#[test]
fn cloned_array_reads_identically() {
    let mut builder = Utf8ArrayBuilder::with_capacity(2);
    builder.push(Some("abc"));
    builder.push(None);
    let array = builder.finish();
    let copy = array.clone();
    assert_eq!(copy.len(), array.len());
    assert_eq!(copy.get(0), Some("abc"));
    assert_eq!(copy.get(1), None);
    assert_eq!(copy.get_valid_bitmap().to_bools(), vec![true, false]);
}
