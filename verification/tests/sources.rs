use hexers::{ByteSource, DoubleEndedByteSource, IntoByteSource, SliceBytes};

#[test]
fn a_slice_source_produces_the_slice() {
    let bytes = [1, 2, 3];
    let mut source = SliceBytes::new(&bytes);

    assert_eq!(source.size_hint(), (3, Some(3)));
    assert_eq!(source.next_byte(), Some(1));
    assert_eq!(source.next_byte_back(), Some(3));
    assert_eq!(source.size_hint(), (1, Some(1)));
    assert_eq!(source.next_byte_back(), Some(2));
    assert_eq!(source.next_byte(), None);
    assert_eq!(source.next_byte_back(), None);
    assert_eq!(source.size_hint(), (0, Some(0)));
}

#[test]
fn an_empty_slice_source_produces_nothing() {
    let mut source = SliceBytes::new(&[]);
    assert_eq!(source.size_hint(), (0, Some(0)));
    assert_eq!(source.next_byte(), None);
    assert_eq!(source.next_byte_back(), None);
}

#[test]
fn a_cloned_slice_source_has_the_same_bytes_pending() {
    let bytes = [1, 2, 3];
    let mut source = SliceBytes::new(&bytes);
    assert_eq!(source.next_byte(), Some(1));

    let mut copy = source.clone();
    assert_eq!(copy.next_byte(), Some(2));
    assert_eq!(copy.next_byte(), Some(3));
    assert_eq!(copy.next_byte(), None);
    assert_eq!(source.next_byte_back(), Some(3));
    assert_eq!(source.next_byte_back(), Some(2));
    assert_eq!(source.next_byte_back(), None);
}

#[test]
fn a_range_source_counts_up_and_down() {
    let mut source = 250u8..255;

    assert_eq!(ByteSource::size_hint(&source), (5, Some(5)));
    assert_eq!(source.next_byte(), Some(250));
    assert_eq!(source.next_byte_back(), Some(254));
    assert_eq!(source, 251..254);
    assert_eq!(source.next_byte(), Some(251));
    assert_eq!(source.next_byte(), Some(252));
    assert_eq!(source.next_byte(), Some(253));
    assert_eq!(source.next_byte(), None);
    assert_eq!(source.next_byte_back(), None);
    assert_eq!(ByteSource::size_hint(&source), (0, Some(0)));
}

#[test]
fn a_range_source_agrees_with_the_range() {
    for start in [0u8, 1, 100, 254, 255] {
        for end in [0u8, 1, 100, 254, 255] {
            let mut source = start..end;
            let mut seen = Vec::new();
            while let Some(byte) = source.next_byte() {
                seen.push(byte);
            }
            assert_eq!(seen, (start..end).collect::<Vec<u8>>());

            let mut source = start..end;
            let mut seen = Vec::new();
            while let Some(byte) = source.next_byte_back() {
                seen.push(byte);
            }
            assert_eq!(seen, (start..end).rev().collect::<Vec<u8>>());
        }
    }
}

#[test]
fn a_backward_range_is_empty() {
    let mut source = 9u8..3;
    assert_eq!(ByteSource::size_hint(&source), (0, Some(0)));
    assert_eq!(source.next_byte(), None);
    assert_eq!(source.next_byte_back(), None);
    assert_eq!(source, 9..3);
}

#[test]
fn a_lent_source_is_read_in_place() {
    let bytes = [1, 2, 3];
    let mut source = SliceBytes::new(&bytes);
    {
        let mut lent = &mut source;
        assert_eq!(lent.size_hint(), (3, Some(3)));
        assert_eq!(lent.next_byte(), Some(1));
        assert_eq!(lent.next_byte_back(), Some(3));
    }
    assert_eq!(source.next_byte(), Some(2));
    assert_eq!(source.next_byte(), None);
}

#[test]
fn slices_vectors_and_arrays_turn_into_sources() {
    let bytes = vec![7, 8];

    let mut source = bytes.as_slice().into_source();
    assert_eq!(source.next_byte(), Some(7));
    assert_eq!(source.next_byte(), Some(8));
    assert_eq!(source.next_byte(), None);

    let mut source = (&bytes).into_source();
    assert_eq!(source.next_byte_back(), Some(8));
    assert_eq!(source.next_byte_back(), Some(7));
    assert_eq!(source.next_byte_back(), None);

    let mut source = (&[5u8, 6]).into_source();
    assert_eq!(source.next_byte(), Some(5));
    assert_eq!(source.next_byte_back(), Some(6));
    assert_eq!(source.next_byte(), None);
}

#[test]
fn a_source_turns_into_itself() {
    let mut source = (3u8..5).into_source();
    assert_eq!(source, 3..5);
    assert_eq!(source.next_byte(), Some(3));

    let bytes = [1, 2];
    let mut source = SliceBytes::new(&bytes).into_source();
    assert_eq!(source.next_byte(), Some(1));
}
