use hexers::{nibbles, ByteSource, DoubleEndedByteSource, Hexers, Nibbles, SliceBytes};

fn drain_front<T: ByteSource>(it: &mut Nibbles<T>) -> Vec<u8> {
    let mut out = Vec::new();
    while let Some(nibble) = it.next() {
        out.push(nibble);
    }
    out
}

fn drain_back<T: DoubleEndedByteSource>(it: &mut Nibbles<T>) -> Vec<u8> {
    let mut out = Vec::new();
    while let Some(nibble) = it.next_back() {
        out.push(nibble);
    }
    out
}

#[test]
fn nibbles_come_high_before_low() {
    let bytes = [0xbe, 0xef];
    let mut it = SliceBytes::new(&bytes).nibbles();

    assert_eq!(it.next(), Some(0xb));
    assert_eq!(it.next(), Some(0xe));
    assert_eq!(it.next(), Some(0xe));
    assert_eq!(it.next(), Some(0xf));
    assert_eq!(it.next(), None);
}

#[test]
fn nibbles_from_the_back_come_low_before_high() {
    let bytes = [0xbe, 0xef];
    let mut it = Nibbles::from(SliceBytes::new(&bytes));

    assert_eq!(drain_back(&mut it), vec![0xf, 0xe, 0xe, 0xb]);
}

#[test]
fn no_bytes_give_no_nibbles() {
    let bytes: [u8; 0] = [];
    let mut it = Nibbles::from(SliceBytes::new(&bytes));
    assert_eq!(it.next(), None);
    assert_eq!(it.next_back(), None);
    assert_eq!(it.next(), None);

    let mut it = Nibbles::from(7..7);
    assert_eq!(it.next_back(), None);
    assert_eq!(it.next(), None);
}

#[test]
fn one_byte_is_shared_between_the_ends() {
    let bytes = [0xa5];

    let mut it = Nibbles::from(SliceBytes::new(&bytes));
    assert_eq!(it.next(), Some(0xa));
    assert_eq!(it.next_back(), Some(0x5));
    assert_eq!(it.next(), None);
    assert_eq!(it.next_back(), None);

    let mut it = Nibbles::from(SliceBytes::new(&bytes));
    assert_eq!(it.next_back(), Some(0x5));
    assert_eq!(it.next(), Some(0xa));
    assert_eq!(it.next_back(), None);
    assert_eq!(it.next(), None);
}

#[test]
fn the_front_takes_what_the_back_left_of_the_last_byte() {
    let bytes = [0x12, 0x34];
    let mut it = Nibbles::from(SliceBytes::new(&bytes));

    assert_eq!(it.next_back(), Some(0x4));
    assert_eq!(it.next(), Some(0x1));
    assert_eq!(it.next(), Some(0x2));
    assert_eq!(it.next(), Some(0x3));
    assert_eq!(it.next(), None);
    assert_eq!(it.next_back(), None);
}

#[test]
fn the_back_takes_what_the_front_left_of_the_last_byte() {
    let bytes = [0x12, 0x34];
    let mut it = Nibbles::from(SliceBytes::new(&bytes));

    assert_eq!(it.next(), Some(0x1));
    assert_eq!(it.next_back(), Some(0x4));
    assert_eq!(it.next_back(), Some(0x3));
    assert_eq!(it.next_back(), Some(0x2));
    assert_eq!(it.next_back(), None);
    assert_eq!(it.next(), None);
}

#[test]
fn nibbles_can_be_consumed_from_both_ends() {
    let bytes = [0xde, 0xad, 0xbe, 0xef];
    let mut it = Nibbles::from(SliceBytes::new(&bytes));

    assert_eq!(it.next(), Some(0xd));
    assert_eq!(it.next(), Some(0xe));
    assert_eq!(it.next(), Some(0xa));
    assert_eq!(drain_back(&mut it), vec![0xf, 0xe, 0xe, 0xb, 0xd]);
    assert_eq!(it.next(), None);
}

#[test]
fn nibbles_of_a_range() {
    let mut it = (0xfe..0xff).nibbles();
    assert_eq!(drain_front(&mut it), vec![0xf, 0xe]);

    let mut it = Nibbles::from(10..12);
    assert_eq!(it.next(), Some(0x0));
    assert_eq!(drain_back(&mut it), vec![0xb, 0x0, 0xa]);
}

#[test]
fn nibbles_takes_what_turns_into_a_source() {
    let bytes = vec![0xbe, 0xef];
    assert_eq!(drain_front(&mut nibbles(&bytes)), vec![0xb, 0xe, 0xe, 0xf]);
    assert_eq!(drain_front(&mut nibbles(&bytes[1..])), vec![0xe, 0xf]);
    assert_eq!(drain_front(&mut nibbles(&[0x01, 0x23])), vec![0, 1, 2, 3]);
    assert_eq!(drain_front(&mut nibbles(b"A")), vec![4, 1]);
    assert_eq!(drain_front(&mut nibbles(0x10..0x12)), vec![1, 0, 1, 1]);
    assert_eq!(drain_front(&mut nibbles(SliceBytes::new(&bytes))), vec![0xb, 0xe, 0xe, 0xf]);
}

#[test]
fn size_hint_is_twice_that_of_the_source() {
    let bytes = [0xde, 0xad, 0xbe, 0xef];
    let mut it = Nibbles::from(SliceBytes::new(&bytes));
    assert_eq!(it.size_hint(), (8, Some(8)));
    assert_eq!(it.checked_size_hint(), Some((8, Some(8))));

    it.next();
    assert_eq!(it.size_hint(), (6, Some(6)));
    it.next();
    assert_eq!(it.size_hint(), (6, Some(6)));
    it.next_back();
    assert_eq!(it.size_hint(), (4, Some(4)));
    it.next();
    assert_eq!(it.checked_size_hint(), Some((2, Some(2))));

    let empty = Nibbles::from(3..3);
    assert_eq!(empty.size_hint(), (0, Some(0)));
    let whole = Nibbles::from(0..255);
    assert_eq!(whole.size_hint(), (510, Some(510)));
}

#[test]
fn bytes_are_read_one_at_a_time() {
    let mut source = 0x10..0x14;

    let mut it = Nibbles::from(&mut source);
    assert_eq!(it.next(), Some(1));
    drop(it);
    assert_eq!(source, 0x11..0x14);

    let mut it = Nibbles::from(&mut source);
    assert_eq!(it.next(), Some(1));
    assert_eq!(it.next(), Some(1));
    drop(it);
    assert_eq!(source, 0x12..0x14);

    let mut it = Nibbles::from(&mut source);
    assert_eq!(it.next_back(), Some(3));
    assert_eq!(it.next(), Some(1));
    assert_eq!(it.next(), Some(2));
    assert_eq!(it.next_back(), Some(1));
    drop(it);
    assert_eq!(source, 0x13..0x13);
}

#[test]
fn nothing_is_read_before_the_first_pull() {
    let mut source = 0x10..0x14;
    let it = Nibbles::from(&mut source);
    drop(it);
    assert_eq!(source, 0x10..0x14);
}

#[test]
fn a_clone_goes_its_own_way() {
    let bytes = [0xde, 0xad];
    let mut it = Nibbles::from(SliceBytes::new(&bytes));
    assert_eq!(it.next(), Some(0xd));

    let mut copy = it.clone();
    assert_eq!(drain_front(&mut copy), vec![0xe, 0xa, 0xd]);
    assert_eq!(drain_back(&mut it), vec![0xd, 0xa, 0xe]);
}
