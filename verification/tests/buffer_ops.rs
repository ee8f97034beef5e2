use mbuf::MBuf;

#[test]
fn test_mbuf_all_operations() {
    let mut mbuf = MBuf::new(1);
    mbuf.append(b"Hello, world!").unwrap();
    assert_eq!(mbuf.data(), b"Hello, world!");

    mbuf.set_data(b"Hello, world!");
    assert_eq!(mbuf.data(), b"Hello, world!");

    mbuf.clear();
    assert_eq!(mbuf.data(), b"");

    mbuf.append(b"Hello, world!").expect("TODO: panic message");
    let data = mbuf.data_mut();
    data[0] = b'h';
    assert_eq!(mbuf.data(), b"hello, world!")
}

#[test]
fn new_buffer_is_empty() {
    let b = MBuf::new(5);
    assert_eq!(b.capacity(), 5);
    assert_eq!(b.length(), 0);
    assert_eq!(b.position(), 0);
    assert_eq!(b.data().len(), 0);
}

#[test]
fn appends_within_capacity_do_not_grow() {
    let mut b = MBuf::new(10);
    b.append(b"ab").unwrap();
    b.append(b"cd").unwrap();
    b.append(b"ef").unwrap();
    assert_eq!(b.capacity(), 10);
    assert_eq!(b.data(), b"abcdef");
}

#[test]
fn append_grows_by_exactly_incoming_size() {
    let mut b = MBuf::new(4);
    b.append(b"abc").unwrap();
    assert_eq!(b.capacity(), 4);
    b.append(b"defg").unwrap();
    assert_eq!(b.capacity(), 8);
    assert_eq!(b.data(), b"abcdefg");
}

#[test]
fn growth_from_one_byte_scenario() {
    let mut b = MBuf::new(1);
    b.append(b"Hello, world!").unwrap();
    assert_eq!(b.capacity(), 14);
    assert_eq!(b.data(), b"Hello, world!");
}

#[test]
fn clear_empties_and_next_append_starts_at_front() {
    let mut b = MBuf::new(8);
    b.append(b"abcdef").unwrap();
    b.clear();
    assert_eq!(b.data(), b"");
    assert_eq!(b.length(), 0);
    assert_eq!(b.position(), 0);
    assert_eq!(b.capacity(), 8);
    b.append(b"xy").unwrap();
    assert_eq!(b.data(), b"xy");
}

#[test]
fn set_data_overwrites_and_resets_position() {
    let mut b = MBuf::new(16);
    b.append(b"old contents").unwrap();
    b.set_data(b"new");
    assert_eq!(b.data(), b"new");
    assert_eq!(b.length(), 3);
    assert_eq!(b.position(), 0);
    assert_eq!(b.capacity(), 16);
}

#[test]
fn data_mut_of_empty_buffer_is_empty() {
    let mut b = MBuf::new(4);
    assert_eq!(b.data_mut().len(), 0);
}

#[test]
fn data_mut_edits_only_valid_bytes() {
    let mut b = MBuf::new(8);
    b.append(b"abcd").unwrap();
    let view = b.data_mut();
    assert_eq!(view.len(), 4);
    view[3] = b'z';
    assert_eq!(b.data(), b"abcz");
    assert_eq!(b.capacity(), 8);
}
