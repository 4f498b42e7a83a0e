use cachecannon::buffer::{Buffer, BufferFull, BufferPair};

#[test]
fn test_buffer_basic() {
    let mut buf = Buffer::with_capacity(1024);

    assert_eq!(buf.capacity(), 1024);
    assert_eq!(buf.readable(), 0);
    assert_eq!(buf.writable(), 1024);
    assert!(buf.is_empty());

    buf.extend_from_slice(b"hello");
    assert_eq!(buf.readable(), 5);
    assert_eq!(buf.as_slice(), b"hello");

    buf.consume(2);
    assert_eq!(buf.readable(), 3);
    assert_eq!(buf.as_slice(), b"llo");
}

#[test]
fn test_buffer_compact() {
    let mut buf = Buffer::with_capacity(16);

    buf.extend_from_slice(b"hello world!");
    assert_eq!(buf.writable(), 4);

    buf.consume(6);
    assert_eq!(buf.as_slice(), b"world!");

    buf.compact();
    assert_eq!(buf.as_slice(), b"world!");
    assert_eq!(buf.writable(), 10);
}

#[test]
fn test_buffer_consume_all_resets() {
    let mut buf = Buffer::with_capacity(1024);

    buf.extend_from_slice(b"test");
    buf.consume(4);

    // Should auto-reset when all data consumed
    assert_eq!(buf.writable(), 1024);
}

#[test]
fn reading_into_a_full_buffer_is_refused() {
    let mut buf = Buffer::with_capacity(4);
    assert_eq!(buf.read_from(b"abcdef").ok(), Some(4));
    assert_eq!(buf.as_slice(), b"abcd");
    assert!(matches!(buf.read_from(b"x"), Err(BufferFull)));
    buf.consume(1);
    // The consumed byte is reclaimed.
    assert_eq!(buf.read_from(b"xyz").ok(), Some(1));
    assert_eq!(buf.as_slice(), b"bcdx");
}

#[test]
fn writing_out_consumes_what_was_written() {
    let mut buf = Buffer::with_capacity(8);
    buf.extend_from_slice(b"abcdef");
    let mut out = Vec::new();
    assert_eq!(buf.write_to(&mut out, 4), 4);
    assert_eq!(out, b"abcd");
    assert_eq!(buf.as_slice(), b"ef");
    assert_eq!(buf.write_to(&mut out, 100), 2);
    assert!(buf.is_empty());
    assert_eq!(buf.writable(), 8);
}

#[test]
fn the_spare_part_is_filled_and_advanced() {
    let mut buf = Buffer::with_capacity(4);
    buf.extend_from_slice(b"a");
    let spare = buf.spare_mut();
    assert_eq!(spare.len(), 3);
    spare[0] = b'b';
    buf.advance(1);
    assert_eq!(buf.as_slice(), b"ab");
    assert_eq!(buf.readable() + buf.writable(), 4);
}

#[test]
fn growing_keeps_the_contents() {
    let mut buf = Buffer::with_capacity(4);
    buf.extend_from_slice(b"abcd");
    buf.grow(10);
    assert!(buf.writable() >= 10);
    assert_eq!(buf.as_slice(), b"abcd");
    buf.clear();
    assert!(buf.is_empty());
}

#[test]
fn a_pair_has_two_buffers() {
    let pair = BufferPair::with_capacity(8, 16);
    assert_eq!(pair.send.capacity(), 8);
    assert_eq!(pair.recv.capacity(), 16);
    assert_eq!(BufferPair::new().send.capacity(), Buffer::new().capacity());
}

#[test]
fn a_full_buffer_compacts_before_it_reads() {
    let mut buf = Buffer::with_capacity(2);
    buf.extend_from_slice(b"ab");
    buf.consume(1);
    assert_eq!(buf.writable(), 0);
    assert_eq!(buf.read_from(b"c"), Ok(1));
    assert_eq!(buf.as_slice(), b"bc");
    // With nothing consumed it is full for good.
    assert_eq!(buf.read_from(b"d"), Err(BufferFull));
}

#[test]
fn writable_bytes_survive_until_they_are_taken_in() {
    let mut buf = Buffer::with_capacity(8);
    buf.extend_from_slice(b"ab");
    buf.spare_mut()[..2].copy_from_slice(b"cd");
    buf.consume(1);
    // Asking for the space again leaves what lies there.
    assert_eq!(buf.spare_mut()[..2], *b"cd");
    buf.advance(2);
    assert_eq!(buf.as_slice(), b"bcd");
    let mut out = Vec::new();
    assert_eq!(buf.write_to(&mut out, 2), 2);
    assert_eq!(buf.writable(), 4, "what is written in part frees nothing");
    assert_eq!(buf.write_to(&mut out, 9), 1);
    assert_eq!((out.as_slice(), buf.writable()), (&b"bcd"[..], 8));
}
