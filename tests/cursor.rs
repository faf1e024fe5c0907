use rosbag::{Cursor, Error, OutOfBounds};

#[test]
fn short_buffer_reads_fail_and_consume_nothing() {
    let buf = [1u8, 2, 3];
    let mut c = Cursor::new(&buf);
    assert_eq!(c.next_bytes(4), Err(OutOfBounds));
    assert_eq!(c.left(), 3);
    assert_eq!(c.next_u32(), Err(OutOfBounds));
    assert_eq!(c.left(), 3);
    assert_eq!(c.next_chunk(), Err(OutOfBounds));
    assert_eq!(c.left(), 3);
    assert_eq!(c.next_bytes(3), Ok(&buf[..]));
    assert_eq!(c.left(), 0);
}

#[test]
fn length_prefixed_block_with_short_body_consumes_nothing() {
    let buf = [5u8, 0, 0, 0, 1, 2];
    let mut c = Cursor::new(&buf);
    assert_eq!(c.next_chunk(), Err(OutOfBounds));
    assert_eq!(c.left(), 6);
}

#[test]
fn reads_advance_in_order() {
    let buf = [2u8, 0, 0, 0, 9, 8, 1, 1, 0, 0, 7];
    let mut c = Cursor::new(&buf);
    assert_eq!(c.next_chunk(), Ok(&[9u8, 8][..]));
    assert_eq!(c.next_u32(), Ok(257));
    assert_eq!(c.next_bytes(0), Ok(&[][..]));
    assert_eq!(c.next_bytes(1), Ok(&[7u8][..]));
    assert_eq!(c.left(), 0);
}

#[test]
fn u32_is_little_endian() {
    let buf = [0x78u8, 0x56, 0x34, 0x12, 0xff, 0xff, 0xff, 0xff];
    let mut c = Cursor::new(&buf);
    assert_eq!(c.next_u32(), Ok(0x1234_5678));
    assert_eq!(c.next_u32(), Ok(u32::MAX));
}

#[test]
fn out_of_bounds_converts_to_error() {
    assert_eq!(Error::from(OutOfBounds), Error::OutOfBounds);
}

#[test]
fn error_messages() {
    assert_eq!(Error::InvalidHeader.message(), "rosbag::Error: invalid header");
    assert_eq!(Error::InvalidRecord.message(), "rosbag::Error: invalid record");
    assert_eq!(Error::UnsupportedVersion.message(), "rosbag::Error: unsupported version");
    assert_eq!(
        Error::UnsupportedCompression.message(),
        "rosbag::Error: unsupported compression type"
    );
    assert_eq!(Error::OutOfBounds.message(), "rosbag::Error: out of bounds");
}
