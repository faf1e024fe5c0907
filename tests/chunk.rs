use rosbag::{Chunk, ChunkHeader, Compression, Cursor, Error};

fn le(n: u32) -> Vec<u8> {
    n.to_le_bytes().to_vec()
}

fn entry(name: &str, val: &[u8]) -> Vec<u8> {
    let mut body = name.as_bytes().to_vec();
    body.push(b'=');
    body.extend_from_slice(val);
    let mut out = le(body.len() as u32);
    out.extend(body);
    out
}

fn framed(body: &[u8]) -> Vec<u8> {
    let mut out = le(body.len() as u32);
    out.extend_from_slice(body);
    out
}

fn record(entries: &[Vec<u8>], data: &[u8]) -> Vec<u8> {
    let header: Vec<u8> = entries.concat();
    let mut out = framed(&header);
    out.extend(framed(data));
    out
}

fn chunk_bytes(compression: &[u8], size: u32, data: &[u8]) -> Vec<u8> {
    record(
        &[entry("op", &[5]), entry("compression", compression), entry("size", &le(size))],
        data,
    )
}

#[test]
fn uncompressed_chunk_with_matching_size() {
    let bytes = chunk_bytes(b"none", 3, &[1, 2, 3]);
    let mut c = Cursor::new(&bytes);
    let k = Chunk::read(&mut c).unwrap();
    assert!(matches!(k.compression, Compression::Uncompressed));
    assert_eq!(k.data(), &[1u8, 2, 3][..]);
    assert_eq!(c.left(), 0);
}

#[test]
fn chunk_leaves_following_bytes() {
    let mut bytes = chunk_bytes(b"none", 1, &[9]);
    bytes.extend_from_slice(&[7, 7]);
    let mut c = Cursor::new(&bytes);
    Chunk::read(&mut c).unwrap();
    assert_eq!(c.left(), 2);
}

#[test]
fn size_mismatch_is_invalid_record() {
    let bytes = chunk_bytes(b"none", 4, &[1, 2, 3]);
    let mut c = Cursor::new(&bytes);
    assert_eq!(Chunk::read(&mut c).unwrap_err(), Error::InvalidRecord);
    assert_eq!(c.left(), bytes.len());
    let bytes = chunk_bytes(b"none", 2, &[1, 2, 3]);
    assert_eq!(Chunk::read(&mut Cursor::new(&bytes)).unwrap_err(), Error::InvalidRecord);
}

#[test]
fn empty_chunk_with_size_zero() {
    let bytes = chunk_bytes(b"none", 0, &[]);
    let k = Chunk::read(&mut Cursor::new(&bytes)).unwrap();
    assert_eq!(k.data().len(), 0);
}

#[test]
fn bzip2_is_unsupported() {
    let bytes = chunk_bytes(b"bzip2", 3, &[1, 2, 3]);
    assert_eq!(Chunk::read(&mut Cursor::new(&bytes)).unwrap_err(), Error::UnsupportedCompression);
    let bytes = chunk_bytes(b"bzip2", 9, &[1, 2, 3]);
    assert_eq!(Chunk::read(&mut Cursor::new(&bytes)).unwrap_err(), Error::UnsupportedCompression);
}

#[test]
fn unknown_compression_is_invalid_header() {
    let bytes = chunk_bytes(b"lz4", 3, &[1, 2, 3]);
    assert_eq!(Chunk::read(&mut Cursor::new(&bytes)).unwrap_err(), Error::InvalidHeader);
}

#[test]
fn missing_compression_is_invalid_header() {
    let bytes = record(&[entry("op", &[5]), entry("size", &le(1))], &[0]);
    assert_eq!(Chunk::read(&mut Cursor::new(&bytes)).unwrap_err(), Error::InvalidHeader);
}

#[test]
fn missing_size_is_invalid_header() {
    let bytes = record(&[entry("compression", b"none")], &[0]);
    assert_eq!(Chunk::read(&mut Cursor::new(&bytes)).unwrap_err(), Error::InvalidHeader);
}

#[test]
fn unknown_field_is_ignored() {
    let with = record(
        &[entry("compression", b"none"), entry("colour", b"blue"), entry("size", &le(2))],
        &[4, 5],
    );
    let k = Chunk::read(&mut Cursor::new(&with)).unwrap();
    assert_eq!(k.data(), &[4u8, 5][..]);
    assert_eq!(
        ChunkHeader::read_header(&[entry("x", b"1"), entry("size", &le(2))].concat()),
        ChunkHeader::read_header(&entry("size", &le(2))),
    );
}

#[test]
fn duplicate_field_is_invalid_header() {
    let bytes = record(
        &[entry("compression", b"none"), entry("size", &le(1)), entry("size", &le(1))],
        &[0],
    );
    assert_eq!(Chunk::read(&mut Cursor::new(&bytes)).unwrap_err(), Error::InvalidHeader);
    let bytes = record(
        &[entry("compression", b"none"), entry("compression", b"none"), entry("size", &le(1))],
        &[0],
    );
    assert_eq!(Chunk::read(&mut Cursor::new(&bytes)).unwrap_err(), Error::InvalidHeader);
}

#[test]
fn wrong_op_is_invalid_header() {
    let bytes = record(
        &[entry("op", &[2]), entry("compression", b"none"), entry("size", &le(1))],
        &[0],
    );
    assert_eq!(Chunk::read(&mut Cursor::new(&bytes)).unwrap_err(), Error::InvalidHeader);
}

#[test]
fn size_of_wrong_width_is_invalid_header() {
    let bytes = record(&[entry("compression", b"none"), entry("size", b"1")], &[0]);
    assert_eq!(Chunk::read(&mut Cursor::new(&bytes)).unwrap_err(), Error::InvalidHeader);
}

#[test]
fn entry_without_separator_is_invalid_header() {
    let mut header = framed(b"compressionnone");
    header.extend(entry("size", &le(0)));
    let mut bytes = framed(&header);
    bytes.extend(framed(&[]));
    assert_eq!(Chunk::read(&mut Cursor::new(&bytes)).unwrap_err(), Error::InvalidHeader);
    let bytes = record(&[entry("", b"none")], &[]);
    assert_eq!(Chunk::read(&mut Cursor::new(&bytes)).unwrap_err(), Error::InvalidHeader);
}

#[test]
fn value_may_hold_separator() {
    let h = ChunkHeader::read_header(&[entry("note", b"a=b"), entry("compression", b"none")].concat())
        .unwrap();
    assert_eq!(h, ChunkHeader { compression: Some(Compression::Uncompressed), size: None });
}

#[test]
fn size_is_little_endian() {
    let h = ChunkHeader::read_header(&entry("size", &[1, 2, 0, 0])).unwrap();
    assert_eq!(h.size, Some(513));
}

#[test]
fn truncated_data_block_is_out_of_bounds() {
    let mut bytes = chunk_bytes(b"none", 3, &[1, 2, 3]);
    bytes.truncate(bytes.len() - 1);
    let mut c = Cursor::new(&bytes);
    assert_eq!(Chunk::read(&mut c).unwrap_err(), Error::OutOfBounds);
    assert_eq!(c.left(), bytes.len());
}

#[test]
fn truncated_header_block_is_out_of_bounds() {
    let bytes = chunk_bytes(b"none", 3, &[1, 2, 3]);
    assert_eq!(Chunk::read(&mut Cursor::new(&bytes[..6])).unwrap_err(), Error::OutOfBounds);
    assert_eq!(Chunk::read(&mut Cursor::new(&[])).unwrap_err(), Error::OutOfBounds);
}
