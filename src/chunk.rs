use vstd::prelude::*;

use crate::cursor::{frame_body, frame_end, frame_len, has_frame, le_u32, read_le_u32, Cursor};
use crate::error::Error;
use crate::msg_iter::{ChunkMessagesIterator, ChunkRecordsIterator};
use crate::header::{bytes_eq, lemma_parse_fields_error, parse_fields, read_field};

verus! {

/// Opcode of a chunk record.
pub const CHUNK_OP: u8 = 5;

/// Field name `op`.
pub open spec fn op_name() -> Seq<u8> {
    seq![111u8, 112]
}

/// Field name `compression`.
pub open spec fn compression_name() -> Seq<u8> {
    seq![99u8, 111, 109, 112, 114, 101, 115, 115, 105, 111, 110]
}

/// Field name `size`.
pub open spec fn size_name() -> Seq<u8> {
    seq![115u8, 105, 122, 101]
}

/// Compression value `none`.
pub open spec fn none_value() -> Seq<u8> {
    seq![110u8, 111, 110, 101]
}

/// Compression value `bzip2`.
pub open spec fn bzip2_value() -> Seq<u8> {
    seq![98u8, 122, 105, 112, 50]
}

/// Whether `name` is `op`.
pub fn is_op_name(name: &[u8]) -> (r: bool)
    ensures
        r == (name@ == op_name()),
{
    let lit: [u8; 2] = [111u8, 112];
    assert(lit@ =~= op_name());
    bytes_eq(name, lit.as_slice())
}

/// Whether `name` is `compression`.
fn is_compression_name(name: &[u8]) -> (r: bool)
    ensures
        r == (name@ == compression_name()),
{
    let lit: [u8; 11] = [99u8, 111, 109, 112, 114, 101, 115, 115, 105, 111, 110];
    assert(lit@ =~= compression_name());
    bytes_eq(name, lit.as_slice())
}

/// Whether `name` is `size`.
fn is_size_name(name: &[u8]) -> (r: bool)
    ensures
        r == (name@ == size_name()),
{
    let lit: [u8; 4] = [115u8, 105, 122, 101];
    assert(lit@ =~= size_name());
    bytes_eq(name, lit.as_slice())
}

/// Whether `v` is `none`.
fn is_none_value(v: &[u8]) -> (r: bool)
    ensures
        r == (v@ == none_value()),
{
    let lit: [u8; 4] = [110u8, 111, 110, 101];
    assert(lit@ =~= none_value());
    bytes_eq(v, lit.as_slice())
}

/// Whether `v` is `bzip2`.
fn is_bzip2_value(v: &[u8]) -> (r: bool)
    ensures
        r == (v@ == bzip2_value()),
{
    let lit: [u8; 5] = [98u8, 122, 105, 112, 50];
    assert(lit@ =~= bzip2_value());
    bytes_eq(v, lit.as_slice())
}

/// Compression options for `Chunk` data.
#[derive(Debug, Clone, Copy, PartialEq, Eq, Structural)]
pub enum Compression {
    Bzip2,
    Uncompressed,
}

/// The attributes of a chunk header collected so far.
#[derive(Debug, Clone, Copy, PartialEq, Eq, Structural)]
pub struct ChunkHeader {
    pub compression: Option<Compression>,
    pub size: Option<u32>,
}

/// A header with no attribute yet.
pub open spec fn empty_header() -> ChunkHeader {
    ChunkHeader { compression: None, size: None }
}

/// Whether `name` is a field that the chunk schema records (and so may appear once).
pub open spec fn is_chunk_field(name: Seq<u8>) -> bool {
    name == compression_name() || name == size_name()
}

/// The header after processing one field `name=val`.
pub open spec fn apply_field(h: ChunkHeader, name: Seq<u8>, val: Seq<u8>) -> Result<
    ChunkHeader,
    Error,
> {
    if name == op_name() {
        if val == seq![CHUNK_OP] {
            Ok(h)
        } else {
            Err(Error::InvalidHeader)
        }
    } else if name == compression_name() {
        if h.compression is Some {
            Err(Error::InvalidHeader)
        } else if val == none_value() {
            Ok(ChunkHeader { compression: Some(Compression::Uncompressed), ..h })
        } else if val == bzip2_value() {
            Ok(ChunkHeader { compression: Some(Compression::Bzip2), ..h })
        } else {
            Err(Error::InvalidHeader)
        }
    } else if name == size_name() {
        if h.size is Some || val.len() != 4 {
            Err(Error::InvalidHeader)
        } else {
            Ok(ChunkHeader { size: Some(le_u32(val) as u32), ..h })
        }
    } else {
        Ok(h)
    }
}

/// The header after processing the fields `fs` in order, starting from `h`.
pub open spec fn fold_fields(fs: Seq<(Seq<u8>, Seq<u8>)>, h: ChunkHeader) -> Result<
    ChunkHeader,
    Error,
>
    decreases fs.len(),
{
    if fs.len() == 0 {
        Ok(h)
    } else {
        match apply_field(h, fs[0].0, fs[0].1) {
            Ok(h2) => fold_fields(fs.drop_first(), h2),
            Err(e) => Err(e),
        }
    }
}

/// The chunk header that the header block `block` holds.
pub open spec fn chunk_header_of(block: Seq<u8>) -> Result<ChunkHeader, Error> {
    match parse_fields(block) {
        Ok(fs) => fold_fields(fs, empty_header()),
        Err(e) => Err(e),
    }
}

/// Folding fails only with an invalid header.
pub proof fn lemma_fold_error(fs: Seq<(Seq<u8>, Seq<u8>)>, h: ChunkHeader)
    ensures
        fold_fields(fs, h) is Err ==> fold_fields(fs, h) == Err::<ChunkHeader, Error>(
            Error::InvalidHeader,
        ),
    decreases fs.len(),
{
    if fs.len() > 0 {
        if let Ok(h2) = apply_field(h, fs[0].0, fs[0].1) {
            lemma_fold_error(fs.drop_first(), h2);
        }
    }
}

impl ChunkHeader {
    /// Processes one header field, updating the collected attributes.
    pub fn process_field(&mut self, name: &[u8], val: &[u8]) -> (r: Result<(), Error>)
        ensures
            match apply_field(*old(self), name@, val@) {
                Ok(h) => r is Ok && *final(self) == h,
                Err(e) => r == Err::<(), Error>(e) && *final(self) == *old(self),
            },
    {
        if is_op_name(name) {
            if val.len() != 1 || val[0] != CHUNK_OP {
                return Err(Error::InvalidHeader);
            }
            assert(val@ =~= seq![CHUNK_OP]);
        } else if is_compression_name(name) {
            if self.compression.is_some() {
                return Err(Error::InvalidHeader);
            }
            if is_none_value(val) {
                self.compression = Some(Compression::Uncompressed);
            } else if is_bzip2_value(val) {
                self.compression = Some(Compression::Bzip2);
            } else {
                return Err(Error::InvalidHeader);
            }
        } else if is_size_name(name) {
            if self.size.is_some() || val.len() != 4 {
                return Err(Error::InvalidHeader);
            }
            let v = read_le_u32(val, 0);
            assert(val@.subrange(0, 4) =~= val@);
            self.size = Some(v);
        }
        Ok(())
    }

    /// Parses a chunk header block.
    pub fn read_header(block: &[u8]) -> (r: Result<ChunkHeader, Error>)
        ensures
            r == chunk_header_of(block@),
    {
        let mut h = ChunkHeader { compression: None, size: None };
        let mut rest = block;
        while rest.len() > 0
            invariant
                chunk_header_of(block@) == match parse_fields(rest@) {
                    Ok(fs) => fold_fields(fs, h),
                    Err(e) => Err(e),
                },
            decreases rest@.len(),
        {
            proof {
                lemma_parse_fields_error(rest@);
            }
            let (name, val, next) = match read_field(rest) {
                Ok(f) => f,
                Err(e) => return Err(e),
            };
            let ghost f = (name@, val@);
            proof {
                if let Ok(t) = parse_fields(next@) {
                    assert((seq![f] + t).drop_first() =~= t);
                    assert((seq![f] + t)[0] == f);
                    lemma_fold_error(seq![f] + t, h);
                }
            }
            match h.process_field(name, val) {
                Ok(()) => {},
                Err(e) => return Err(e),
            }
            rest = next;
        }
        assert(parse_fields(rest@) == Ok::<Seq<(Seq<u8>, Seq<u8>)>, Error>(seq![]));
        Ok(h)
    }
}

/// The payload and the number of bytes taken, of the data block `s` that follows a
/// chunk header `h`.
pub open spec fn chunk_data_of(h: ChunkHeader, s: Seq<u8>) -> Result<(Seq<u8>, nat), Error> {
    match h.compression {
        None => Err(Error::InvalidHeader),
        Some(Compression::Bzip2) => Err(Error::UnsupportedCompression),
        Some(Compression::Uncompressed) => match h.size {
            None => Err(Error::InvalidHeader),
            Some(n) => if !has_frame(s) {
                Err(Error::OutOfBounds)
            } else if frame_len(s) != n {
                Err(Error::InvalidRecord)
            } else {
                Ok((frame_body(s), frame_end(s)))
            },
        },
    }
}

/// The payload of the chunk record at the start of `s`, and the number of bytes it takes.
pub open spec fn chunk_of(s: Seq<u8>) -> Result<(Seq<u8>, nat), Error> {
    if !has_frame(s) {
        Err(Error::OutOfBounds)
    } else {
        match chunk_header_of(frame_body(s)) {
            Err(e) => Err(e),
            Ok(h) => match chunk_data_of(h, s.skip(frame_end(s) as int)) {
                Ok((d, n)) => Ok((d, frame_end(s) + n)),
                Err(e) => Err(e),
            },
        }
    }
}

/// Bulk storage with optional compression for messages data and connection
/// records.
#[derive(Debug, Clone, Copy)]
pub struct Chunk<'a> {
    /// Compression type for the data
    pub compression: Compression,
    /// Decompressed messages data and connection records
    data: &'a [u8],
}

impl<'a> Chunk<'a> {
    /// The payload: back-to-back nested records.
    pub closed spec fn payload(&self) -> Seq<u8> {
        self.data@
    }

    /// The compression tag.
    pub closed spec fn tag(&self) -> Compression {
        self.compression
    }

    /// The payload bytes.
    pub fn data(&self) -> (r: &'a [u8])
        ensures
            r@ == self.payload(),
    {
        self.data
    }

    /// Get iterator over only messages
    pub fn iter_msgs(&self) -> (r: ChunkMessagesIterator<'a>)
        ensures
            r@ == (self.payload(), false),
    {
        ChunkMessagesIterator::new(self.data)
    }

    /// Get iterator over all internal records.
    pub fn iter(&self) -> (r: ChunkRecordsIterator<'a>)
        ensures
            r@ == (self.payload(), false),
    {
        ChunkRecordsIterator::new(self.data)
    }

    /// Builds a chunk from its header and the data block at the cursor. Reads
    /// nothing on failure.
    pub fn read_data(c: &mut Cursor<'a>, header: ChunkHeader) -> (r: Result<Chunk<'a>, Error>)
        ensures
            match chunk_data_of(header, old(c)@) {
                Ok((d, n)) => r matches Ok(k) && k.payload() == d && k.tag() == Compression::Uncompressed && final(c)@ == old(c)@.skip(n as int),
                Err(e) => r matches Err(x) && x == e && *final(c) == *old(c),
            },
    {
        let compression = match header.compression {
            Some(x) => x,
            None => return Err(Error::InvalidHeader),
        };
        if compression != Compression::Uncompressed {
            return Err(Error::UnsupportedCompression);
        }
        let size = match header.size {
            Some(n) => n,
            None => return Err(Error::InvalidHeader),
        };
        let start = *c;
        let data = match c.next_chunk() {
            Ok(d) => d,
            Err(e) => return Err(Error::from(e)),
        };
        if data.len() != size as usize {
            *c = start;
            return Err(Error::InvalidRecord);
        }
        Ok(Chunk { compression, data })
    }

    /// Reads a whole chunk record (header block, then data block) at the cursor.
    /// Reads nothing on failure.
    pub fn read(c: &mut Cursor<'a>) -> (r: Result<Chunk<'a>, Error>)
        ensures
            match chunk_of(old(c)@) {
                Ok((d, n)) => r matches Ok(k) && k.payload() == d && k.tag() == Compression::Uncompressed && final(c)@ == old(c)@.skip(n as int),
                Err(e) => r matches Err(x) && x == e && *final(c) == *old(c),
            },
    {
        let start = *c;
        let block = match c.next_chunk() {
            Ok(b) => b,
            Err(e) => return Err(Error::from(e)),
        };
        let header = match ChunkHeader::read_header(block) {
            Ok(h) => h,
            Err(e) => {
                *c = start;
                return Err(e);
            },
        };
        let ghost mid = c@;
        match Chunk::read_data(c, header) {
            Ok(k) => {
                assert(c@ =~= old(c)@.skip(
                    (frame_end(old(c)@) + chunk_data_of(header, mid).unwrap().1) as int,
                ));
                Ok(k)
            },
            Err(e) => {
                *c = start;
                Err(e)
            },
        }
    }
}

/// Whether header `h` holds the attribute that field `name` sets.
pub open spec fn has_attribute(h: ChunkHeader, name: Seq<u8>) -> bool {
    (name == compression_name() && h.compression is Some) || (name == size_name()
        && h.size is Some)
}

/// Processing a field never drops an attribute.
proof fn lemma_apply_keeps(h: ChunkHeader, name: Seq<u8>, val: Seq<u8>, other: Seq<u8>)
    ensures
        apply_field(h, name, val) matches Ok(h2) ==> (has_attribute(h, other) ==> has_attribute(
            h2,
            other,
        )) && (name == other && is_chunk_field(name) ==> has_attribute(h2, other)),
{
}

/// A field whose attribute is already set makes the rest of the fold fail.
proof fn lemma_fold_present(fs: Seq<(Seq<u8>, Seq<u8>)>, h: ChunkHeader, k: int)
    requires
        0 <= k < fs.len(),
        is_chunk_field(fs[k].0),
        has_attribute(h, fs[k].0),
    ensures
        fold_fields(fs, h) is Err,
    decreases fs.len(),
{
    if k > 0 {
        if let Ok(h2) = apply_field(h, fs[0].0, fs[0].1) {
            lemma_apply_keeps(h, fs[0].0, fs[0].1, fs[k].0);
            lemma_fold_present(fs.drop_first(), h2, k - 1);
        }
    }
}

/// A field that the fold meets twice makes it fail.
proof fn lemma_fold_duplicate(fs: Seq<(Seq<u8>, Seq<u8>)>, h: ChunkHeader, i: int, j: int)
    requires
        0 <= i < j < fs.len(),
        fs[i].0 == fs[j].0,
        is_chunk_field(fs[i].0),
    ensures
        fold_fields(fs, h) is Err,
    decreases fs.len(),
{
    if let Ok(h2) = apply_field(h, fs[0].0, fs[0].1) {
        if i > 0 {
            lemma_fold_duplicate(fs.drop_first(), h2, i - 1, j - 1);
        } else {
            lemma_apply_keeps(h, fs[0].0, fs[0].1, fs[0].0);
            lemma_fold_present(fs.drop_first(), h2, j - 1);
        }
    }
}

/// A field that no entry names stays as it was.
proof fn lemma_fold_absent(fs: Seq<(Seq<u8>, Seq<u8>)>, h: ChunkHeader)
    ensures
        fold_fields(fs, h) matches Ok(h2) ==> ((forall|i: int|
            0 <= i < fs.len() ==> fs[i].0 != compression_name()) ==> h2.compression
            == h.compression) && ((forall|i: int| 0 <= i < fs.len() ==> fs[i].0 != size_name())
            ==> h2.size == h.size),
    decreases fs.len(),
{
    if fs.len() > 0 {
        if let Ok(h2) = apply_field(h, fs[0].0, fs[0].1) {
            lemma_fold_absent(fs.drop_first(), h2);
            assert forall|i: int| 0 <= i < fs.len() - 1 implies fs.drop_first()[i] == fs[i + 1] by {}
        }
    }
}

/// Fields that the chunk schema does not know leave the fold as it was.
proof fn lemma_fold_unknown(
    pre: Seq<(Seq<u8>, Seq<u8>)>,
    f: (Seq<u8>, Seq<u8>),
    post: Seq<(Seq<u8>, Seq<u8>)>,
    h: ChunkHeader,
)
    requires
        f.0 != op_name(),
        !is_chunk_field(f.0),
    ensures
        fold_fields(pre + seq![f] + post, h) == fold_fields(pre + post, h),
    decreases pre.len(),
{
    if pre.len() == 0 {
        assert(pre + seq![f] + post =~= seq![f] + post);
        assert(pre + post =~= post);
        assert((seq![f] + post).drop_first() =~= post);
    } else {
        assert((pre + seq![f] + post).drop_first() =~= pre.drop_first() + seq![f] + post);
        assert((pre + post).drop_first() =~= pre.drop_first() + post);
        if let Ok(h2) = apply_field(h, pre[0].0, pre[0].1) {
            lemma_fold_unknown(pre.drop_first(), f, post, h2);
        }
    }
}

/// An uncompressed chunk with a declared size is built exactly when its data block
/// holds that many bytes; any other length is an invalid record.
pub proof fn lemma_uncompressed_size(s: Seq<u8>, h: ChunkHeader)
    requires
        has_frame(s),
        chunk_header_of(frame_body(s)) == Ok::<ChunkHeader, Error>(h),
        h.compression == Some(Compression::Uncompressed),
        h.size is Some,
        has_frame(s.skip(frame_end(s) as int)),
    ensures
        chunk_of(s) is Ok <==> frame_len(s.skip(frame_end(s) as int)) == h.size.unwrap(),
        chunk_of(s) matches Ok((d, _)) ==> d.len() == h.size.unwrap(),
        chunk_of(s) is Err ==> chunk_of(s) == Err::<(Seq<u8>, nat), Error>(Error::InvalidRecord),
{
}

/// A chunk whose header asks for bzip2 is refused as unsupported, never as an
/// invalid header.
pub proof fn lemma_bzip2_unsupported(s: Seq<u8>, h: ChunkHeader)
    requires
        has_frame(s),
        chunk_header_of(frame_body(s)) == Ok::<ChunkHeader, Error>(h),
        h.compression == Some(Compression::Bzip2),
    ensures
        chunk_of(s) == Err::<(Seq<u8>, nat), Error>(Error::UnsupportedCompression),
{
}

/// A chunk whose header block lacks the `compression` field or the `size` field is
/// refused as an invalid header (unless a `bzip2` compression is refused first).
pub proof fn lemma_missing_field(s: Seq<u8>)
    requires
        has_frame(s),
        parse_fields(frame_body(s)) matches Ok(fs) && ((forall|i: int|
            0 <= i < fs.len() ==> fs[i].0 != compression_name()) || (forall|i: int|
            0 <= i < fs.len() ==> fs[i].0 != size_name())),
        !(chunk_header_of(frame_body(s)) matches Ok(h) && h.compression == Some(
            Compression::Bzip2,
        )),
    ensures
        chunk_of(s) == Err::<(Seq<u8>, nat), Error>(Error::InvalidHeader),
{
    let fs = parse_fields(frame_body(s)).unwrap();
    lemma_fold_absent(fs, empty_header());
    lemma_fold_error(fs, empty_header());
}

/// An entry whose name the chunk schema does not know is ignored: the header block
/// reads as if the entry were absent.
pub proof fn lemma_unknown_field_ignored(
    with_entry: Seq<u8>,
    without: Seq<u8>,
    pre: Seq<(Seq<u8>, Seq<u8>)>,
    f: (Seq<u8>, Seq<u8>),
    post: Seq<(Seq<u8>, Seq<u8>)>,
)
    requires
        parse_fields(with_entry) == Ok::<Seq<(Seq<u8>, Seq<u8>)>, Error>(pre + seq![f] + post),
        parse_fields(without) == Ok::<Seq<(Seq<u8>, Seq<u8>)>, Error>(pre + post),
        f.0 != op_name(),
        !is_chunk_field(f.0),
    ensures
        chunk_header_of(with_entry) == chunk_header_of(without),
{
    lemma_fold_unknown(pre, f, post, empty_header());
}

/// A header block that names `compression` or `size` twice is an invalid header.
pub proof fn lemma_duplicate_field(block: Seq<u8>, i: int, j: int)
    requires
        parse_fields(block) matches Ok(fs) && 0 <= i < j < fs.len() && fs[i].0 == fs[j].0
            && is_chunk_field(fs[i].0),
    ensures
        chunk_header_of(block) == Err::<ChunkHeader, Error>(Error::InvalidHeader),
{
    let fs = parse_fields(block).unwrap();
    lemma_fold_duplicate(fs, empty_header(), i, j);
    lemma_fold_error(fs, empty_header());
}

} // verus!
