use vstd::prelude::*;

use crate::chunk::{is_op_name, op_name};
use crate::cursor::{frame_body, frame_end, has_frame, Cursor};
use crate::error::Error;
use crate::header::{parse_fields, read_field};

verus! {

/// Opcode of a message data record.
pub const MESSAGE_DATA_OP: u8 = 2;

/// Opcode of a connection record.
pub const CONNECTION_OP: u8 = 7;

/// Kinds of record that a chunk's payload holds.
#[derive(Debug, Clone, Copy, PartialEq, Eq, Structural)]
pub enum RecordKind {
    MessageData,
    Connection,
}

/// A record nested in a chunk: its kind, its raw header block (for the kind's own
/// field schema) and its data block.
#[derive(Debug, Clone, Copy)]
pub struct ChunkRecord<'a> {
    pub kind: RecordKind,
    pub header: &'a [u8],
    pub data: &'a [u8],
}

/// Kind, header block and data block of a nested record.
pub type RecordView = (RecordKind, Seq<u8>, Seq<u8>);

impl<'a> View for ChunkRecord<'a> {
    type V = RecordView;

    open spec fn view(&self) -> RecordView {
        (self.kind, self.header@, self.data@)
    }
}

/// The value of the first `op` field among `fs`.
pub open spec fn op_of(fs: Seq<(Seq<u8>, Seq<u8>)>) -> Option<Seq<u8>>
    decreases fs.len(),
{
    if fs.len() == 0 {
        None
    } else if fs[0].0 == op_name() {
        Some(fs[0].1)
    } else {
        op_of(fs.drop_first())
    }
}

/// The record kind that an `op` value names.
pub open spec fn kind_of_op(v: Seq<u8>) -> Result<RecordKind, Error> {
    if v.len() != 1 {
        Err(Error::InvalidHeader)
    } else if v[0] == MESSAGE_DATA_OP {
        Ok(RecordKind::MessageData)
    } else if v[0] == CONNECTION_OP {
        Ok(RecordKind::Connection)
    } else {
        Err(Error::InvalidRecord)
    }
}

/// The nested record at the start of `s`, and the number of bytes it takes.
pub open spec fn record_of(s: Seq<u8>) -> Result<(RecordView, nat), Error> {
    if !has_frame(s) {
        Err(Error::OutOfBounds)
    } else {
        let hb = frame_body(s);
        let t = s.skip(frame_end(s) as int);
        match parse_fields(hb) {
            Err(e) => Err(e),
            Ok(fs) => match op_of(fs) {
                None => Err(Error::InvalidHeader),
                Some(v) => match kind_of_op(v) {
                    Err(e) => Err(e),
                    Ok(k) => if !has_frame(t) {
                        Err(Error::OutOfBounds)
                    } else {
                        Ok(((k, hb, frame_body(t)), frame_end(s) + frame_end(t)))
                    },
                },
            },
        }
    }
}

/// The records of a payload in storage order, and the error that ended the
/// traversal, if any.
pub open spec fn records_of(s: Seq<u8>) -> (Seq<RecordView>, Option<Error>)
    decreases s.len(),
{
    if s.len() == 0 {
        (seq![], None)
    } else {
        match record_of(s) {
            Err(e) => (seq![], Some(e)),
            Ok((v, n)) => {
                let (t, e) = records_of(s.skip(n as int));
                (seq![v] + t, e)
            },
        }
    }
}

/// Whether a record carries a message.
pub open spec fn is_message(v: RecordView) -> bool {
    v.0 == RecordKind::MessageData
}

/// The message records of a payload in storage order, and the error that ended
/// the traversal, if any.
pub open spec fn messages_of(s: Seq<u8>) -> (Seq<RecordView>, Option<Error>)
    decreases s.len(),
{
    if s.len() == 0 {
        (seq![], None)
    } else {
        match record_of(s) {
            Err(e) => (seq![], Some(e)),
            Ok((v, n)) => {
                let (t, e) = messages_of(s.skip(n as int));
                (if is_message(v) {
                    seq![v] + t
                } else {
                    t
                }, e)
            },
        }
    }
}

/// Scans a header block for its first `op` field, checking that every entry is
/// well formed.
pub fn header_op<'a>(block: &'a [u8]) -> (r: Result<Option<&'a [u8]>, Error>)
    ensures
        match parse_fields(block@) {
            Err(e) => r matches Err(x) && x == e,
            Ok(fs) => r matches Ok(o) && match o {
                Some(v) => op_of(fs) == Some(v@),
                None => op_of(fs) is None,
            },
        },
{
    let mut found: Option<&'a [u8]> = None;
    let mut rest = block;
    while rest.len() > 0
        invariant
            match parse_fields(rest@) {
                Err(e) => parse_fields(block@) == Err::<Seq<(Seq<u8>, Seq<u8>)>, Error>(e),
                Ok(t) => parse_fields(block@) is Ok && op_of(parse_fields(block@).unwrap())
                    == match found {
                    Some(v) => Some(v@),
                    None => op_of(t),
                },
            },
        decreases rest@.len(),
    {
        let (name, val, next) = match read_field(rest) {
            Ok(f) => f,
            Err(e) => return Err(e),
        };
        let ghost f = (name@, val@);
        proof {
            if let Ok(t) = parse_fields(next@) {
                assert((seq![f] + t).drop_first() =~= t);
                assert((seq![f] + t)[0] == f);
            }
        }
        if found.is_none() && is_op_name(name) {
            found = Some(val);
        }
        rest = next;
    }
    Ok(found)
}

/// Reads one nested record at the cursor. Reads nothing on failure.
pub fn read_record<'a>(c: &mut Cursor<'a>) -> (r: Result<ChunkRecord<'a>, Error>)
    ensures
        match record_of(old(c)@) {
            Ok((v, n)) => r matches Ok(x) && x@ == v && final(c)@ == old(c)@.skip(n as int),
            Err(e) => r matches Err(x) && x == e && *final(c) == *old(c),
        },
{
    let start = *c;
    let header = match c.next_chunk() {
        Ok(h) => h,
        Err(e) => return Err(Error::from(e)),
    };
    let op = match header_op(header) {
        Ok(Some(op)) => op,
        Ok(None) => {
            *c = start;
            return Err(Error::InvalidHeader);
        },
        Err(e) => {
            *c = start;
            return Err(e);
        },
    };
    let kind = if op.len() != 1 {
        *c = start;
        return Err(Error::InvalidHeader);
    } else if op[0] == MESSAGE_DATA_OP {
        RecordKind::MessageData
    } else if op[0] == CONNECTION_OP {
        RecordKind::Connection
    } else {
        *c = start;
        return Err(Error::InvalidRecord);
    };
    let ghost mid = c@;
    let data = match c.next_chunk() {
        Ok(d) => d,
        Err(e) => {
            *c = start;
            return Err(Error::from(e));
        },
    };
    assert(c@ =~= old(c)@.skip((frame_end(old(c)@) + frame_end(mid)) as int));
    Ok(ChunkRecord { kind, header, data })
}

} // verus!
