use vstd::prelude::*;

use crate::error::OutOfBounds;

verus! {

/// The unsigned integer that four bytes encode, least significant byte first.
pub open spec fn le_u32(b: Seq<u8>) -> nat {
    b[0] as nat + 256 * (b[1] as nat) + 65536 * (b[2] as nat) + 16777216 * (b[3] as nat)
}

/// The length that the four-byte prefix at the start of `s` declares.
pub open spec fn frame_len(s: Seq<u8>) -> nat {
    le_u32(s.take(4))
}

/// Whether `s` starts with a length prefix followed by at least that many bytes.
pub open spec fn has_frame(s: Seq<u8>) -> bool {
    s.len() >= 4 && 4 + frame_len(s) <= s.len()
}

/// Number of bytes taken by the length-prefixed block at the start of `s`.
pub open spec fn frame_end(s: Seq<u8>) -> nat {
    4 + frame_len(s)
}

/// The body of the length-prefixed block at the start of `s`.
pub open spec fn frame_body(s: Seq<u8>) -> Seq<u8> {
    s.subrange(4, frame_end(s) as int)
}

/// Reads the four bytes at `at` as a little-endian `u32`.
pub fn read_le_u32(b: &[u8], at: usize) -> (r: u32)
    requires
        at + 4 <= b@.len(),
    ensures
        r as nat == le_u32(b@.subrange(at as int, at + 4)),
{
    let b0 = b[at] as u32;
    let b1 = b[at + 1] as u32;
    let b2 = b[at + 2] as u32;
    let b3 = b[at + 3] as u32;
    b0 + 256 * b1 + 65536 * b2 + 16777216 * b3
}

/// A bounds-checked read position over a borrowed byte buffer.
#[derive(Debug, Clone, Copy)]
pub struct Cursor<'a> {
    data: &'a [u8],
    pos: usize,
}

impl<'a> View for Cursor<'a> {
    /// The bytes not yet read.
    type V = Seq<u8>;

    closed spec fn view(&self) -> Seq<u8> {
        self.data@.subrange(self.pos as int, self.data@.len() as int)
    }
}

impl<'a> Cursor<'a> {
    #[verifier::type_invariant]
    closed spec fn inv(&self) -> bool {
        self.pos <= self.data@.len()
    }

    /// A cursor at the start of `data`.
    pub fn new(data: &'a [u8]) -> (r: Cursor<'a>)
        ensures
            r@ == data@,
    {
        let r = Cursor { data, pos: 0 };
        assert(r@ =~= data@);
        r
    }

    /// Number of bytes not yet read.
    pub fn left(&self) -> (r: usize)
        ensures
            r == self@.len(),
    {
        proof {
            use_type_invariant(self);
        }
        self.data.len() - self.pos
    }

    /// Reads the next `n` bytes, or fails and reads nothing.
    pub fn next_bytes(&mut self, n: usize) -> (r: Result<&'a [u8], OutOfBounds>)
        ensures
            n <= old(self)@.len() <==> r is Ok,
            r matches Ok(b) ==> b@ == old(self)@.take(n as int) && final(self)@ == old(self)@.skip(
                n as int,
            ),
            r is Err ==> *final(self) == *old(self),
    {
        proof {
            use_type_invariant(&*self);
        }
        if n > self.data.len() - self.pos {
            return Err(OutOfBounds);
        }
        let start = self.pos;
        let b = vstd::slice::slice_subrange(self.data, start, start + n);
        self.pos = start + n;
        assert(b@ =~= old(self)@.take(n as int));
        assert(self@ =~= old(self)@.skip(n as int));
        Ok(b)
    }

    /// Reads a four-byte little-endian unsigned integer, or fails and reads nothing.
    pub fn next_u32(&mut self) -> (r: Result<u32, OutOfBounds>)
        ensures
            4 <= old(self)@.len() <==> r is Ok,
            r matches Ok(v) ==> v as nat == le_u32(old(self)@) && final(self)@ == old(self)@.skip(4),
            r is Err ==> *final(self) == *old(self),
    {
        proof {
            use_type_invariant(&*self);
        }
        if self.data.len() - self.pos < 4 {
            return Err(OutOfBounds);
        }
        let v = read_le_u32(self.data, self.pos);
        assert(self.data@.subrange(self.pos as int, self.pos + 4) =~= self@.take(4));
        self.pos = self.pos + 4;
        assert(self@ =~= old(self)@.skip(4));
        Ok(v)
    }

    /// Reads a length-prefixed block and returns its body, or fails and reads nothing.
    pub fn next_chunk(&mut self) -> (r: Result<&'a [u8], OutOfBounds>)
        ensures
            has_frame(old(self)@) <==> r is Ok,
            r matches Ok(b) ==> b@ == frame_body(old(self)@) && final(self)@ == old(self)@.skip(
                frame_end(old(self)@) as int,
            ),
            r is Err ==> *final(self) == *old(self),
    {
        proof {
            use_type_invariant(&*self);
        }
        let start = *self;
        let n = match self.next_u32() {
            Ok(n) => n,
            Err(e) => return Err(e),
        };
        assert(old(self)@.take(4) =~= old(self)@.subrange(0, 4));
        match self.next_bytes(n as usize) {
            Ok(b) => {
                assert(b@ =~= frame_body(old(self)@));
                assert(self@ =~= old(self)@.skip(frame_end(old(self)@) as int));
                Ok(b)
            },
            Err(e) => {
                *self = start;
                Err(e)
            },
        }
    }
}

} // verus!
