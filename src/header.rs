use vstd::prelude::*;

use crate::cursor::{frame_body, frame_end, has_frame, Cursor};
use crate::error::Error;

verus! {

/// The byte that separates a field's name from its value.
pub const SEPARATOR: u8 = 61;

/// Whether `s` holds no separator byte.
pub open spec fn no_separator(s: Seq<u8>) -> bool {
    forall|j: int| 0 <= j < s.len() ==> s[j] != SEPARATOR
}

/// Whether `i` is the position of the first separator in `e`, after a non-empty name.
pub open spec fn splits_at(e: Seq<u8>, i: int) -> bool {
    0 < i < e.len() && e[i] == SEPARATOR && no_separator(e.take(i))
}

/// The (name, value) pair held by a header entry `e`: the name is what precedes the
/// first separator and must not be empty; the value is the raw bytes after it.
pub open spec fn entry_field(e: Seq<u8>) -> Option<(Seq<u8>, Seq<u8>)> {
    if exists|i: int| splits_at(e, i) {
        let i = choose|i: int| splits_at(e, i);
        Some((e.take(i), e.skip(i + 1)))
    } else {
        None
    }
}

/// The fields of a header block: a back-to-back sequence of length-prefixed entries.
pub open spec fn parse_fields(s: Seq<u8>) -> Result<Seq<(Seq<u8>, Seq<u8>)>, Error>
    decreases s.len(),
{
    if s.len() == 0 {
        Ok(seq![])
    } else if !has_frame(s) {
        Err(Error::InvalidHeader)
    } else {
        match entry_field(frame_body(s)) {
            None => Err(Error::InvalidHeader),
            Some(f) => match parse_fields(s.skip(frame_end(s) as int)) {
                Ok(t) => Ok(seq![f] + t),
                Err(e) => Err(e),
            },
        }
    }
}

/// A malformed header block is always reported as an invalid header.
pub proof fn lemma_parse_fields_error(s: Seq<u8>)
    ensures
        parse_fields(s) is Err ==> parse_fields(s) == Err::<Seq<(Seq<u8>, Seq<u8>)>, Error>(
            Error::InvalidHeader,
        ),
    decreases s.len(),
{
    if s.len() != 0 && has_frame(s) {
        lemma_parse_fields_error(s.skip(frame_end(s) as int));
    }
}

/// Whether two byte strings are equal.
pub fn bytes_eq(a: &[u8], b: &[u8]) -> (r: bool)
    ensures
        r == (a@ == b@),
{
    if a.len() != b.len() {
        return false;
    }
    let mut i: usize = 0;
    while i < a.len()
        invariant
            a@.len() == b@.len(),
            i <= a@.len(),
            forall|j: int| 0 <= j < i ==> a@[j] == b@[j],
        decreases a@.len() - i,
    {
        if a[i] != b[i] {
            return false;
        }
        i = i + 1;
    }
    assert(a@ =~= b@);
    true
}

/// Splits a header entry at its first separator into name and value.
pub fn split_entry<'a>(e: &'a [u8]) -> (r: Option<(&'a [u8], &'a [u8])>)
    ensures
        r is Some <==> entry_field(e@) is Some,
        r matches Some((n, v)) ==> entry_field(e@) == Some((n@, v@)),
{
    let mut i: usize = 0;
    while i < e.len() && e[i] != SEPARATOR
        invariant
            i <= e@.len(),
            no_separator(e@.take(i as int)),
        decreases e@.len() - i,
    {
        assert(e@.take(i + 1) =~= e@.take(i as int).push(e@[i as int]));
        i = i + 1;
    }
    if i == 0 || i == e.len() {
        assert forall|k: int| !splits_at(e@, k) by {
            if splits_at(e@, k) {
                if i == e.len() {
                    assert(e@.take(i as int)[k] == e@[k]);
                } else {
                    assert(e@.take(k)[0] == e@[0]);
                }
            }
        }
        return None;
    }
    assert(splits_at(e@, i as int));
    assert forall|k: int| splits_at(e@, k) implies k == i by {
        if k < i {
            assert(e@.take(i as int)[k] == e@[k]);
        } else if k > i {
            assert(e@.take(k)[i as int] == e@[i as int]);
        }
    }
    let name = vstd::slice::slice_subrange(e, 0, i);
    let value = vstd::slice::slice_subrange(e, i + 1, e.len());
    assert(name@ =~= e@.take(i as int));
    assert(value@ =~= e@.skip(i + 1));
    Some((name, value))
}

/// Reads the first entry of a non-empty header block: its name, its value, and the
/// rest of the block.
pub fn read_field<'a>(block: &'a [u8]) -> (r: Result<(&'a [u8], &'a [u8], &'a [u8]), Error>)
    requires
        block@.len() > 0,
    ensures
        r is Ok <==> has_frame(block@) && entry_field(frame_body(block@)) is Some,
        r matches Ok((n, v, rest)) ==> entry_field(frame_body(block@)) == Some((n@, v@))
            && rest@ == block@.skip(frame_end(block@) as int),
        r matches Err(e) ==> e == Error::InvalidHeader,
{
    let mut c = Cursor::new(block);
    let entry = match c.next_chunk() {
        Ok(e) => e,
        Err(_) => return Err(Error::InvalidHeader),
    };
    let rest = match c.next_bytes(c.left()) {
        Ok(b) => b,
        Err(_) => return Err(Error::InvalidHeader),
    };
    assert(rest@ =~= block@.skip(frame_end(block@) as int));
    match split_entry(entry) {
        Some((n, v)) => Ok((n, v, rest)),
        None => Err(Error::InvalidHeader),
    }
}

} // verus!
