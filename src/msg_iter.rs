use vstd::prelude::*;

use crate::chunk::Chunk;
use crate::cursor::Cursor;
use crate::error::Error;
use crate::records::{
    is_message, messages_of, read_record, record_of, records_of, ChunkRecord, RecordKind,
    RecordView,
};

verus! {

/// What a traversal in state `v` (bytes not yet read, whether it has stopped) will
/// yield: its records, then the error that ends it, if any.
pub open spec fn records_left(v: (Seq<u8>, bool)) -> (Seq<RecordView>, Option<Error>) {
    if v.1 {
        (seq![], None)
    } else {
        records_of(v.0)
    }
}

/// What a messages-only traversal in state `v` will yield.
pub open spec fn messages_left(v: (Seq<u8>, bool)) -> (Seq<RecordView>, Option<Error>) {
    if v.1 {
        (seq![], None)
    } else {
        messages_of(v.0)
    }
}

/// A traversal that yields nothing more.
pub open spec fn nothing_left() -> (Seq<RecordView>, Option<Error>) {
    (seq![], None)
}

/// The views of `rs`, in order.
pub open spec fn views_of<'a>(rs: Seq<ChunkRecord<'a>>) -> Seq<RecordView> {
    rs.map_values(|x: ChunkRecord<'a>| x@)
}

/// Measure that each step of a traversal decreases.
pub open spec fn steps_left(v: (Seq<u8>, bool)) -> nat {
    if v.1 {
        0
    } else {
        v.0.len() + 1
    }
}

/// Iterator over all records of a chunk's payload. It stops after the first error.
#[derive(Debug, Clone, Copy)]
pub struct ChunkRecordsIterator<'a> {
    cursor: Cursor<'a>,
    done: bool,
}

impl<'a> View for ChunkRecordsIterator<'a> {
    /// The bytes not yet read, and whether the traversal has stopped.
    type V = (Seq<u8>, bool);

    closed spec fn view(&self) -> (Seq<u8>, bool) {
        (self.cursor@, self.done)
    }
}

impl<'a> ChunkRecordsIterator<'a> {
    /// A traversal of the records in `data`.
    pub fn new(data: &'a [u8]) -> (r: ChunkRecordsIterator<'a>)
        ensures
            r@ == (data@, false),
    {
        ChunkRecordsIterator { cursor: Cursor::new(data), done: false }
    }

    /// The next record; `None` at the end of the payload or after an error.
    pub fn next(&mut self) -> (r: Option<Result<ChunkRecord<'a>, Error>>)
        ensures
            old(self)@.1 || old(self)@.0.len() == 0 ==> r is None && final(self)@ == old(self)@,
            !old(self)@.1 && old(self)@.0.len() > 0 ==> match record_of(old(self)@.0) {
                Ok((v, n)) => r matches Some(Ok(x)) && x@ == v && final(self)@ == (
                    old(self)@.0.skip(n as int),
                    false,
                ),
                Err(e) => r matches Some(Err(x)) && x == e && final(self)@ == (
                    old(self)@.0,
                    true,
                ),
            },
            records_left(old(self)@) == match r {
                None => (seq![], None),
                Some(Ok(x)) => (seq![x@] + records_left(final(self)@).0, records_left(
                    final(self)@,
                ).1),
                Some(Err(e)) => (seq![], Some(e)),
            },
            r is Some ==> steps_left(final(self)@) < steps_left(old(self)@),
            r matches Some(Err(_)) ==> records_left(final(self)@) == nothing_left(),
    {
        if self.done || self.cursor.left() == 0 {
            return None;
        }
        match read_record(&mut self.cursor) {
            Ok(x) => Some(Ok(x)),
            Err(e) => {
                self.done = true;
                Some(Err(e))
            },
        }
    }

    /// Drains the traversal: the records it yields, then the error that ends it.
    pub fn collect_all(&mut self) -> (r: (Vec<ChunkRecord<'a>>, Option<Error>))
        ensures
            views_of(r.0@) == records_left(old(self)@).0,
            r.1 == records_left(old(self)@).1,
            records_left(final(self)@) == nothing_left(),
    {
        let mut out: Vec<ChunkRecord<'a>> = Vec::new();
        loop
            invariant
                records_left(old(self)@) == (views_of(out@) + records_left(self@).0, records_left(
                    self@,
                ).1),
            decreases steps_left(self@),
        {
            let ghost prev = out@;
            match self.next() {
                None => {
                    assert(views_of(out@) + seq![] =~= views_of(out@));
                    return (out, None);
                },
                Some(Ok(x)) => {
                    out.push(x);
                    assert(views_of(out@) =~= views_of(prev) + seq![x@]);
                    assert(views_of(out@) + records_left(self@).0 =~= views_of(prev) + (seq![x@]
                        + records_left(self@).0));
                },
                Some(Err(e)) => {
                    assert(views_of(out@) + seq![] =~= views_of(out@));
                    return (out, Some(e));
                },
            }
        }
    }
}

/// Iterator over the message records of a chunk's payload. It stops after the first
/// error.
#[derive(Debug, Clone, Copy)]
pub struct ChunkMessagesIterator<'a> {
    inner: ChunkRecordsIterator<'a>,
}

impl<'a> View for ChunkMessagesIterator<'a> {
    /// The bytes not yet read, and whether the traversal has stopped.
    type V = (Seq<u8>, bool);

    closed spec fn view(&self) -> (Seq<u8>, bool) {
        self.inner@
    }
}

impl<'a> ChunkMessagesIterator<'a> {
    /// A traversal of the message records in `data`.
    pub fn new(data: &'a [u8]) -> (r: ChunkMessagesIterator<'a>)
        ensures
            r@ == (data@, false),
    {
        ChunkMessagesIterator { inner: ChunkRecordsIterator::new(data) }
    }

    /// The next message record; `None` at the end of the payload or after an error.
    pub fn next(&mut self) -> (r: Option<Result<ChunkRecord<'a>, Error>>)
        ensures
            messages_left(old(self)@) == match r {
                None => (seq![], None),
                Some(Ok(x)) => (seq![x@] + messages_left(final(self)@).0, messages_left(
                    final(self)@,
                ).1),
                Some(Err(e)) => (seq![], Some(e)),
            },
            r matches Some(Ok(x)) ==> x.kind == RecordKind::MessageData,
            r is None ==> messages_left(final(self)@) == nothing_left(),
            r is Some ==> steps_left(final(self)@) < steps_left(old(self)@),
            r matches Some(Err(_)) ==> messages_left(final(self)@) == nothing_left(),
    {
        loop
            invariant
                messages_left(old(self)@) == messages_left(self@),
                steps_left(self@) <= steps_left(old(self)@),
            decreases steps_left(self@),
        {
            match self.inner.next() {
                None => {
                    return None;
                },
                Some(Ok(x)) => {
                    if x.kind == RecordKind::MessageData {
                        return Some(Ok(x));
                    }
                },
                Some(Err(e)) => {
                    return Some(Err(e));
                },
            }
        }
    }

    /// Drains the traversal: the message records it yields, then the error that
    /// ends it.
    pub fn collect_all(&mut self) -> (r: (Vec<ChunkRecord<'a>>, Option<Error>))
        ensures
            views_of(r.0@) == messages_left(old(self)@).0,
            r.1 == messages_left(old(self)@).1,
            messages_left(final(self)@) == nothing_left(),
    {
        let mut out: Vec<ChunkRecord<'a>> = Vec::new();
        loop
            invariant
                messages_left(old(self)@) == (views_of(out@) + messages_left(self@).0,
                messages_left(self@).1),
            decreases steps_left(self@),
        {
            let ghost prev = out@;
            match self.next() {
                None => {
                    assert(views_of(out@) + seq![] =~= views_of(out@));
                    return (out, None);
                },
                Some(Ok(x)) => {
                    out.push(x);
                    assert(views_of(out@) =~= views_of(prev) + seq![x@]);
                    assert(views_of(out@) + messages_left(self@).0 =~= views_of(prev) + (seq![
                        x@,
                    ] + messages_left(self@).0));
                },
                Some(Err(e)) => {
                    assert(views_of(out@) + seq![] =~= views_of(out@));
                    return (out, Some(e));
                },
            }
        }
    }
}

/// Two iterators fresh from the same chunk yield the same records, and the same
/// error if any: what a traversal yields depends on the payload alone.
pub proof fn lemma_fresh_iterators_agree<'a>(
    c: Chunk<'a>,
    a: ChunkRecordsIterator<'a>,
    b: ChunkRecordsIterator<'a>,
)
    requires
        a@ == (c.payload(), false),
        b@ == (c.payload(), false),
    ensures
        records_left(a@) == records_left(b@),
        records_left(a@) == records_of(c.payload()),
{
}

/// The messages-only traversal yields the message records of the full traversal, in
/// the same order, and ends with the same error.
pub proof fn lemma_messages_are_filtered(s: Seq<u8>)
    ensures
        messages_of(s) == (records_of(s).0.filter(|v: RecordView| is_message(v)), records_of(
            s,
        ).1),
    decreases s.len(),
{
    let p = |v: RecordView| is_message(v);
    if s.len() == 0 {
        assert(Seq::<RecordView>::empty().filter(p) =~= seq![]);
    } else if let Ok((v, n)) = record_of(s) {
        lemma_messages_are_filtered(s.skip(n as int));
        let t = records_of(s.skip(n as int)).0;
        Seq::filter_distributes_over_add(seq![v], t, p);
        reveal_with_fuel(Seq::filter, 2);
        assert(seq![v].drop_last() =~= Seq::<RecordView>::empty());
        if is_message(v) {
            assert(seq![v].filter(p) =~= seq![v]);
        } else {
            assert(seq![v].filter(p) =~= seq![]);
        }
    }
}

} // verus!
