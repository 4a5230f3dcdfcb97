//! Standard input that comes in chunks and is read in pieces.
use vstd::prelude::*;
use vstd::slice::{slice_subrange, slice_to_vec};

verus! {

/// Size of one chunk.
pub const CHUNK: usize = 8192;

/// What was read and not delivered yet.
#[derive(Debug)]
pub struct StdinBuffer {
    pub pending: Vec<u8>,
    /// No more chunks come.
    pub eof: bool,
}

/// A read of the input: the chunk that it took, if any, and what it delivered.
pub struct ReadView {
    pub chunk: Option<Seq<u8>>,
    pub delivered: Seq<u8>,
}

/// A read may leave `after` pending where `before` was: what was pending goes
/// first, and nothing is taken in as long as something is.
pub open spec fn is_read(before: Seq<u8>, r: ReadView, after: Seq<u8>) -> bool {
    match r.chunk {
        None => r.delivered + after == before,
        Some(c) => before.len() == 0 && r.delivered + after == c,
    }
}

/// How a read begins.
#[derive(Debug)]
pub enum ReadStart {
    /// These bytes were left; they are all that this read gives.
    Deliver(Vec<u8>),
    /// The input is at its end.
    End,
    /// A chunk is needed.
    Receive,
}

/// The smaller of two numbers.
pub open spec fn at_most(n: nat, room: nat) -> int {
    if n < room {
        n as int
    } else {
        room as int
    }
}

fn split(bytes: &[u8], room: usize) -> (r: (Vec<u8>, Vec<u8>))
    ensures
        r.0@ == bytes@.take(at_most(bytes@.len(), room as nat)),
        r.0@ + r.1@ == bytes@,
{
    let len: usize = bytes.len();
    let n: usize = if len < room {
        len
    } else {
        room
    };
    let a = slice_to_vec(slice_subrange(bytes, 0, n));
    let b = slice_to_vec(slice_subrange(bytes, n, len));
    assert(a@ =~= bytes@.take(n as int));
    assert(a@ + b@ =~= bytes@);
    (a, b)
}

impl StdinBuffer {
    pub fn new() -> (b: StdinBuffer)
        ensures
            b.pending@.len() == 0,
            !b.eof,
    {
        StdinBuffer { pending: Vec::new(), eof: false }
    }

    /// Begins a read of up to `room` bytes. What was left comes first.
    pub fn start(&mut self, room: usize) -> (r: ReadStart)
        ensures
            final(self).eof == old(self).eof,
            match r {
                ReadStart::Deliver(d) => old(self).pending@.len() > 0 && d@
                    == old(self).pending@.take(at_most(old(self).pending@.len(), room as nat))
                    && is_read(
                    old(self).pending@,
                    (ReadView { chunk: None, delivered: d@ }),
                    final(self).pending@,
                ),
                ReadStart::End => old(self).pending@.len() == 0 && old(self).eof
                    && final(self).pending@ == old(self).pending@,
                ReadStart::Receive => old(self).pending@.len() == 0 && !old(self).eof
                    && final(self).pending@ == old(self).pending@,
            },
    {
        if self.pending.len() > 0 {
            let (now, later) = split(self.pending.as_slice(), room);
            self.pending = later;
            ReadStart::Deliver(now)
        } else if self.eof {
            ReadStart::End
        } else {
            ReadStart::Receive
        }
    }

    /// Takes a chunk, and gives what of it fits. An empty chunk, or none, is
    /// the end of the input.
    pub fn receive(&mut self, chunk: Option<Vec<u8>>, room: usize) -> (r: Vec<u8>)
        requires
            old(self).pending@.len() == 0,
        ensures
            match chunk {
                Some(c) => if c@.len() > 0 {
                    r@ == c@.take(at_most(c@.len(), room as nat)) && is_read(
                        old(self).pending@,
                        (ReadView { chunk: Some(c@), delivered: r@ }),
                        final(self).pending@,
                    ) && final(self).eof == old(self).eof
                } else {
                    r@.len() == 0 && final(self).eof && final(self).pending@ == old(self).pending@
                },
                None => r@.len() == 0 && final(self).eof && final(self).pending@
                    == old(self).pending@,
            },
    {
        match chunk {
            Some(c) => {
                if c.len() > 0 {
                    let (now, later) = split(c.as_slice(), room);
                    self.pending = later;
                    return now;
                }
            },
            None => {},
        }
        self.eof = true;
        Vec::new()
    }
}

/// The chunks that some reads took, one after the other.
pub open spec fn taken(reads: Seq<ReadView>) -> Seq<u8>
    decreases reads.len(),
{
    if reads.len() == 0 {
        Seq::empty()
    } else {
        match reads.last().chunk {
            None => taken(reads.drop_last()),
            Some(c) => taken(reads.drop_last()) + c,
        }
    }
}

/// What they delivered, one after the other.
pub open spec fn delivered(reads: Seq<ReadView>) -> Seq<u8>
    decreases reads.len(),
{
    if reads.len() == 0 {
        Seq::empty()
    } else {
        delivered(reads.drop_last()) + reads.last().delivered
    }
}

/// What is delivered, with what is pending, is what came in: no byte is lost,
/// doubled or out of its place.
pub proof fn law_bytes_in_order(reads: Seq<ReadView>, pending: Seq<Seq<u8>>)
    requires
        pending.len() == reads.len() + 1,
        pending[0].len() == 0,
        forall|i: int|
            0 <= i < reads.len() ==> is_read(
                pending[i],
                #[trigger] reads[i],
                pending[i + 1],
            ),
    ensures
        delivered(reads) + pending.last() == taken(reads),
    decreases reads.len(),
{
    if reads.len() == 0 {
        assert(delivered(reads) + pending.last() =~= taken(reads));
    } else {
        let before = reads.drop_last();
        let old_pending = pending.drop_last();
        assert forall|i: int| 0 <= i < before.len() implies is_read(
            old_pending[i],
            #[trigger] before[i],
            old_pending[i + 1],
        ) by {
            assert(before[i] == reads[i]);
        }
        law_bytes_in_order(before, old_pending);
        let n = reads.len() - 1;
        assert(is_read(pending[n], reads[n], pending[n + 1]));
        assert(old_pending.last() == pending[n]);
        let d = delivered(before);
        let r = reads[n].delivered;
        let p = pending[n + 1];
        assert((d + r) + p =~= d + (r + p));
        if reads[n].chunk is Some {
            assert(d + pending[n] =~= d);
        }
    }
}

} // verus!
