//! Where a deserializer gets its input after the first buffer: an ordered
//! supply of byte chunks.

use crate::wire::be_value;
use vstd::prelude::*;

verus! {

/// The chunks of `chunks`, one after another, as one run of bytes.
pub open spec fn flat(chunks: Seq<Seq<u8>>) -> Seq<u8>
    decreases chunks.len(),
{
    if chunks.len() == 0 {
        Seq::empty()
    } else {
        chunks[0] + flat(chunks.drop_first())
    }
}

/// What a reader has before it: the chunk in hand, and the chunks that are
/// still to come.
pub struct Feed {
    pub hand: Seq<u8>,
    pub pending: Seq<Seq<u8>>,
}

impl Feed {
    /// All the bytes, in order.
    pub open spec fn stream(self) -> Seq<u8> {
        self.hand + flat(self.pending)
    }

    /// The feed once a chunk with bytes in it is in hand: as it is when the
    /// chunk in hand holds any, and else moved on to the first chunk that
    /// does, or to the end.
    pub open spec fn refilled(self) -> Feed
        decreases self.pending.len(),
    {
        if self.hand.len() > 0 || self.pending.len() == 0 {
            self
        } else {
            (Feed { hand: self.pending[0], pending: self.pending.drop_first() }).refilled()
        }
    }

    /// The feed after `n` bytes have been copied out of it, chunk by chunk,
    /// or after all of them have been when there are fewer.
    pub open spec fn advanced(self, n: nat) -> Feed
        decreases n,
    {
        if n == 0 {
            self
        } else {
            let f = self.refilled();
            if f.hand.len() == 0 {
                f
            } else if f.hand.len() >= n {
                Feed { hand: f.hand.skip(n as int), pending: f.pending }
            } else {
                (Feed { hand: Seq::empty(), pending: f.pending }).advanced(
                    (n - f.hand.len()) as nat,
                )
            }
        }
    }

    /// The feed after a length-prefixed field has been read from it: after
    /// the four bytes of the length, and then, from a chunk with bytes in
    /// it, as many bytes as the length says.
    pub open spec fn past_field(self) -> Feed {
        if self.stream().len() < 4 {
            self.advanced(4)
        } else {
            self.advanced(4).refilled().advanced(be_value(self.stream().take(4)))
        }
    }

    /// Moving on to a chunk with bytes in it loses no byte, and where none
    /// is found nothing is left.
    pub proof fn lemma_refilled(self)
        ensures
            self.refilled().stream() == self.stream(),
            self.refilled().hand.len() == 0 ==> self.refilled().pending.len() == 0
                && self.stream().len() == 0,
            self.refilled().refilled() == self.refilled(),
        decreases self.pending.len(),
    {
        if self.hand.len() > 0 || self.pending.len() == 0 {
            if self.hand.len() == 0 {
                assert(self.stream() =~= Seq::<u8>::empty());
            }
        } else {
            let next = Feed { hand: self.pending[0], pending: self.pending.drop_first() };
            next.lemma_refilled();
            assert(self.stream() =~= next.stream());
        }
    }
}

/// An ordered supply of byte chunks, pulled one at a time. Once it has run
/// dry it stays dry.
pub trait ChunkSource<'de> {
    /// The chunks that have not been handed out yet, in order. A source
    /// written outside verified code has nothing to say here and is taken on
    /// trust.
    open spec fn pending(&self) -> Seq<Seq<u8>> {
        Seq::empty()
    }

    /// Hands out the next chunk, or `None` when none is left.
    fn next_chunk(&mut self) -> (chunk: Option<&'de [u8]>)
        ensures
            (*old(self)).pending().len() == 0 ==> {
                &&& chunk is None
                &&& (*final(self)).pending() == (*old(self)).pending()
            },
            (*old(self)).pending().len() > 0 ==> {
                &&& chunk is Some
                &&& chunk.unwrap()@ == (*old(self)).pending()[0]
                &&& (*final(self)).pending() == (*old(self)).pending().drop_first()
            },
    ;
}

/// A source that holds nothing: all input is in the first buffer.
#[derive(Clone, Copy, Debug)]
pub struct NoChunks;

impl<'de> ChunkSource<'de> for NoChunks {
    open spec fn pending(&self) -> Seq<Seq<u8>> {
        Seq::empty()
    }

    fn next_chunk(&mut self) -> (chunk: Option<&'de [u8]>) {
        None
    }
}

/// The chunks of a slice of buffers, front to back.
#[derive(Clone, Copy, Debug)]
pub struct SliceChunks<'de> {
    chunks: &'de [&'de [u8]],
    pos: usize,
}

/// The contents of each of `chunks`.
pub open spec fn views(chunks: Seq<&[u8]>) -> Seq<Seq<u8>> {
    Seq::new(chunks.len(), |i: int| chunks[i]@)
}

impl<'de> SliceChunks<'de> {
    /// A source that hands out `chunks` in order.
    pub fn new(chunks: &'de [&'de [u8]]) -> (s: Self)
        ensures
            s.pending() == views(chunks@),
    {
        let s = SliceChunks { chunks, pos: 0 };
        assert(s.pending() =~= views(chunks@));
        s
    }
}

impl<'de> ChunkSource<'de> for SliceChunks<'de> {
    closed spec fn pending(&self) -> Seq<Seq<u8>> {
        if self.pos <= self.chunks@.len() {
            views(self.chunks@.subrange(self.pos as int, self.chunks@.len() as int))
        } else {
            Seq::empty()
        }
    }

    fn next_chunk(&mut self) -> (chunk: Option<&'de [u8]>) {
        if self.pos < self.chunks.len() {
            let chunk = self.chunks[self.pos];
            self.pos = self.pos + 1;
            assert(self.pending() =~= old(self).pending().drop_first());
            Some(chunk)
        } else {
            None
        }
    }
}

} // verus!
