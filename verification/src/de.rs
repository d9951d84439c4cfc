//! The decoder: pulls bytes from one buffer or from a supply of chunks and
//! rebuilds values from them.

use crate::error::{Error, ErrorKind};
use crate::format::{
    decode, decode_fields, decode_repeat, feed_after, feed_after_fields, feed_after_repeat,
    from_twos_complement, length_delimited, scalar_of,
};
use crate::shape::{forms, Form, Shape};
use crate::source::{flat, ChunkSource, Feed, NoChunks};
use crate::value::{data, Datum, Value};
use crate::wire::{be_value, u16_from_be, u32_from_be, u64_from_be};
use std::borrow::Cow;
use vstd::prelude::*;
use vstd::utf8::{decode_utf8, is_scalar, valid_utf8};

verus! {

/// Reads values in wire format, strictly front to back, from the chunk in
/// hand and then from the chunks its source still holds.
///
/// A read that runs out of input uses the input up. After any failed read
/// the deserializer is to be given up.
#[derive(Copy, Clone, Debug)]
pub struct Deserializer<'de, It> {
    slice: &'de [u8],
    iter: It,
}

impl<'de, It> Deserializer<'de, It> {
    /// A deserializer that starts with no chunk in hand.
    pub fn new(iter: It) -> (d: Self)
        ensures
            d.current() == Seq::<u8>::empty(),
            d.source() == iter,
    {
        Self { iter, slice: &[] }
    }

    /// A deserializer that starts with `slice` in hand and takes what
    /// follows from `iter`: `into_inner` the other way round.
    pub fn from_parts(slice: &'de [u8], iter: It) -> (d: Self)
        ensures
            d.current() == slice@,
            d.source() == iter,
    {
        Self { iter, slice }
    }

    /// The chunk in hand and the source, as they stand.
    pub fn into_inner(self) -> (parts: (&'de [u8], It))
        ensures
            parts.0@ == self.current(),
            parts.1 == self.source(),
    {
        (self.slice, self.iter)
    }

    /// What is left of the chunk in hand.
    pub closed spec fn current(&self) -> Seq<u8> {
        self.slice@
    }

    /// The source of further chunks.
    pub closed spec fn source(&self) -> It {
        self.iter
    }
}

impl<'de> Deserializer<'de, NoChunks> {
    /// A deserializer over one contiguous buffer.
    pub fn from_bytes(slice: &'de [u8]) -> (d: Self)
        ensures
            d.current() == slice@,
            d.stream() == slice@,
    {
        let d = Self { slice, iter: NoChunks };
        proof {
            assert(flat(d.iter.pending()) =~= Seq::<u8>::empty());
            assert(d.stream() =~= slice@);
        }
        d
    }
}

impl<'de, It: ChunkSource<'de>> Deserializer<'de, It> {
    /// All the input that has not been read yet.
    pub open spec fn stream(&self) -> Seq<u8> {
        self.current() + flat(self.source().pending())
    }

    /// Whether a field of `len` bytes behind a four-byte length lies within
    /// one chunk, so that it can be borrowed.
    pub open spec fn field_in_one_chunk(&self, len: nat) -> bool {
        self.feed().advanced(4).refilled().hand.len() >= len
    }

    /// What the deserializer has before it.
    pub open spec fn feed(&self) -> Feed {
        Feed { hand: self.current(), pending: self.source().pending() }
    }

    /// The chunk that reads are served from next: the one in hand, or, when
    /// that is used up, the first chunk of the source that holds any byte.
    pub open spec fn in_hand(&self) -> Seq<u8> {
        self.feed().refilled().hand
    }

    /// Takes chunks from the source until one is not empty, or none is left.
    fn update_slice_inner(&mut self)
        requires
            old(self).current().len() == 0,
        ensures
            final(self).feed() == old(self).feed().refilled(),
    {
        loop
            invariant_except_break
                self.slice@.len() == 0,
            invariant
                self.feed().refilled() == old(self).feed().refilled(),
            ensures
                self.feed() == old(self).feed().refilled(),
            decreases self.iter.pending().len(),
        {
            let ghost before = self.feed();
            match self.iter.next_chunk() {
                Some(chunk) => {
                    if !chunk.is_empty() {
                        self.slice = chunk;
                        proof {
                            let next = Feed {
                                hand: before.pending[0],
                                pending: before.pending.drop_first(),
                            };
                            assert(self.feed() == next);
                            assert(before.refilled() == next.refilled());
                            assert(next.refilled() == next);
                        }
                        break ;
                    }
                    proof {
                        let next = Feed {
                            hand: before.pending[0],
                            pending: before.pending.drop_first(),
                        };
                        assert(self.slice@ =~= chunk@);
                        assert(self.feed() == next);
                        assert(before.refilled() == next.refilled());
                    }
                },
                None => {
                    proof {
                        assert(before.refilled() == before);
                    }
                    break ;
                },
            }
        }
    }

    /// Makes sure a chunk with bytes in it is in hand, unless the input has
    /// ended.
    fn update_slice(&mut self)
        ensures
            final(self).feed() == old(self).feed().refilled(),
            final(self).stream() == old(self).stream(),
            final(self).current() == old(self).in_hand(),
            final(self).current().len() == 0 ==> final(self).stream().len() == 0,
    {
        proof {
            self.feed().lemma_refilled();
        }
        if self.slice.is_empty() {
            self.update_slice_inner();
        }
    }

    /// The next byte of the input.
    pub fn next_byte(&mut self) -> (r: Result<u8, Error>)
        ensures
            old(self).stream().len() > 0 ==> {
                &&& r == Ok::<u8, Error>(old(self).stream()[0])
                &&& final(self).stream() == old(self).stream().drop_first()
            },
            old(self).stream().len() == 0 ==> {
                &&& r == Err::<u8, Error>(Error::Eof)
                &&& final(self).stream().len() == 0
            },
            final(self).feed() == old(self).feed().advanced(1),
    {
        self.update_slice();
        if self.slice.is_empty() {
            return Err(Error::Eof);
        }
        let ghost mid = *self;
        let byte = self.slice[0];
        self.slice = vstd::slice::slice_subrange(self.slice, 1, self.slice.len());
        proof {
            assert(self.stream() =~= mid.stream().drop_first());
        }
        Ok(byte)
    }
}

impl<'de, It: ChunkSource<'de>> Deserializer<'de, It> {
    /// Fills all of `buffer` with the next bytes of the input, across as
    /// many chunks as it takes. When the input is too short it is used up
    /// and the read fails.
    pub fn fill_buffer(&mut self, buffer: &mut [u8]) -> (r: Result<(), Error>)
        ensures
            final(buffer)@.len() == old(buffer)@.len(),
            old(self).stream().len() >= old(buffer)@.len() ==> {
                &&& r is Ok
                &&& final(buffer)@ == old(self).stream().take(old(buffer)@.len() as int)
                &&& final(self).stream() == old(self).stream().skip(old(buffer)@.len() as int)
            },
            old(self).stream().len() < old(buffer)@.len() ==> {
                &&& r == Err::<(), Error>(Error::Eof)
                &&& final(self).stream().len() == 0
            },
            final(self).feed() == old(self).feed().advanced(old(buffer)@.len()),
    {
        let total: usize = buffer.len();
        let mut filled: usize = 0;
        let ghost input = self.stream();
        proof {
            assert(input.skip(0) =~= input);
        }
        loop
            invariant
                filled <= total,
                buffer@.len() == total,
                total == old(buffer)@.len(),
                input == old(self).stream(),
                filled <= input.len(),
                buffer@.take(filled as int) == input.take(filled as int),
                self.stream() == input.skip(filled as int),
                old(self).feed().advanced(total as nat) == self.feed().advanced(
                    (total - filled) as nat,
                ),
            decreases total - filled,
        {
            if filled == total {
                proof {
                    assert(buffer@.take(filled as int) =~= buffer@);
                }
                return Ok(());
            }
            self.update_slice();
            if self.slice.is_empty() {
                return Err(Error::Eof);
            }
            let room: usize = total - filled;
            let n: usize = if self.slice.len() < room { self.slice.len() } else { room };
            let ghost mid = *self;
            let ghost done = buffer@;
            let mut k: usize = 0;
            while k < n
                invariant
                    k <= n,
                    n <= self.slice@.len(),
                    filled + n <= total,
                    buffer@.len() == total,
                    *self == mid,
                    buffer@.take(filled as int) == done.take(filled as int),
                    buffer@.subrange(filled as int, filled + k) == self.slice@.take(k as int),
                decreases n - k,
            {
                let ghost prev = buffer@;
                buffer[filled + k] = self.slice[k];
                proof {
                    assert(buffer@.take(filled as int) =~= prev.take(filled as int));
                    assert(buffer@.subrange(filled as int, filled + k + 1) =~= prev.subrange(
                        filled as int,
                        filled + k,
                    ).push(self.slice@[k as int]));
                    assert(self.slice@.take(k + 1) =~= self.slice@.take(k as int).push(
                        self.slice@[k as int],
                    ));
                }
                k = k + 1;
            }
            self.slice = vstd::slice::slice_subrange(self.slice, n, self.slice.len());
            proof {
                mid.feed().lemma_refilled();
                assert(mid.feed().refilled() == mid.feed());
                if n < room {
                    assert(self.slice@ =~= Seq::<u8>::empty());
                    assert(self.feed() == Feed {
                        hand: Seq::empty(),
                        pending: mid.feed().pending,
                    });
                } else {
                    assert(self.slice@ =~= mid.slice@.skip(n as int));
                    assert(self.feed() == Feed {
                        hand: mid.feed().hand.skip(n as int),
                        pending: mid.feed().pending,
                    });
                }
                assert(mid.stream().take(n as int) =~= mid.slice@.take(n as int));
                assert(self.stream() =~= mid.stream().skip(n as int));
                assert(input.skip(filled as int).skip(n as int) =~= input.skip(filled + n));
                assert(buffer@.take(filled + n) =~= buffer@.take(filled as int) + buffer@.subrange(
                    filled as int,
                    filled + n,
                ));
                assert(input.take(filled + n) =~= input.take(filled as int) + input.skip(
                    filled as int,
                ).take(n as int));
            }
            filled = filled + n;
        }
    }
}

impl<'de, It: ChunkSource<'de>> Deserializer<'de, It> {
    /// The next `SIZE` bytes of the input, copied out.
    pub fn next_bytes_const<const SIZE: usize>(&mut self) -> (r: Result<[u8; SIZE], Error>)
        requires
            SIZE != 0,
        ensures
            old(self).stream().len() >= SIZE ==> {
                &&& r is Ok
                &&& r.unwrap()@ == old(self).stream().take(SIZE as int)
                &&& final(self).stream() == old(self).stream().skip(SIZE as int)
            },
            old(self).stream().len() < SIZE ==> {
                &&& r == Err::<[u8; SIZE], Error>(Error::Eof)
                &&& final(self).stream().len() == 0
            },
            final(self).feed() == old(self).feed().advanced(SIZE as nat),
    {
        let mut bytes: [u8; SIZE] = [0u8; SIZE];
        match self.fill_buffer(&mut bytes) {
            Ok(()) => Ok(bytes),
            Err(e) => Err(e),
        }
    }

    /// The next four bytes of the input as a big-endian number.
    pub fn next_u32(&mut self) -> (r: Result<u32, Error>)
        ensures
            old(self).stream().len() >= 4 ==> {
                &&& r is Ok
                &&& r.unwrap() as nat == be_value(old(self).stream().take(4))
                &&& final(self).stream() == old(self).stream().skip(4)
            },
            old(self).stream().len() < 4 ==> {
                &&& r == Err::<u32, Error>(Error::Eof)
                &&& final(self).stream().len() == 0
            },
            final(self).feed() == old(self).feed().advanced(4),
    {
        match self.next_bytes_const::<4>() {
            Ok(b) => Ok(u32_from_be(&b)),
            Err(e) => Err(e),
        }
    }
}

impl<'de, It: ChunkSource<'de>> Deserializer<'de, It> {
    /// The next `size` bytes of the input. They are borrowed from the chunk
    /// that reads are served from when it holds them all, and copied
    /// together from as many chunks as it takes when it does not.
    pub fn next_bytes(&mut self, size: usize) -> (r: Result<Cow<'de, [u8]>, Error>)
        ensures
            old(self).stream().len() >= size ==> {
                &&& r is Ok
                &&& r.unwrap()@ == old(self).stream().take(size as int)
                &&& r.unwrap() is Borrowed <==> old(self).in_hand().len() >= size
                &&& final(self).stream() == old(self).stream().skip(size as int)
            },
            old(self).stream().len() < size ==> {
                &&& r == Err::<Cow<'de, [u8]>, Error>(Error::Eof)
                &&& final(self).stream().len() == 0
            },
            final(self).feed() == old(self).feed().refilled().advanced(size as nat),
    {
        self.update_slice();
        let ghost mid = *self;
        proof {
            old(self).feed().lemma_refilled();
        }

        if self.slice.len() >= size {
            let slice = vstd::slice::slice_subrange(self.slice, 0, size);
            self.slice = vstd::slice::slice_subrange(self.slice, size, self.slice.len());
            proof {
                if size == 0 {
                    assert(self.slice@ =~= mid.slice@);
                } else {
                    assert(self.feed() == Feed {
                        hand: mid.feed().hand.skip(size as int),
                        pending: mid.feed().pending,
                    });
                }
                assert(slice@ =~= mid.stream().take(size as int));
                assert(self.stream() =~= mid.stream().skip(size as int));
            }
            Ok(Cow::Borrowed(slice))
        } else {
            let mut bytes: Vec<u8> = vec![0_u8; size];
            match self.fill_buffer(bytes.as_mut_slice()) {
                Ok(()) => Ok(Cow::Owned(bytes)),
                Err(e) => Err(e),
            }
        }
    }

    /// The content of a string or byte string: a four-byte length, then that
    /// many bytes. A length that no `usize` can hold would be refused as too
    /// long; with a `usize` of 32 bits or more there is no such length.
    pub fn parse_bytes(&mut self) -> (r: Result<Cow<'de, [u8]>, Error>)
        ensures
            match length_delimited(old(self).stream()) {
                Some(content) => {
                    &&& r is Ok
                    &&& r.unwrap()@ == content
                    &&& r.unwrap() is Borrowed <==> old(self).field_in_one_chunk(content.len())
                    &&& final(self).stream() == old(self).stream().skip(4 + content.len() as int)
                },
                None => {
                    &&& r is Err
                    &&& r.unwrap_err().kind() == ErrorKind::Eof
                    &&& final(self).stream().len() == 0
                },
            },
            final(self).feed() == old(self).feed().past_field(),
    {
        let n: u32 = match self.next_u32() {
            Ok(n) => n,
            Err(e) => {
                return Err(e);
            },
        };
        if n as u64 > usize::MAX as u64 {
            return Err(Error::TooLong);
        }
        let r = self.next_bytes(n as usize);
        proof {
            let input = old(self).stream();
            if input.len() - 4 >= n {
                assert(input.skip(4).take(n as int) =~= input.subrange(4, 4 + n));
                assert(input.skip(4).skip(n as int) =~= input.skip(4 + n));
            }
        }
        r
    }
}

/// `std::str::Utf8Error`, carried through as it is.
#[verifier::external_type_specification]
#[verifier::external_body]
pub struct ExUtf8Error(std::str::Utf8Error);

/// `std::string::FromUtf8Error`, carried through as it is.
#[verifier::external_type_specification]
#[verifier::external_body]
pub struct ExFromUtf8Error(std::string::FromUtf8Error);

/// `str::from_utf8`: succeeds exactly on well-formed UTF-8 and then gives
/// the characters that the bytes encode.
pub assume_specification<'a>[ std::str::from_utf8 ](v: &'a [u8]) -> (r: Result<
    &'a str,
    std::str::Utf8Error,
>)
    ensures
        r is Ok <==> valid_utf8(v@),
        r is Ok ==> r.unwrap()@ == decode_utf8(v@),
;

/// `String::from_utf8`: succeeds exactly on well-formed UTF-8 and then gives
/// the characters that the bytes encode.
pub assume_specification[ String::from_utf8 ](vec: Vec<u8>) -> (r: Result<
    String,
    std::string::FromUtf8Error,
>)
    ensures
        r is Ok <==> valid_utf8(vec@),
        r is Ok ==> r.unwrap()@ == decode_utf8(vec@),
;

/// `Clone` for `Utf8Error`, a `Copy` type: the clone is the error itself.
pub assume_specification[ <std::str::Utf8Error as Clone>::clone ](
    e: &std::str::Utf8Error,
) -> (r: std::str::Utf8Error)
    ensures
        r == *e,
;

/// `FromUtf8Error::utf8_error`: the UTF-8 error behind a failed conversion.
/// Nothing is claimed of it.
pub assume_specification[ std::string::FromUtf8Error::utf8_error ](
    e: &std::string::FromUtf8Error,
) -> std::str::Utf8Error
;

/// `char::from_u32`: succeeds exactly on Unicode scalar values and then
/// gives the character with that value.
pub assume_specification[ char::from_u32 ](i: u32) -> (r: Option<char>)
    ensures
        r is Some <==> is_scalar(i),
        r is Some ==> r.unwrap() as u32 == i,
;

impl<'de, It: ChunkSource<'de>> Deserializer<'de, It> {
    /// A boolean: the four-byte number 1 or 0, and nothing else.
    pub fn deserialize_bool(&mut self) -> (r: Result<bool, Error>)
        ensures
            old(self).stream().len() < 4 ==> {
                &&& r == Err::<bool, Error>(Error::Eof)
                &&& final(self).stream().len() == 0
            },
            old(self).stream().len() >= 4 ==> {
                &&& final(self).stream() == old(self).stream().skip(4)
                &&& be_value(old(self).stream().take(4)) == 1 ==> r == Ok::<bool, Error>(true)
                &&& be_value(old(self).stream().take(4)) == 0 ==> r == Ok::<bool, Error>(false)
                &&& be_value(old(self).stream().take(4)) > 1 ==> r == Err::<bool, Error>(
                    Error::InvalidBoolEncoding,
                )
            },
            final(self).feed() == old(self).feed().advanced(4),
    {
        match self.next_u32() {
            Ok(1) => Ok(true),
            Ok(0) => Ok(false),
            Ok(_) => Err(Error::InvalidBoolEncoding),
            Err(e) => Err(e),
        }
    }

    /// One byte.
    pub fn deserialize_u8(&mut self) -> (r: Result<u8, Error>)
        ensures
            old(self).stream().len() > 0 ==> {
                &&& r == Ok::<u8, Error>(old(self).stream()[0])
                &&& final(self).stream() == old(self).stream().skip(1)
            },
            old(self).stream().len() == 0 ==> {
                &&& r == Err::<u8, Error>(Error::Eof)
                &&& final(self).stream().len() == 0
            },
            final(self).feed() == old(self).feed().advanced(1),
    {
        let r = self.next_byte();
        proof {
            assert(old(self).stream().skip(1) =~= old(self).stream().drop_first());
        }
        r
    }

    /// One byte, in two's complement.
    pub fn deserialize_i8(&mut self) -> (r: Result<i8, Error>)
        ensures
            old(self).stream().len() > 0 ==> {
                &&& r is Ok
                &&& r.unwrap() as int == from_twos_complement(old(self).stream()[0] as nat, 0x100)
                &&& final(self).stream() == old(self).stream().skip(1)
            },
            old(self).stream().len() == 0 ==> {
                &&& r == Err::<i8, Error>(Error::Eof)
                &&& final(self).stream().len() == 0
            },
            final(self).feed() == old(self).feed().advanced(1),
    {
        match self.deserialize_u8() {
            Ok(b) => {
                let v: i8 = if b >= 128 { ((b - 128) as i8) - 64 - 64 } else { b as i8 };
                Ok(v)
            },
            Err(e) => Err(e),
        }
    }

    /// Two bytes, big endian.
    pub fn deserialize_u16(&mut self) -> (r: Result<u16, Error>)
        ensures
            old(self).stream().len() >= 2 ==> {
                &&& r is Ok
                &&& r.unwrap() as nat == be_value(old(self).stream().take(2))
                &&& final(self).stream() == old(self).stream().skip(2)
            },
            old(self).stream().len() < 2 ==> {
                &&& r == Err::<u16, Error>(Error::Eof)
                &&& final(self).stream().len() == 0
            },
            final(self).feed() == old(self).feed().advanced(2),
    {
        match self.next_bytes_const::<2>() {
            Ok(b) => Ok(u16_from_be(&b)),
            Err(e) => Err(e),
        }
    }

    /// Four bytes, big endian.
    pub fn deserialize_u32(&mut self) -> (r: Result<u32, Error>)
        ensures
            old(self).stream().len() >= 4 ==> {
                &&& r is Ok
                &&& r.unwrap() as nat == be_value(old(self).stream().take(4))
                &&& final(self).stream() == old(self).stream().skip(4)
            },
            old(self).stream().len() < 4 ==> {
                &&& r == Err::<u32, Error>(Error::Eof)
                &&& final(self).stream().len() == 0
            },
            final(self).feed() == old(self).feed().advanced(4),
    {
        self.next_u32()
    }

    /// Eight bytes, big endian.
    pub fn deserialize_u64(&mut self) -> (r: Result<u64, Error>)
        ensures
            old(self).stream().len() >= 8 ==> {
                &&& r is Ok
                &&& r.unwrap() as nat == be_value(old(self).stream().take(8))
                &&& final(self).stream() == old(self).stream().skip(8)
            },
            old(self).stream().len() < 8 ==> {
                &&& r == Err::<u64, Error>(Error::Eof)
                &&& final(self).stream().len() == 0
            },
            final(self).feed() == old(self).feed().advanced(8),
    {
        match self.next_bytes_const::<8>() {
            Ok(b) => Ok(u64_from_be(&b)),
            Err(e) => Err(e),
        }
    }

    /// Two bytes, big endian, in two's complement.
    pub fn deserialize_i16(&mut self) -> (r: Result<i16, Error>)
        ensures
            old(self).stream().len() >= 2 ==> {
                &&& r is Ok
                &&& r.unwrap() as int == from_twos_complement(
                    be_value(old(self).stream().take(2)),
                    0x1_0000,
                )
                &&& final(self).stream() == old(self).stream().skip(2)
            },
            old(self).stream().len() < 2 ==> {
                &&& r == Err::<i16, Error>(Error::Eof)
                &&& final(self).stream().len() == 0
            },
            final(self).feed() == old(self).feed().advanced(2),
    {
        match self.deserialize_u16() {
            Ok(u) => {
                let v: i16 = if u >= 0x8000 {
                    ((u - 0x8000) as i16) - 0x4000 - 0x4000
                } else {
                    u as i16
                };
                Ok(v)
            },
            Err(e) => Err(e),
        }
    }

    /// Four bytes, big endian, in two's complement.
    pub fn deserialize_i32(&mut self) -> (r: Result<i32, Error>)
        ensures
            old(self).stream().len() >= 4 ==> {
                &&& r is Ok
                &&& r.unwrap() as int == from_twos_complement(
                    be_value(old(self).stream().take(4)),
                    0x1_0000_0000,
                )
                &&& final(self).stream() == old(self).stream().skip(4)
            },
            old(self).stream().len() < 4 ==> {
                &&& r == Err::<i32, Error>(Error::Eof)
                &&& final(self).stream().len() == 0
            },
            final(self).feed() == old(self).feed().advanced(4),
    {
        match self.deserialize_u32() {
            Ok(u) => {
                let v: i32 = if u >= 0x8000_0000 {
                    ((u - 0x8000_0000) as i32) - 0x4000_0000 - 0x4000_0000
                } else {
                    u as i32
                };
                Ok(v)
            },
            Err(e) => Err(e),
        }
    }

    /// Eight bytes, big endian, in two's complement.
    pub fn deserialize_i64(&mut self) -> (r: Result<i64, Error>)
        ensures
            old(self).stream().len() >= 8 ==> {
                &&& r is Ok
                &&& r.unwrap() as int == from_twos_complement(
                    be_value(old(self).stream().take(8)),
                    0x1_0000_0000_0000_0000,
                )
                &&& final(self).stream() == old(self).stream().skip(8)
            },
            old(self).stream().len() < 8 ==> {
                &&& r == Err::<i64, Error>(Error::Eof)
                &&& final(self).stream().len() == 0
            },
            final(self).feed() == old(self).feed().advanced(8),
    {
        match self.deserialize_u64() {
            Ok(u) => {
                let v: i64 = if u >= 0x8000_0000_0000_0000 {
                    ((u - 0x8000_0000_0000_0000) as i64) - 0x4000_0000_0000_0000
                        - 0x4000_0000_0000_0000
                } else {
                    u as i64
                };
                Ok(v)
            },
            Err(e) => Err(e),
        }
    }

    /// A character: four bytes that hold a Unicode scalar value.
    pub fn deserialize_char(&mut self) -> (r: Result<char, Error>)
        ensures
            old(self).stream().len() < 4 ==> {
                &&& r == Err::<char, Error>(Error::Eof)
                &&& final(self).stream().len() == 0
            },
            old(self).stream().len() >= 4 ==> {
                &&& final(self).stream() == old(self).stream().skip(4)
                &&& match scalar_of(be_value(old(self).stream().take(4))) {
                    Some(c) => r == Ok::<char, Error>(c),
                    None => r == Err::<char, Error>(Error::InvalidChar),
                }
            },
            final(self).feed() == old(self).feed().advanced(4),
    {
        match self.next_u32() {
            Ok(n) => match char::from_u32(n) {
                Some(ch) => {
                    proof {
                        vstd::utf8::char_u32_cast(ch, n);
                    }
                    Ok(ch)
                },
                None => Err(Error::InvalidChar),
            },
            Err(e) => Err(e),
        }
    }
}

/// Counts down the elements of a tuple or sequence that are still to be
/// decoded.
#[derive(Clone, Copy, Debug)]
pub struct Access {
    len: usize,
}

impl Access {
    /// The number of elements that are still to come.
    pub closed spec fn remaining(&self) -> nat {
        self.len as nat
    }

    /// An access to `len` elements.
    pub fn new(len: usize) -> (a: Self)
        ensures
            a.remaining() == len,
    {
        Access { len }
    }

    /// Whether another element is to be decoded; if so, it is counted off.
    pub fn next_element(&mut self) -> (more: bool)
        ensures
            more <==> old(self).remaining() > 0,
            more ==> final(self).remaining() == old(self).remaining() - 1,
            !more ==> final(self).remaining() == 0,
    {
        if self.len > 0 {
            self.len -= 1;
            true
        } else {
            false
        }
    }

    /// The number of elements that are still to come, always known.
    pub fn size_hint(&self) -> (n: Option<usize>)
        ensures
            n == Some(self.remaining() as usize),
    {
        Some(self.len)
    }
}

impl<'de, It: ChunkSource<'de>> Deserializer<'de, It> {
    /// A string: a four-byte length, then that many bytes of UTF-8. The
    /// result borrows from the input where the bytes lie in one chunk.
    pub fn deserialize_str(&mut self) -> (r: Result<Cow<'de, str>, Error>)
        ensures
            match length_delimited(old(self).stream()) {
                Some(content) => {
                    &&& final(self).stream() == old(self).stream().skip(4 + content.len() as int)
                    &&& valid_utf8(content) ==> {
                        &&& r is Ok
                        &&& r.unwrap()@ == decode_utf8(content)
                        &&& r.unwrap() is Borrowed <==> old(self).field_in_one_chunk(content.len())
                    }
                    &&& !valid_utf8(content) ==> {
                        &&& r is Err
                        &&& r.unwrap_err().kind() == ErrorKind::InvalidStr
                    }
                },
                None => {
                    &&& r is Err
                    &&& r.unwrap_err().kind() == ErrorKind::Eof
                    &&& final(self).stream().len() == 0
                },
            },
            final(self).feed() == old(self).feed().past_field(),
    {
        match self.parse_bytes() {
            Ok(Cow::Owned(owned_bytes)) => match String::from_utf8(owned_bytes) {
                Ok(s) => Ok(Cow::Owned(s)),
                Err(e) => Err(Error::InvalidStr(e.utf8_error())),
            },
            Ok(Cow::Borrowed(bytes)) => match std::str::from_utf8(bytes) {
                Ok(s) => Ok(Cow::Borrowed(s)),
                Err(e) => Err(Error::InvalidStr(e)),
            },
            Err(e) => Err(e),
        }
    }

    /// A string, as `deserialize_str` reads it.
    pub fn deserialize_string(&mut self) -> (r: Result<Cow<'de, str>, Error>)
        ensures
            match length_delimited(old(self).stream()) {
                Some(content) => {
                    &&& final(self).stream() == old(self).stream().skip(4 + content.len() as int)
                    &&& valid_utf8(content) ==> {
                        &&& r is Ok
                        &&& r.unwrap()@ == decode_utf8(content)
                        &&& r.unwrap() is Borrowed <==> old(self).field_in_one_chunk(content.len())
                    }
                    &&& !valid_utf8(content) ==> {
                        &&& r is Err
                        &&& r.unwrap_err().kind() == ErrorKind::InvalidStr
                    }
                },
                None => {
                    &&& r is Err
                    &&& r.unwrap_err().kind() == ErrorKind::Eof
                    &&& final(self).stream().len() == 0
                },
            },
            final(self).feed() == old(self).feed().past_field(),
    {
        self.deserialize_str()
    }

    /// A byte string: a four-byte length, then that many bytes. The result
    /// borrows from the input where the bytes lie in one chunk.
    pub fn deserialize_bytes(&mut self) -> (r: Result<Cow<'de, [u8]>, Error>)
        ensures
            match length_delimited(old(self).stream()) {
                Some(content) => {
                    &&& r is Ok
                    &&& r.unwrap()@ == content
                    &&& r.unwrap() is Borrowed <==> old(self).field_in_one_chunk(content.len())
                    &&& final(self).stream() == old(self).stream().skip(4 + content.len() as int)
                },
                None => {
                    &&& r is Err
                    &&& r.unwrap_err().kind() == ErrorKind::Eof
                    &&& final(self).stream().len() == 0
                },
            },
            final(self).feed() == old(self).feed().past_field(),
    {
        self.parse_bytes()
    }

    /// A byte string, as `deserialize_bytes` reads it.
    pub fn deserialize_byte_buf(&mut self) -> (r: Result<Cow<'de, [u8]>, Error>)
        ensures
            match length_delimited(old(self).stream()) {
                Some(content) => {
                    &&& r is Ok
                    &&& r.unwrap()@ == content
                    &&& r.unwrap() is Borrowed <==> old(self).field_in_one_chunk(content.len())
                    &&& final(self).stream() == old(self).stream().skip(4 + content.len() as int)
                },
                None => {
                    &&& r is Err
                    &&& r.unwrap_err().kind() == ErrorKind::Eof
                    &&& final(self).stream().len() == 0
                },
            },
            final(self).feed() == old(self).feed().past_field(),
    {
        self.deserialize_bytes()
    }

    /// A unit takes no bytes.
    pub fn deserialize_unit(&mut self) -> (r: Result<(), Error>)
        ensures
            r is Ok,
            *final(self) == *old(self),
    {
        Ok(())
    }

    /// A unit struct takes no bytes.
    pub fn deserialize_unit_struct(&mut self) -> (r: Result<(), Error>)
        ensures
            r is Ok,
            *final(self) == *old(self),
    {
        self.deserialize_unit()
    }

    /// Opens a tuple of `len` fields: a tuple has no framing, so nothing is
    /// read.
    pub fn deserialize_tuple(&mut self, len: usize) -> (r: Result<Access, Error>)
        ensures
            r is Ok,
            r.unwrap().remaining() == len,
            *final(self) == *old(self),
    {
        Ok(Access::new(len))
    }

    /// Opens a tuple struct of `len` fields: nothing is read.
    pub fn deserialize_tuple_struct(&mut self, len: usize) -> (r: Result<Access, Error>)
        ensures
            r is Ok,
            r.unwrap().remaining() == len,
            *final(self) == *old(self),
    {
        self.deserialize_tuple(len)
    }

    /// Opens a struct with the given fields: nothing is read.
    pub fn deserialize_struct(&mut self, fields: &[&str]) -> (r: Result<Access, Error>)
        ensures
            r is Ok,
            r.unwrap().remaining() == fields@.len(),
            *final(self) == *old(self),
    {
        self.deserialize_tuple(fields.len())
    }

    /// Opens a sequence: reads its four-byte count.
    pub fn deserialize_seq(&mut self) -> (r: Result<Access, Error>)
        ensures
            old(self).stream().len() >= 4 ==> {
                &&& r is Ok
                &&& r.unwrap().remaining() == be_value(old(self).stream().take(4))
                &&& final(self).stream() == old(self).stream().skip(4)
            },
            old(self).stream().len() < 4 ==> {
                &&& r == Err::<Access, Error>(Error::Eof)
                &&& final(self).stream().len() == 0
            },
            final(self).feed() == old(self).feed().advanced(4),
    {
        match self.next_u32() {
            Ok(n) => Ok(Access::new(n as usize)),
            Err(e) => Err(e),
        }
    }

    /// Opens an enum: reads the four-byte variant index and hands it on as
    /// it is. Which indices exist is for the caller to say.
    pub fn deserialize_enum(&mut self) -> (r: Result<u32, Error>)
        ensures
            old(self).stream().len() >= 4 ==> {
                &&& r is Ok
                &&& r.unwrap() as nat == be_value(old(self).stream().take(4))
                &&& final(self).stream() == old(self).stream().skip(4)
            },
            old(self).stream().len() < 4 ==> {
                &&& r == Err::<u32, Error>(Error::Eof)
                &&& final(self).stream().len() == 0
            },
            final(self).feed() == old(self).feed().advanced(4),
    {
        let idx: u32 = match self.next_u32() {
            Ok(idx) => idx,
            Err(e) => {
                return Err(e);
            },
        };
        Ok(idx)
    }

    /// A unit variant has no payload: nothing is read.
    pub fn unit_variant(&mut self) -> (r: Result<(), Error>)
        ensures
            r is Ok,
            *final(self) == *old(self),
    {
        Ok(())
    }

    /// Opens the payload of a tuple variant of `len` fields: nothing is read.
    pub fn tuple_variant(&mut self, len: usize) -> (r: Result<Access, Error>)
        ensures
            r is Ok,
            r.unwrap().remaining() == len,
            *final(self) == *old(self),
    {
        self.deserialize_tuple(len)
    }

    /// Opens the payload of a struct variant: nothing is read.
    pub fn struct_variant(&mut self, fields: &[&str]) -> (r: Result<Access, Error>)
        ensures
            r is Ok,
            r.unwrap().remaining() == fields@.len(),
            *final(self) == *old(self),
    {
        self.deserialize_tuple(fields.len())
    }

    /// Decoding without being told the shape cannot be done: always fails,
    /// and reads nothing.
    pub fn deserialize_any(&mut self) -> (r: Result<(), Error>)
        ensures
            r is Err,
            r.unwrap_err().kind() == ErrorKind::Unsupported,
            *final(self) == *old(self),
    {
        Err(Error::Unsupported("deserialize_any"))
    }

    /// An optional value leaves no trace in the bytes, so it cannot be
    /// decoded as such: always fails, and reads nothing.
    pub fn deserialize_option(&mut self) -> (r: Result<(), Error>)
        ensures
            r is Err,
            r.unwrap_err().kind() == ErrorKind::Unsupported,
            *final(self) == *old(self),
    {
        Err(Error::Unsupported("deserialize_option"))
    }

    /// A map cannot be expressed: always fails, and reads nothing.
    pub fn deserialize_map(&mut self) -> (r: Result<(), Error>)
        ensures
            r is Err,
            r.unwrap_err().kind() == ErrorKind::Unsupported,
            *final(self) == *old(self),
    {
        Err(Error::Unsupported("deserialize_map"))
    }

    /// Identifiers are not part of the format: always fails, and reads
    /// nothing.
    pub fn deserialize_identifier(&mut self) -> (r: Result<(), Error>)
        ensures
            r is Err,
            r.unwrap_err().kind() == ErrorKind::Unsupported,
            *final(self) == *old(self),
    {
        Err(Error::Unsupported("deserialize_identifier"))
    }

    /// Skipping a value needs its shape: always fails, and reads nothing.
    pub fn deserialize_ignored_any(&mut self) -> (r: Result<(), Error>)
        ensures
            r is Err,
            r.unwrap_err().kind() == ErrorKind::Unsupported,
            *final(self) == *old(self),
    {
        Err(Error::Unsupported("deserialize_ignored_any"))
    }
}

impl<'de, It: ChunkSource<'de>> Deserializer<'de, It> {
    /// What reading a value of the given form comes to: `r` is what the
    /// bytes before `before` hold, and `self` is `before` moved past what
    /// was read.
    pub open spec fn has_read(&self, before: &Self, form: Form, r: Result<Value, Error>) -> bool {
        &&& match decode(form, before.stream()) {
            Ok((d, rest)) => r is Ok && r.unwrap()@ == d && self.stream() == rest,
            Err(k) => {
                &&& r is Err
                &&& r.unwrap_err().kind() == k
                &&& k == ErrorKind::Eof ==> self.stream().len() == 0
            },
        }
        &&& self.feed() == feed_after(form, before.feed())
    }

    /// Decodes one value of the given shape from the front of the input.
    /// When the input ends too early it is used up.
    #[verifier::loop_isolation(false)]
    pub fn deserialize_value(&mut self, shape: &Shape) -> (r: Result<Value, Error>)
        ensures
            final(self).has_read(old(self), shape@, r),
        decreases shape, 0nat,
    {
        let ghost input = self.stream();
        proof {
            crate::shape::lemma_form_of_composite(*shape);
            if input.len() >= 1 {
                crate::format::lemma_be_value_single(input);
            }
        }
        match shape {
            Shape::Bool => match self.deserialize_bool() {
                Ok(b) => Ok(Value::Bool(b)),
                Err(e) => Err(e),
            },
            Shape::U8 => match self.deserialize_u8() {
                Ok(n) => Ok(Value::U8(n)),
                Err(e) => Err(e),
            },
            Shape::U16 => match self.deserialize_u16() {
                Ok(n) => Ok(Value::U16(n)),
                Err(e) => Err(e),
            },
            Shape::U32 => match self.deserialize_u32() {
                Ok(n) => Ok(Value::U32(n)),
                Err(e) => Err(e),
            },
            Shape::U64 => match self.deserialize_u64() {
                Ok(n) => Ok(Value::U64(n)),
                Err(e) => Err(e),
            },
            Shape::I8 => match self.deserialize_i8() {
                Ok(n) => Ok(Value::I8(n)),
                Err(e) => Err(e),
            },
            Shape::I16 => match self.deserialize_i16() {
                Ok(n) => Ok(Value::I16(n)),
                Err(e) => Err(e),
            },
            Shape::I32 => match self.deserialize_i32() {
                Ok(n) => Ok(Value::I32(n)),
                Err(e) => Err(e),
            },
            Shape::I64 => match self.deserialize_i64() {
                Ok(n) => Ok(Value::I64(n)),
                Err(e) => Err(e),
            },
            Shape::Char => match self.deserialize_char() {
                Ok(c) => Ok(Value::Char(c)),
                Err(e) => Err(e),
            },
            Shape::Str => match self.deserialize_str() {
                Ok(Cow::Owned(s)) => Ok(Value::Str(s)),
                Ok(Cow::Borrowed(s)) => Ok(Value::Str(s.to_owned())),
                Err(e) => Err(e),
            },
            Shape::Bytes => match self.deserialize_bytes() {
                Ok(Cow::Owned(b)) => Ok(Value::Bytes(b)),
                Ok(Cow::Borrowed(b)) => Ok(Value::Bytes(vstd::slice::slice_to_vec(b))),
                Err(e) => Err(e),
            },
            Shape::Unit => match self.deserialize_unit() {
                Ok(()) => Ok(Value::Unit),
                Err(e) => Err(e),
            },
            Shape::Tuple(fields) => match self.deserialize_fields(fields) {
                Ok(values) => {
                    proof {
                        crate::value::lemma_datum_of_composite(Value::Tuple(values));
                    }
                    Ok(Value::Tuple(values))
                },
                Err(e) => Err(e),
            },
            Shape::List(elem) => {
                let mut access = match self.deserialize_seq() {
                    Ok(access) => access,
                    Err(e) => {
                        return Err(e);
                    },
                };
                let ghost count = access.remaining();
                let ghost body = self.stream();
                let ghost start = self.feed();
                let mut values: Vec<Value> = Vec::new();
                proof {
                    assert(data(values@) =~= Seq::<Datum>::empty());
                }
                while access.next_element()
                    invariant
                        values@.len() + access.remaining() == count,
                        decode_repeat((**elem)@, values@.len() as nat, body) == Ok::<
                            (Seq<Datum>, Seq<u8>),
                            ErrorKind,
                        >((data(values@), self.stream())),
                        self.feed() == feed_after_repeat((**elem)@, values@.len() as nat, start),
                    decreases access.remaining(),
                {
                    let ghost done = values@;
                    match self.deserialize_value(elem) {
                        Ok(v) => {
                            values.push(v);
                            proof {
                                assert(data(values@) =~= data(done).push(v@));
                            }
                        },
                        Err(e) => {
                            proof {
                                crate::format::lemma_decode_repeat_failure(
                                    (**elem)@,
                                    done.len() as nat,
                                    count,
                                    body,
                                );
                                crate::format::lemma_feed_after_repeat_failure(
                                    (**elem)@,
                                    done.len() as nat,
                                    count,
                                    start,
                                );
                            }
                            return Err(e);
                        },
                    }
                }
                proof {
                    crate::value::lemma_datum_of_composite(Value::List(values));
                }
                Ok(Value::List(values))
            },
            Shape::Enum(variants) => {
                let idx: u32 = match self.deserialize_enum() {
                    Ok(idx) => idx,
                    Err(e) => {
                        return Err(e);
                    },
                };
                if (idx as u64) < (variants.len() as u64) {
                    match self.deserialize_value(&variants[idx as usize]) {
                        Ok(payload) => Ok(Value::Variant(idx, Box::new(payload))),
                        Err(e) => Err(e),
                    }
                } else {
                    Err(Error::custom("unknown variant index"))
                }
            },
            Shape::Optional(_) => match self.deserialize_option() {
                Ok(()) => Ok(Value::Absent),
                Err(e) => Err(e),
            },
            Shape::Dict(_, _) => match self.deserialize_map() {
                Ok(()) => Ok(Value::Unit),
                Err(e) => Err(e),
            },
            Shape::Any => match self.deserialize_any() {
                Ok(()) => Ok(Value::Unit),
                Err(e) => Err(e),
            },
        }
    }

    /// Decodes the fields of a tuple or struct, one after another.
    #[verifier::loop_isolation(false)]
    pub fn deserialize_fields(&mut self, shapes: &Vec<Shape>) -> (r: Result<Vec<Value>, Error>)
        ensures
            match decode_fields(forms(shapes@), shapes@.len(), old(self).stream()) {
                Ok((ds, rest)) => {
                    &&& r is Ok
                    &&& data(r.unwrap()@) == ds
                    &&& final(self).stream() == rest
                },
                Err(k) => {
                    &&& r is Err
                    &&& r.unwrap_err().kind() == k
                    &&& k == ErrorKind::Eof ==> final(self).stream().len() == 0
                },
            },
            final(self).feed() == feed_after_fields(forms(shapes@), shapes@.len(), old(self).feed()),
        decreases shapes, 1nat,
    {
        let ghost input = self.stream();
        let ghost fs = forms(shapes@);
        let mut access = match self.deserialize_tuple(shapes.len()) {
            Ok(access) => access,
            Err(e) => {
                return Err(e);
            },
        };
        let mut values: Vec<Value> = Vec::new();
        proof {
            assert(data(values@) =~= Seq::<Datum>::empty());
        }
        while access.next_element()
            invariant
                fs == forms(shapes@),
                values@.len() + access.remaining() == shapes@.len(),
                decode_fields(fs, values@.len() as nat, input) == Ok::<
                    (Seq<Datum>, Seq<u8>),
                    ErrorKind,
                >((data(values@), self.stream())),
                self.feed() == feed_after_fields(fs, values@.len() as nat, old(self).feed()),
            decreases access.remaining(),
        {
            let ghost done = values@;
            let i: usize = values.len();
            match self.deserialize_value(&shapes[i]) {
                Ok(v) => {
                    values.push(v);
                    proof {
                        assert(data(values@) =~= data(done).push(v@));
                    }
                },
                Err(e) => {
                    proof {
                        crate::format::lemma_decode_fields_failure(
                            fs,
                            done.len() as nat,
                            shapes@.len(),
                            input,
                        );
                        crate::format::lemma_feed_after_fields_failure(
                            fs,
                            done.len() as nat,
                            shapes@.len(),
                            old(self).feed(),
                        );
                    }
                    return Err(e);
                },
            }
        }
        Ok(values)
    }
}

/// Decodes one value of the given shape from the front of `s` and returns it
/// with the bytes that follow it.
pub fn from_bytes<'a>(shape: &Shape, s: &'a [u8]) -> (r: Result<(Value, &'a [u8]), Error>)
    ensures
        match decode(shape@, s@) {
            Ok((d, rest)) => r is Ok && r.unwrap().0@ == d && r.unwrap().1@ == rest,
            Err(k) => r is Err && r.unwrap_err().kind() == k,
        },
{
    let mut deserializer = Deserializer::from_bytes(s);
    match deserializer.deserialize_value(shape) {
        Ok(t) => {
            let (rest, _) = deserializer.into_inner();
            proof {
                assert(deserializer.stream() =~= rest@);
            }
            Ok((t, rest))
        },
        Err(e) => Err(e),
    }
}

} // verus!
