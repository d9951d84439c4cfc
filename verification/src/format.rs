//! The wire format, stated as mathematics: which bytes a value becomes.

use crate::error::ErrorKind;
use crate::shape::Form;
use crate::source::Feed;
use crate::value::Datum;
use crate::wire::{be_bytes, be_value};
use vstd::prelude::*;
use vstd::utf8::{decode_utf8, encode_utf8, is_scalar, valid_utf8};

verus! {

/// The largest length or count a four-byte prefix can hold.
pub open spec fn max_len() -> nat {
    0xffff_ffff
}

/// The bit pattern of a signed number in two's complement, `modulus` being
/// two to the power of the width in bits.
pub open spec fn twos_complement(v: int, modulus: int) -> nat {
    if v < 0 {
        (v + modulus) as nat
    } else {
        v as nat
    }
}

/// A four-byte length followed by the content, or `TooLong` when the length
/// does not fit four bytes.
pub open spec fn length_prefixed(content: Seq<u8>) -> Result<Seq<u8>, ErrorKind> {
    if content.len() <= max_len() {
        Ok(be_bytes(content.len(), 4) + content)
    } else {
        Err(ErrorKind::TooLong)
    }
}

/// The encoding of a string: its UTF-8 bytes behind their length.
pub open spec fn encode_str(s: Seq<char>) -> Result<Seq<u8>, ErrorKind> {
    length_prefixed(encode_utf8(s))
}

/// `head` followed by `tail`, or the first failure of the two.
pub open spec fn join(head: Result<Seq<u8>, ErrorKind>, tail: Result<Seq<u8>, ErrorKind>) -> Result<
    Seq<u8>,
    ErrorKind,
> {
    match head {
        Err(e) => Err(e),
        Ok(h) => match tail {
            Err(e) => Err(e),
            Ok(t) => Ok(h + t),
        },
    }
}

/// The bytes a value becomes, without the message header, or the reason it
/// cannot be encoded. A composite fails with the failure of its first
/// component that fails.
pub open spec fn encode(d: Datum) -> Result<Seq<u8>, ErrorKind>
    decreases d, 0nat,
{
    match d {
        Datum::Bool(b) => Ok(be_bytes(if b { 1 } else { 0 }, 4)),
        Datum::U8(n) => Ok(seq![n]),
        Datum::U16(n) => Ok(be_bytes(n as nat, 2)),
        Datum::U32(n) => Ok(be_bytes(n as nat, 4)),
        Datum::U64(n) => Ok(be_bytes(n as nat, 8)),
        Datum::I8(n) => Ok(be_bytes(twos_complement(n as int, 0x100), 1)),
        Datum::I16(n) => Ok(be_bytes(twos_complement(n as int, 0x1_0000), 2)),
        Datum::I32(n) => Ok(be_bytes(twos_complement(n as int, 0x1_0000_0000), 4)),
        Datum::I64(n) => Ok(be_bytes(twos_complement(n as int, 0x1_0000_0000_0000_0000), 8)),
        Datum::Char(c) => Ok(be_bytes(c as u32 as nat, 4)),
        Datum::Str(s) => encode_str(s),
        Datum::Bytes(b) => length_prefixed(b),
        Datum::Unit => Ok(Seq::empty()),
        Datum::Absent => Ok(Seq::empty()),
        Datum::Present(v) => encode(*v),
        Datum::Tuple(fs) => encode_fields(fs, fs.len()),
        Datum::List(es) => if es.len() <= max_len() {
            join(Ok(be_bytes(es.len(), 4)), encode_fields(es, es.len()))
        } else {
            Err(ErrorKind::TooLong)
        },
        Datum::Variant(idx, p) => join(Ok(be_bytes(idx as nat, 4)), encode(*p)),
        Datum::Dict(_) => Err(ErrorKind::Unsupported),
    }
}

/// The encodings of the first `n` of `ds`, one after another.
pub open spec fn encode_fields(ds: Seq<Datum>, n: nat) -> Result<Seq<u8>, ErrorKind>
    decreases ds, n,
{
    if n == 0 || n > ds.len() {
        Ok(Seq::empty())
    } else {
        join(encode_fields(ds, (n - 1) as nat), encode(ds[n - 1]))
    }
}

/// Once a component fails, every longer run of components fails the same way.
pub proof fn lemma_encode_fields_failure(ds: Seq<Datum>, i: nat, n: nat)
    requires
        i < n <= ds.len(),
        encode_fields(ds, i + 1) is Err,
    ensures
        encode_fields(ds, n) == encode_fields(ds, i + 1),
    decreases n,
{
    if n > i + 1 {
        lemma_encode_fields_failure(ds, i, (n - 1) as nat);
    }
}

/// The signed number whose two's-complement bit pattern in `modulus` is `n`.
pub open spec fn from_twos_complement(n: nat, modulus: int) -> int {
    if 2 * n >= modulus {
        n - modulus
    } else {
        n as int
    }
}

/// The character whose Unicode scalar value is `n`, if there is one.
pub open spec fn scalar_of(n: nat) -> Option<char> {
    if n <= u32::MAX && is_scalar(n as u32) {
        Some(n as u32 as char)
    } else {
        None
    }
}

/// The content that a length-prefixed field at the front of `input` holds,
/// if `input` holds all of it.
pub open spec fn length_delimited(input: Seq<u8>) -> Option<Seq<u8>> {
    if input.len() >= 4 && input.len() - 4 >= be_value(input.take(4)) {
        Some(input.subrange(4, 4 + be_value(input.take(4)) as int))
    } else {
        None
    }
}

/// The number in the first `width` bytes of `input` and what follows them,
/// or `Eof` when `input` is shorter.
pub open spec fn read_number(input: Seq<u8>, width: nat) -> Result<(nat, Seq<u8>), ErrorKind> {
    if input.len() >= width {
        Ok((be_value(input.take(width as int)), input.skip(width as int)))
    } else {
        Err(ErrorKind::Eof)
    }
}

/// The value of the given form at the front of `input` and the bytes that
/// follow it, or the reason there is none. A composite fails with the
/// failure of its first component that fails.
pub open spec fn decode(form: Form, input: Seq<u8>) -> Result<(Datum, Seq<u8>), ErrorKind>
    decreases form, 0nat,
{
    match form {
        Form::Bool => match read_number(input, 4) {
            Err(e) => Err(e),
            Ok((n, rest)) => if n == 1 {
                Ok((Datum::Bool(true), rest))
            } else if n == 0 {
                Ok((Datum::Bool(false), rest))
            } else {
                Err(ErrorKind::InvalidBoolEncoding)
            },
        },
        Form::U8 => match read_number(input, 1) {
            Err(e) => Err(e),
            Ok((n, rest)) => Ok((Datum::U8(n as u8), rest)),
        },
        Form::U16 => match read_number(input, 2) {
            Err(e) => Err(e),
            Ok((n, rest)) => Ok((Datum::U16(n as u16), rest)),
        },
        Form::U32 => match read_number(input, 4) {
            Err(e) => Err(e),
            Ok((n, rest)) => Ok((Datum::U32(n as u32), rest)),
        },
        Form::U64 => match read_number(input, 8) {
            Err(e) => Err(e),
            Ok((n, rest)) => Ok((Datum::U64(n as u64), rest)),
        },
        Form::I8 => match read_number(input, 1) {
            Err(e) => Err(e),
            Ok((n, rest)) => Ok((Datum::I8(from_twos_complement(n, 0x100) as i8), rest)),
        },
        Form::I16 => match read_number(input, 2) {
            Err(e) => Err(e),
            Ok((n, rest)) => Ok((Datum::I16(from_twos_complement(n, 0x1_0000) as i16), rest)),
        },
        Form::I32 => match read_number(input, 4) {
            Err(e) => Err(e),
            Ok((n, rest)) => Ok((Datum::I32(from_twos_complement(n, 0x1_0000_0000) as i32), rest)),
        },
        Form::I64 => match read_number(input, 8) {
            Err(e) => Err(e),
            Ok((n, rest)) => Ok(
                (Datum::I64(from_twos_complement(n, 0x1_0000_0000_0000_0000) as i64), rest),
            ),
        },
        Form::Char => match read_number(input, 4) {
            Err(e) => Err(e),
            Ok((n, rest)) => match scalar_of(n) {
                Some(c) => Ok((Datum::Char(c), rest)),
                None => Err(ErrorKind::InvalidChar),
            },
        },
        Form::Str => match length_delimited(input) {
            None => Err(ErrorKind::Eof),
            Some(content) => if valid_utf8(content) {
                Ok((Datum::Str(decode_utf8(content)), input.skip(4 + content.len() as int)))
            } else {
                Err(ErrorKind::InvalidStr)
            },
        },
        Form::Bytes => match length_delimited(input) {
            None => Err(ErrorKind::Eof),
            Some(content) => Ok((Datum::Bytes(content), input.skip(4 + content.len() as int))),
        },
        Form::Unit => Ok((Datum::Unit, input)),
        Form::Tuple(fs) => match decode_fields(fs, fs.len(), input) {
            Err(e) => Err(e),
            Ok((ds, rest)) => Ok((Datum::Tuple(ds), rest)),
        },
        Form::List(elem) => match read_number(input, 4) {
            Err(e) => Err(e),
            Ok((n, rest)) => match decode_repeat(*elem, n, rest) {
                Err(e) => Err(e),
                Ok((ds, after)) => Ok((Datum::List(ds), after)),
            },
        },
        Form::Enum(vs) => match read_number(input, 4) {
            Err(e) => Err(e),
            Ok((idx, rest)) => if idx < vs.len() {
                match decode(vs[idx as int], rest) {
                    Err(e) => Err(e),
                    Ok((payload, after)) => Ok(
                        (Datum::Variant(idx as u32, Box::new(payload)), after),
                    ),
                }
            } else {
                Err(ErrorKind::Message)
            },
        },
        Form::Optional(_) => Err(ErrorKind::Unsupported),
        Form::Dict(_, _) => Err(ErrorKind::Unsupported),
        Form::Any => Err(ErrorKind::Unsupported),
    }
}

/// The values of the first `n` of `fs`, decoded one after another from the
/// front of `input`, and the bytes that follow them.
pub open spec fn decode_fields(fs: Seq<Form>, n: nat, input: Seq<u8>) -> Result<
    (Seq<Datum>, Seq<u8>),
    ErrorKind,
>
    decreases fs, n,
{
    if n == 0 || n > fs.len() {
        Ok((Seq::empty(), input))
    } else {
        match decode_fields(fs, (n - 1) as nat, input) {
            Err(e) => Err(e),
            Ok((ds, rest)) => match decode(fs[n - 1], rest) {
                Err(e) => Err(e),
                Ok((d, after)) => Ok((ds.push(d), after)),
            },
        }
    }
}

/// `n` values of the form `elem`, decoded one after another from the front
/// of `input`, and the bytes that follow them.
pub open spec fn decode_repeat(elem: Form, n: nat, input: Seq<u8>) -> Result<
    (Seq<Datum>, Seq<u8>),
    ErrorKind,
>
    decreases elem, n + 1,
{
    if n == 0 {
        Ok((Seq::empty(), input))
    } else {
        match decode_repeat(elem, (n - 1) as nat, input) {
            Err(e) => Err(e),
            Ok((ds, rest)) => match decode(elem, rest) {
                Err(e) => Err(e),
                Ok((d, after)) => Ok((ds.push(d), after)),
            },
        }
    }
}

/// Once a field fails, every longer run of fields fails the same way.
pub proof fn lemma_decode_fields_failure(fs: Seq<Form>, i: nat, n: nat, input: Seq<u8>)
    requires
        i < n <= fs.len(),
        decode_fields(fs, i + 1, input) is Err,
    ensures
        decode_fields(fs, n, input) == decode_fields(fs, i + 1, input),
    decreases n,
{
    if n > i + 1 {
        lemma_decode_fields_failure(fs, i, (n - 1) as nat, input);
    }
}

/// Once an element fails, every longer run of elements fails the same way.
pub proof fn lemma_decode_repeat_failure(elem: Form, i: nat, n: nat, input: Seq<u8>)
    requires
        i < n,
        decode_repeat(elem, i + 1, input) is Err,
    ensures
        decode_repeat(elem, n, input) == decode_repeat(elem, i + 1, input),
    decreases n,
{
    if n > i + 1 {
        lemma_decode_repeat_failure(elem, i, (n - 1) as nat, input);
    }
}

/// One byte stands for its own value.
pub proof fn lemma_be_value_single(input: Seq<u8>)
    requires
        input.len() >= 1,
    ensures
        be_value(input.take(1)) == input[0],
{
    reveal_with_fuel(be_value, 2);
    assert(input.take(1).drop_last() =~= Seq::<u8>::empty());
}

/// Whether `d` is a value of the form `form`. Optional values and maps are
/// of no form: the bytes cannot express them.
pub open spec fn fits(d: Datum, form: Form) -> bool
    decreases d,
{
    match (d, form) {
        (Datum::Bool(_), Form::Bool) => true,
        (Datum::U8(_), Form::U8) => true,
        (Datum::U16(_), Form::U16) => true,
        (Datum::U32(_), Form::U32) => true,
        (Datum::U64(_), Form::U64) => true,
        (Datum::I8(_), Form::I8) => true,
        (Datum::I16(_), Form::I16) => true,
        (Datum::I32(_), Form::I32) => true,
        (Datum::I64(_), Form::I64) => true,
        (Datum::Char(_), Form::Char) => true,
        (Datum::Str(_), Form::Str) => true,
        (Datum::Bytes(_), Form::Bytes) => true,
        (Datum::Unit, Form::Unit) => true,
        (Datum::Tuple(ds), Form::Tuple(fs)) => ds.len() == fs.len() && forall|i: int|
            0 <= i < ds.len() ==> fits(#[trigger] ds[i], fs[i]),
        (Datum::List(ds), Form::List(elem)) => forall|i: int|
            0 <= i < ds.len() ==> fits(#[trigger] ds[i], *elem),
        (Datum::Variant(idx, payload), Form::Enum(vs)) => idx < vs.len() && fits(
            *payload,
            vs[idx as int],
        ),
        _ => false,
    }
}

/// The feed after a value of the given form has been read from it, or after
/// the read has failed: each part of the value moves the feed on in its
/// turn, and nothing is read behind a part that fails.
pub open spec fn feed_after(form: Form, feed: Feed) -> Feed
    decreases form, 0nat,
{
    match form {
        Form::Bool => feed.advanced(4),
        Form::U8 => feed.advanced(1),
        Form::U16 => feed.advanced(2),
        Form::U32 => feed.advanced(4),
        Form::U64 => feed.advanced(8),
        Form::I8 => feed.advanced(1),
        Form::I16 => feed.advanced(2),
        Form::I32 => feed.advanced(4),
        Form::I64 => feed.advanced(8),
        Form::Char => feed.advanced(4),
        Form::Str => feed.past_field(),
        Form::Bytes => feed.past_field(),
        Form::Unit => feed,
        Form::Tuple(fs) => feed_after_fields(fs, fs.len(), feed),
        Form::List(elem) => match read_number(feed.stream(), 4) {
            Err(_) => feed.advanced(4),
            Ok((n, _)) => feed_after_repeat(*elem, n, feed.advanced(4)),
        },
        Form::Enum(vs) => match read_number(feed.stream(), 4) {
            Err(_) => feed.advanced(4),
            Ok((idx, _)) => if idx < vs.len() {
                feed_after(vs[idx as int], feed.advanced(4))
            } else {
                feed.advanced(4)
            },
        },
        Form::Optional(_) => feed,
        Form::Dict(_, _) => feed,
        Form::Any => feed,
    }
}

/// The feed after the first `n` of `fs` have been read from it, or after the
/// first of them that fails.
pub open spec fn feed_after_fields(fs: Seq<Form>, n: nat, feed: Feed) -> Feed
    decreases fs, n,
{
    if n == 0 || n > fs.len() {
        feed
    } else {
        let mid = feed_after_fields(fs, (n - 1) as nat, feed);
        if decode_fields(fs, (n - 1) as nat, feed.stream()) is Ok {
            feed_after(fs[n - 1], mid)
        } else {
            mid
        }
    }
}

/// The feed after `n` values of the form `elem` have been read from it, or
/// after the first of them that fails.
pub open spec fn feed_after_repeat(elem: Form, n: nat, feed: Feed) -> Feed
    decreases elem, n + 1,
{
    if n == 0 {
        feed
    } else {
        let mid = feed_after_repeat(elem, (n - 1) as nat, feed);
        if decode_repeat(elem, (n - 1) as nat, feed.stream()) is Ok {
            feed_after(elem, mid)
        } else {
            mid
        }
    }
}

/// Behind a field that fails the feed moves no further.
pub proof fn lemma_feed_after_fields_failure(fs: Seq<Form>, i: nat, n: nat, feed: Feed)
    requires
        i < n <= fs.len(),
        decode_fields(fs, i + 1, feed.stream()) is Err,
    ensures
        feed_after_fields(fs, n, feed) == feed_after_fields(fs, i + 1, feed),
    decreases n,
{
    if n > i + 1 {
        lemma_feed_after_fields_failure(fs, i, (n - 1) as nat, feed);
        lemma_decode_fields_failure(fs, i, (n - 1) as nat, feed.stream());
    }
}

/// Behind an element that fails the feed moves no further.
pub proof fn lemma_feed_after_repeat_failure(elem: Form, i: nat, n: nat, feed: Feed)
    requires
        i < n,
        decode_repeat(elem, i + 1, feed.stream()) is Err,
    ensures
        feed_after_repeat(elem, n, feed) == feed_after_repeat(elem, i + 1, feed),
    decreases n,
{
    if n > i + 1 {
        lemma_feed_after_repeat_failure(elem, i, (n - 1) as nat, feed);
        lemma_decode_repeat_failure(elem, i, (n - 1) as nat, feed.stream());
    }
}

} // verus!
