//! What holds of the format as a whole: decoding undoes encoding, a message
//! cut short is noticed, and how the input is cut into chunks does not show.

use crate::de::Deserializer;
use crate::error::{Error, ErrorKind};
use crate::format::{
    decode, decode_fields, decode_repeat, encode, encode_fields, fits, length_delimited, max_len,
    read_number, twos_complement,
};
use crate::ser::message;
use crate::shape::Form;
use crate::source::{flat, ChunkSource, NoChunks};
use crate::value::{Datum, Value};
use crate::wire::{be_bytes, be_value, lemma_be_bytes_len, lemma_be_value_of_bytes, radix_pow};
use vstd::prelude::*;
use vstd::utf8::{decode_utf8, encode_utf8, valid_utf8};

verus! {

/// The powers of 256 that the format's widths reach.
pub proof fn lemma_radix_pow_values()
    ensures
        radix_pow(1) == 0x100,
        radix_pow(2) == 0x1_0000,
        radix_pow(4) == 0x1_0000_0000,
        radix_pow(8) == 0x1_0000_0000_0000_0000,
{
    reveal_with_fuel(radix_pow, 9);
}

/// A number written in `width` bytes is read back from the front of any
/// input that begins with those bytes.
pub proof fn lemma_read_number_back(v: nat, width: nat, tail: Seq<u8>)
    requires
        v < radix_pow(width),
    ensures
        read_number(be_bytes(v, width) + tail, width) == Ok::<(nat, Seq<u8>), ErrorKind>((v, tail)),
{
    let input = be_bytes(v, width) + tail;
    lemma_be_bytes_len(v, width);
    lemma_be_value_of_bytes(v, width);
    assert(input.take(width as int) =~= be_bytes(v, width));
    assert(input.skip(width as int) =~= tail);
}

/// A length-prefixed field is read back from the front of any input that
/// begins with it.
pub proof fn lemma_length_delimited_back(content: Seq<u8>, tail: Seq<u8>)
    requires
        content.len() <= max_len(),
    ensures
        length_delimited(be_bytes(content.len(), 4) + content + tail) == Some(content),
        (be_bytes(content.len(), 4) + content + tail).skip(4 + content.len() as int) == tail,
{
    let input = be_bytes(content.len(), 4) + content + tail;
    lemma_radix_pow_values();
    lemma_be_bytes_len(content.len(), 4);
    lemma_be_value_of_bytes(content.len(), 4);
    assert(input.take(4) =~= be_bytes(content.len(), 4));
    assert(input.subrange(4, 4 + content.len() as int) =~= content);
    assert(input.skip(4 + content.len() as int) =~= tail);
}

/// Decoding undoes encoding, for booleans.
proof fn lemma_round_trip_bool(b: bool, tail: Seq<u8>)
    ensures
        decode(Form::Bool, encode(Datum::Bool(b)).unwrap() + tail) == Ok::<
            (Datum, Seq<u8>),
            ErrorKind,
        >((Datum::Bool(b), tail)),
{
    lemma_radix_pow_values();
    lemma_read_number_back(if b { 1 } else { 0 }, 4, tail);
}

/// Decoding undoes encoding, for single bytes.
proof fn lemma_round_trip_u8(n: u8, tail: Seq<u8>)
    ensures
        decode(Form::U8, encode(Datum::U8(n)).unwrap() + tail) == Ok::<
            (Datum, Seq<u8>),
            ErrorKind,
        >((Datum::U8(n), tail)),
{
    lemma_radix_pow_values();
    reveal_with_fuel(be_bytes, 2);
    assert(seq![n] =~= be_bytes(n as nat, 1));
    lemma_read_number_back(n as nat, 1, tail);
}

/// Decoding undoes encoding, for unsigned numbers of two bytes.
proof fn lemma_round_trip_u16(n: u16, tail: Seq<u8>)
    ensures
        decode(Form::U16, encode(Datum::U16(n)).unwrap() + tail) == Ok::<
            (Datum, Seq<u8>),
            ErrorKind,
        >((Datum::U16(n), tail)),
{
    lemma_radix_pow_values();
    lemma_read_number_back(n as nat, 2, tail);
}

/// Decoding undoes encoding, for unsigned numbers of four bytes.
proof fn lemma_round_trip_u32(n: u32, tail: Seq<u8>)
    ensures
        decode(Form::U32, encode(Datum::U32(n)).unwrap() + tail) == Ok::<
            (Datum, Seq<u8>),
            ErrorKind,
        >((Datum::U32(n), tail)),
{
    lemma_radix_pow_values();
    lemma_read_number_back(n as nat, 4, tail);
}

/// Decoding undoes encoding, for unsigned numbers of eight bytes.
proof fn lemma_round_trip_u64(n: u64, tail: Seq<u8>)
    ensures
        decode(Form::U64, encode(Datum::U64(n)).unwrap() + tail) == Ok::<
            (Datum, Seq<u8>),
            ErrorKind,
        >((Datum::U64(n), tail)),
{
    lemma_radix_pow_values();
    lemma_read_number_back(n as nat, 8, tail);
}

/// Decoding undoes encoding, for signed numbers of one byte.
proof fn lemma_round_trip_i8(n: i8, tail: Seq<u8>)
    ensures
        decode(Form::I8, encode(Datum::I8(n)).unwrap() + tail) == Ok::<
            (Datum, Seq<u8>),
            ErrorKind,
        >((Datum::I8(n), tail)),
{
    lemma_radix_pow_values();
    lemma_read_number_back(twos_complement(n as int, 0x100), 1, tail);
}

/// Decoding undoes encoding, for signed numbers of two bytes.
proof fn lemma_round_trip_i16(n: i16, tail: Seq<u8>)
    ensures
        decode(Form::I16, encode(Datum::I16(n)).unwrap() + tail) == Ok::<
            (Datum, Seq<u8>),
            ErrorKind,
        >((Datum::I16(n), tail)),
{
    lemma_radix_pow_values();
    lemma_read_number_back(twos_complement(n as int, 0x1_0000), 2, tail);
}

/// Decoding undoes encoding, for signed numbers of four bytes.
proof fn lemma_round_trip_i32(n: i32, tail: Seq<u8>)
    ensures
        decode(Form::I32, encode(Datum::I32(n)).unwrap() + tail) == Ok::<
            (Datum, Seq<u8>),
            ErrorKind,
        >((Datum::I32(n), tail)),
{
    lemma_radix_pow_values();
    lemma_read_number_back(twos_complement(n as int, 0x1_0000_0000), 4, tail);
}

/// Decoding undoes encoding, for signed numbers of eight bytes.
proof fn lemma_round_trip_i64(n: i64, tail: Seq<u8>)
    ensures
        decode(Form::I64, encode(Datum::I64(n)).unwrap() + tail) == Ok::<
            (Datum, Seq<u8>),
            ErrorKind,
        >((Datum::I64(n), tail)),
{
    lemma_radix_pow_values();
    lemma_read_number_back(twos_complement(n as int, 0x1_0000_0000_0000_0000), 8, tail);
}

/// Decoding undoes encoding, for characters.
proof fn lemma_round_trip_char(c: char, tail: Seq<u8>)
    ensures
        decode(Form::Char, encode(Datum::Char(c)).unwrap() + tail) == Ok::<
            (Datum, Seq<u8>),
            ErrorKind,
        >((Datum::Char(c), tail)),
{
    lemma_radix_pow_values();
    lemma_read_number_back(c as u32 as nat, 4, tail);
    vstd::utf8::char_is_scalar(c);
    vstd::utf8::char_u32_cast(c, c as u32);
}

/// Decoding undoes encoding, for strings.
proof fn lemma_round_trip_str(s: Seq<char>, tail: Seq<u8>)
    requires
        encode(Datum::Str(s)) is Ok,
    ensures
        decode(Form::Str, encode(Datum::Str(s)).unwrap() + tail) == Ok::<
            (Datum, Seq<u8>),
            ErrorKind,
        >((Datum::Str(s), tail)),
{
    let content = encode_utf8(s);
    let input = encode(Datum::Str(s)).unwrap() + tail;
    assert(input == be_bytes(content.len(), 4) + content + tail);
    assert(length_delimited(input) == Some(content) && input.skip(4 + content.len() as int)
        == tail) by {
        lemma_length_delimited_back(content, tail);
    }
    assert(valid_utf8(content)) by {
        vstd::utf8::encode_utf8_valid_utf8(s);
    }
    assert(decode_utf8(content) == s) by {
        vstd::utf8::encode_utf8_decode_utf8(s);
    }
}

/// Decoding undoes encoding, for byte strings.
proof fn lemma_round_trip_bytes(b: Seq<u8>, tail: Seq<u8>)
    requires
        encode(Datum::Bytes(b)) is Ok,
    ensures
        decode(Form::Bytes, encode(Datum::Bytes(b)).unwrap() + tail) == Ok::<
            (Datum, Seq<u8>),
            ErrorKind,
        >((Datum::Bytes(b), tail)),
{
    lemma_length_delimited_back(b, tail);
}

/// Decoding undoes encoding: a value that fits a form and can be encoded is
/// decoded, by that form, from its encoding as the value it was, and the
/// bytes behind the encoding are left over untouched.
pub proof fn lemma_round_trip(d: Datum, form: Form, tail: Seq<u8>)
    requires
        fits(d, form),
        encode(d) is Ok,
    ensures
        decode(form, encode(d).unwrap() + tail) == Ok::<(Datum, Seq<u8>), ErrorKind>((d, tail)),
    decreases d, 0nat,
{
    let bytes = encode(d).unwrap();
    match d {
        Datum::Tuple(ds) => {
            let fs = form->Tuple_0;
            lemma_round_trip_fields(ds, fs, ds.len(), tail);
            assert(ds.take(ds.len() as int) =~= ds);
        },
        Datum::List(ds) => {
            let elem = *form->List_0;
            let body = encode_fields(ds, ds.len()).unwrap();
            lemma_radix_pow_values();
            lemma_read_number_back(ds.len(), 4, body + tail);
            assert(bytes + tail =~= be_bytes(ds.len(), 4) + (body + tail));
            lemma_round_trip_repeat(ds, elem, ds.len(), tail);
            assert(ds.take(ds.len() as int) =~= ds);
        },
        Datum::Variant(idx, payload) => {
            let vs = form->Enum_0;
            let body = encode(*payload).unwrap();
            lemma_radix_pow_values();
            lemma_read_number_back(idx as nat, 4, body + tail);
            assert(bytes + tail =~= be_bytes(idx as nat, 4) + (body + tail));
            lemma_round_trip(*payload, vs[idx as int], tail);
        },
        Datum::Bool(b) => {
            lemma_round_trip_bool(b, tail);
        },
        Datum::U8(n) => {
            lemma_round_trip_u8(n, tail);
        },
        Datum::U16(n) => {
            lemma_round_trip_u16(n, tail);
        },
        Datum::U32(n) => {
            lemma_round_trip_u32(n, tail);
        },
        Datum::U64(n) => {
            lemma_round_trip_u64(n, tail);
        },
        Datum::I8(n) => {
            lemma_round_trip_i8(n, tail);
        },
        Datum::I16(n) => {
            lemma_round_trip_i16(n, tail);
        },
        Datum::I32(n) => {
            lemma_round_trip_i32(n, tail);
        },
        Datum::I64(n) => {
            lemma_round_trip_i64(n, tail);
        },
        Datum::Char(c) => {
            lemma_round_trip_char(c, tail);
        },
        Datum::Str(s) => {
            lemma_round_trip_str(s, tail);
        },
        Datum::Bytes(b) => {
            lemma_round_trip_bytes(b, tail);
        },
        Datum::Unit => {
            assert(bytes + tail =~= tail);
        },
        _ => {},
    }
}

/// Decoding undoes encoding, field by field.
pub proof fn lemma_round_trip_fields(ds: Seq<Datum>, fs: Seq<Form>, n: nat, tail: Seq<u8>)
    requires
        ds.len() == fs.len(),
        n <= ds.len(),
        forall|i: int| 0 <= i < ds.len() ==> fits(#[trigger] ds[i], fs[i]),
        encode_fields(ds, n) is Ok,
    ensures
        decode_fields(fs, n, encode_fields(ds, n).unwrap() + tail) == Ok::<
            (Seq<Datum>, Seq<u8>),
            ErrorKind,
        >((ds.take(n as int), tail)),
    decreases ds, n,
{
    if n == 0 {
        assert(encode_fields(ds, n).unwrap() + tail =~= tail);
        assert(ds.take(0) =~= Seq::<Datum>::empty());
    } else {
        let front = encode_fields(ds, (n - 1) as nat).unwrap();
        let last = encode(ds[n - 1]).unwrap();
        assert(front + last + tail =~= front + (last + tail));
        lemma_round_trip_fields(ds, fs, (n - 1) as nat, last + tail);
        lemma_round_trip(ds[n - 1], fs[n - 1], tail);
        assert(ds.take(n - 1).push(ds[n - 1]) =~= ds.take(n as int));
    }
}

/// Decoding undoes encoding, element by element.
pub proof fn lemma_round_trip_repeat(ds: Seq<Datum>, elem: Form, n: nat, tail: Seq<u8>)
    requires
        n <= ds.len(),
        forall|i: int| 0 <= i < ds.len() ==> fits(#[trigger] ds[i], elem),
        encode_fields(ds, n) is Ok,
    ensures
        decode_repeat(elem, n, encode_fields(ds, n).unwrap() + tail) == Ok::<
            (Seq<Datum>, Seq<u8>),
            ErrorKind,
        >((ds.take(n as int), tail)),
    decreases ds, n,
{
    if n == 0 {
        assert(encode_fields(ds, n).unwrap() + tail =~= tail);
        assert(ds.take(0) =~= Seq::<Datum>::empty());
    } else {
        let front = encode_fields(ds, (n - 1) as nat).unwrap();
        let last = encode(ds[n - 1]).unwrap();
        assert(front + last + tail =~= front + (last + tail));
        lemma_round_trip_repeat(ds, elem, (n - 1) as nat, last + tail);
        lemma_round_trip(ds[n - 1], elem, tail);
        assert(ds.take(n - 1).push(ds[n - 1]) =~= ds.take(n as int));
    }
}

/// Whether `rest` is the end of `input`.
pub open spec fn is_suffix(rest: Seq<u8>, input: Seq<u8>) -> bool {
    rest.len() <= input.len() && rest == input.skip(input.len() - rest.len())
}

/// What reading from the first `k` bytes of `input` gives, when reading from
/// all of `input` gave `whole`: the same result where the bytes it took are
/// all there, and `Eof` where they are not.
pub open spec fn cut_short<T>(whole: Result<(T, Seq<u8>), ErrorKind>, input: Seq<u8>, k: int) -> Result<
    (T, Seq<u8>),
    ErrorKind,
> {
    match whole {
        Ok((d, rest)) => if k >= input.len() - rest.len() {
            Ok((d, input.take(k).skip(input.len() - rest.len())))
        } else {
            Err(ErrorKind::Eof)
        },
        Err(e) => Err(e),
    }
}

/// Reading a number depends on no byte behind it.
pub proof fn lemma_read_number_prefix(input: Seq<u8>, width: nat, k: int)
    requires
        read_number(input, width) is Ok,
        0 <= k <= input.len(),
    ensures
        is_suffix(read_number(input, width).unwrap().1, input),
        read_number(input.take(k), width) == cut_short(read_number(input, width), input, k),
{
    if k >= width {
        assert(input.take(k).take(width as int) =~= input.take(width as int));
    }
    assert(input.skip(width as int) =~= input.skip(input.len() - input.skip(width as int).len()));
}

/// Reading a length-prefixed field depends on no byte behind it.
pub proof fn lemma_length_delimited_prefix(input: Seq<u8>, k: int)
    requires
        length_delimited(input) is Some,
        0 <= k <= input.len(),
    ensures
        k >= 4 + length_delimited(input).unwrap().len() ==> length_delimited(input.take(k))
            == length_delimited(input),
        k < 4 + length_delimited(input).unwrap().len() ==> length_delimited(input.take(k)) is None,
{
    let content = length_delimited(input).unwrap();
    if k >= 4 {
        assert(input.take(k).take(4) =~= input.take(4));
        if k >= 4 + content.len() {
            assert(input.take(k).subrange(4, 4 + content.len() as int) =~= content);
        }
    }
}

/// Decoding a number, boolean or character depends on no byte behind it.
proof fn lemma_decode_prefix_number(form: Form, input: Seq<u8>, k: int)
    requires
        decode(form, input) is Ok,
        0 <= k <= input.len(),
        form is Bool || form is U8 || form is U16 || form is U32 || form is U64 || form is I8
            || form is I16 || form is I32 || form is I64 || form is Char,
    ensures
        is_suffix(decode(form, input).unwrap().1, input),
        decode(form, input.take(k)) == cut_short(decode(form, input), input, k),
{
    match form {
        Form::Bool => lemma_read_number_prefix(input, 4, k),
        Form::U8 => lemma_read_number_prefix(input, 1, k),
        Form::U16 => lemma_read_number_prefix(input, 2, k),
        Form::U32 => lemma_read_number_prefix(input, 4, k),
        Form::U64 => lemma_read_number_prefix(input, 8, k),
        Form::I8 => lemma_read_number_prefix(input, 1, k),
        Form::I16 => lemma_read_number_prefix(input, 2, k),
        Form::I32 => lemma_read_number_prefix(input, 4, k),
        Form::I64 => lemma_read_number_prefix(input, 8, k),
        Form::Char => lemma_read_number_prefix(input, 4, k),
        _ => {},
    }
}

/// Decoding a string or byte string depends on no byte behind it.
proof fn lemma_decode_prefix_text(form: Form, input: Seq<u8>, k: int)
    requires
        decode(form, input) is Ok,
        0 <= k <= input.len(),
        form is Str || form is Bytes,
    ensures
        is_suffix(decode(form, input).unwrap().1, input),
        decode(form, input.take(k)) == cut_short(decode(form, input), input, k),
{
    let content = length_delimited(input).unwrap();
    let taken = 4 + content.len() as int;
    lemma_length_delimited_prefix(input, k);
    assert(input.skip(taken) =~= input.skip(input.len() - input.skip(taken).len()));
    if k >= taken {
        assert(input.take(k).skip(taken) =~= input.take(k).skip(
            input.len() - input.skip(taken).len(),
        ));
    }
}

/// Decoding reads from the front and depends on no byte behind what it
/// reads: from the first `k` bytes of an input that decodes, the same value
/// comes out where those bytes hold all of it, and `Eof` where they do not.
pub proof fn lemma_decode_prefix(form: Form, input: Seq<u8>, k: int)
    requires
        decode(form, input) is Ok,
        0 <= k <= input.len(),
    ensures
        is_suffix(decode(form, input).unwrap().1, input),
        decode(form, input.take(k)) == cut_short(decode(form, input), input, k),
    decreases form, 0nat,
{
    match form {
        Form::Str | Form::Bytes => {
            lemma_decode_prefix_text(form, input, k);
        },
        Form::Unit => {
            assert(input =~= input.skip(0));
            assert(input.take(k) =~= input.take(k).skip(0));
        },
        Form::Tuple(fs) => {
            lemma_decode_fields_prefix(fs, fs.len(), input, k);
        },
        Form::List(elem) => {
            lemma_read_number_prefix(input, 4, k);
            let n = read_number(input, 4).unwrap().0;
            let body = input.skip(4);
            if k >= 4 {
                assert(input.take(k).skip(4) =~= body.take(k - 4));
                lemma_decode_repeat_prefix(*elem, n, body, k - 4);
                let rest = decode_repeat(*elem, n, body).unwrap().1;
                lemma_suffix_after_skip(input, 4, rest);
                if k - 4 >= body.len() - rest.len() {
                    assert(body.take(k - 4).skip(body.len() - rest.len()) =~= input.take(k).skip(
                        input.len() - rest.len(),
                    ));
                }
            } else {
                lemma_decode_repeat_prefix(*elem, n, body, 0);
                let rest = decode_repeat(*elem, n, body).unwrap().1;
                lemma_suffix_after_skip(input, 4, rest);
            }
        },
        Form::Enum(vs) => {
            lemma_read_number_prefix(input, 4, k);
            let idx = read_number(input, 4).unwrap().0;
            let body = input.skip(4);
            if k >= 4 {
                assert(input.take(k).skip(4) =~= body.take(k - 4));
                lemma_decode_prefix(vs[idx as int], body, k - 4);
                let rest = decode(vs[idx as int], body).unwrap().1;
                lemma_suffix_after_skip(input, 4, rest);
                if k - 4 >= body.len() - rest.len() {
                    assert(body.take(k - 4).skip(body.len() - rest.len()) =~= input.take(k).skip(
                        input.len() - rest.len(),
                    ));
                }
            } else {
                lemma_decode_prefix(vs[idx as int], body, 0);
                let rest = decode(vs[idx as int], body).unwrap().1;
                lemma_suffix_after_skip(input, 4, rest);
            }
        },
        Form::Optional(_) | Form::Dict(_, _) | Form::Any => {},
        _ => {
            lemma_decode_prefix_number(form, input, k);
        },
    }
}

/// The end of what is left after a skip is an end of the whole.
pub proof fn lemma_suffix_after_skip(input: Seq<u8>, n: int, rest: Seq<u8>)
    requires
        0 <= n <= input.len(),
        is_suffix(rest, input.skip(n)),
    ensures
        is_suffix(rest, input),
{
    let body = input.skip(n);
    assert(body.skip(body.len() - rest.len()) =~= input.skip(input.len() - rest.len()));
}

/// One more step of decoding from a cut input, after the steps before it.
proof fn lemma_step_prefix(
    input: Seq<u8>,
    k: int,
    mid: Seq<u8>,
    rest: Seq<u8>,
)
    requires
        0 <= k <= input.len(),
        is_suffix(mid, input),
        is_suffix(rest, mid),
        k >= input.len() - mid.len(),
    ensures
        is_suffix(rest, input),
        input.take(k).skip(input.len() - mid.len()) == mid.take(k - (input.len() - mid.len())),
        k >= input.len() - rest.len() ==> mid.take(k - (input.len() - mid.len())).skip(
            mid.len() - rest.len(),
        ) == input.take(k).skip(input.len() - rest.len()),
{
    let c1 = input.len() - mid.len();
    lemma_suffix_after_skip(input, c1, rest);
    assert(input.take(k).skip(c1) =~= mid.take(k - c1));
    if k >= input.len() - rest.len() {
        assert(mid.take(k - c1).skip(mid.len() - rest.len()) =~= input.take(k).skip(
            input.len() - rest.len(),
        ));
    }
}

/// Decoding fields depends on no byte behind what it reads.
pub proof fn lemma_decode_fields_prefix(fs: Seq<Form>, n: nat, input: Seq<u8>, k: int)
    requires
        decode_fields(fs, n, input) is Ok,
        0 <= k <= input.len(),
    ensures
        is_suffix(decode_fields(fs, n, input).unwrap().1, input),
        decode_fields(fs, n, input.take(k)) == cut_short(decode_fields(fs, n, input), input, k),
    decreases fs, n,
{
    if n == 0 || n > fs.len() {
        assert(input =~= input.skip(0));
        assert(input.take(k) =~= input.take(k).skip(0));
    } else {
        let m = (n - 1) as nat;
        lemma_decode_fields_prefix(fs, m, input, k);
        let mid = decode_fields(fs, m, input).unwrap().1;
        let c1 = input.len() - mid.len();
        let rest = decode(fs[n - 1], mid).unwrap().1;
        if k >= c1 {
            lemma_decode_prefix(fs[n - 1], mid, k - c1);
            lemma_step_prefix(input, k, mid, rest);
        } else {
            lemma_decode_prefix(fs[n - 1], mid, 0);
            lemma_suffix_after_skip(input, c1, rest);
        }
    }
}

/// Decoding elements depends on no byte behind what it reads.
pub proof fn lemma_decode_repeat_prefix(elem: Form, n: nat, input: Seq<u8>, k: int)
    requires
        decode_repeat(elem, n, input) is Ok,
        0 <= k <= input.len(),
    ensures
        is_suffix(decode_repeat(elem, n, input).unwrap().1, input),
        decode_repeat(elem, n, input.take(k)) == cut_short(decode_repeat(elem, n, input), input, k),
    decreases elem, n + 1,
{
    if n == 0 {
        assert(input =~= input.skip(0));
        assert(input.take(k) =~= input.take(k).skip(0));
    } else {
        let m = (n - 1) as nat;
        lemma_decode_repeat_prefix(elem, m, input, k);
        let mid = decode_repeat(elem, m, input).unwrap().1;
        let c1 = input.len() - mid.len();
        let rest = decode(elem, mid).unwrap().1;
        if k >= c1 {
            lemma_decode_prefix(elem, mid, k - c1);
            lemma_step_prefix(input, k, mid, rest);
        } else {
            lemma_decode_prefix(elem, mid, 0);
            lemma_suffix_after_skip(input, c1, rest);
        }
    }
}

/// A message cut short is noticed: where all of `input` is one value of the
/// given form, nothing left over, decoding any shorter beginning of it fails
/// with `Eof`.
pub proof fn lemma_truncation_detected(form: Form, input: Seq<u8>, k: int)
    requires
        decode(form, input) is Ok,
        decode(form, input).unwrap().1.len() == 0,
        0 <= k < input.len(),
    ensures
        decode(form, input.take(k)) == Err::<(Datum, Seq<u8>), ErrorKind>(ErrorKind::Eof),
{
    lemma_decode_prefix(form, input, k);
}

/// A message begins with four bytes that hold, as a big-endian number, the
/// length of everything behind them, and behind them stands the encoded
/// value.
pub proof fn lemma_header_holds_length(d: Datum)
    requires
        message(encode(d)) is Ok,
    ensures
        message(encode(d)).unwrap().len() >= 4,
        message(encode(d)).unwrap().take(4) == be_bytes(
            (message(encode(d)).unwrap().len() - 4) as nat,
            4,
        ),
        be_value(message(encode(d)).unwrap().take(4)) == message(encode(d)).unwrap().len() - 4,
        message(encode(d)).unwrap().skip(4) == encode(d).unwrap(),
{
    let payload = encode(d).unwrap();
    let m = message(encode(d)).unwrap();
    lemma_radix_pow_values();
    lemma_be_bytes_len(payload.len(), 4);
    lemma_be_value_of_bytes(payload.len(), 4);
    assert(m.take(4) =~= be_bytes(payload.len(), 4));
    assert(m.skip(4) =~= payload);
}

/// Chunks laid end to end: two runs of chunks, one after the other, hold
/// the bytes of the first and then the bytes of the second.
pub proof fn lemma_flat_concat(a: Seq<Seq<u8>>, b: Seq<Seq<u8>>)
    ensures
        flat(a + b) == flat(a) + flat(b),
    decreases a.len(),
{
    if a.len() == 0 {
        assert(a + b =~= b);
        assert(flat(a) + flat(b) =~= flat(b));
    } else {
        assert((a + b).drop_first() =~= a.drop_first() + b);
        lemma_flat_concat(a.drop_first(), b);
        assert(a[0] + (flat(a.drop_first()) + flat(b)) =~= a[0] + flat(a.drop_first()) + flat(b));
    }
}

/// An empty chunk, wherever it stands among the others, adds nothing.
pub proof fn lemma_empty_chunk_adds_nothing(chunks: Seq<Seq<u8>>, at: int)
    requires
        0 <= at <= chunks.len(),
    ensures
        flat(chunks.insert(at, Seq::empty())) == flat(chunks),
{
    let front = chunks.take(at);
    let back = chunks.skip(at);
    let hole = seq![Seq::<u8>::empty()];
    assert(chunks.insert(at, Seq::empty()) =~= front + hole + back);
    assert(chunks =~= front + back);
    lemma_flat_concat(front + hole, back);
    lemma_flat_concat(front, hole);
    lemma_flat_concat(front, back);
    assert(hole.drop_first() =~= Seq::<Seq<u8>>::empty());
    assert(flat(hole.drop_first()) =~= Seq::<u8>::empty());
    assert(flat(hole) == hole[0] + flat(hole.drop_first()));
    assert(flat(hole) =~= Seq::<u8>::empty());
    assert(flat(front) + flat(hole) =~= flat(front));
}

/// How the input is cut into chunks does not show. Take two deserializers
/// that have the same bytes before them, in whatever chunks, empty ones
/// among them or not, and read a value of the same form from each: both
/// reads succeed or both fail; where they succeed they give the same value
/// and leave the same bytes; where they fail they fail alike.
pub proof fn lemma_chunk_invariance<'de, A: ChunkSource<'de>, B: ChunkSource<'de>>(
    form: Form,
    left: Deserializer<'de, A>,
    left_after: Deserializer<'de, A>,
    left_result: Result<Value, Error>,
    right: Deserializer<'de, B>,
    right_after: Deserializer<'de, B>,
    right_result: Result<Value, Error>,
)
    requires
        left.stream() == right.stream(),
        left_after.has_read(&left, form, left_result),
        right_after.has_read(&right, form, right_result),
    ensures
        left_result is Ok <==> right_result is Ok,
        left_result is Ok ==> {
            &&& left_result.unwrap()@ == right_result.unwrap()@
            &&& left_after.stream() == right_after.stream()
        },
        left_result is Err ==> left_result.unwrap_err().kind() == right_result.unwrap_err().kind(),
{
}

/// A value of a form, once encoded, is decoded by that form as the value it
/// was, with no byte left over.
pub proof fn lemma_encoding_decodes_whole(d: Datum, form: Form)
    requires
        fits(d, form),
        encode(d) is Ok,
    ensures
        decode(form, encode(d).unwrap()) == Ok::<(Datum, Seq<u8>), ErrorKind>((d, Seq::empty())),
{
    lemma_round_trip(d, form, Seq::empty());
    assert(encode(d).unwrap() + Seq::<u8>::empty() =~= encode(d).unwrap());
}

/// An encoding cut short is noticed: decoding any beginning of the encoding
/// of a value that is shorter than the whole fails with `Eof`.
pub proof fn lemma_encoding_cut_short(d: Datum, form: Form, k: int)
    requires
        fits(d, form),
        encode(d) is Ok,
        0 <= k < encode(d).unwrap().len(),
    ensures
        decode(form, encode(d).unwrap().take(k)) == Err::<(Datum, Seq<u8>), ErrorKind>(
            ErrorKind::Eof,
        ),
{
    lemma_encoding_decodes_whole(d, form);
    lemma_truncation_detected(form, encode(d).unwrap(), k);
}

/// An enum value is written with its variant index in the first four bytes
/// and its payload behind them.
pub proof fn lemma_variant_index_first(idx: u32, payload: Datum)
    requires
        encode(Datum::Variant(idx, Box::new(payload))) is Ok,
    ensures
        encode(payload) is Ok,
        encode(Datum::Variant(idx, Box::new(payload))).unwrap().take(4) == be_bytes(idx as nat, 4),
        encode(Datum::Variant(idx, Box::new(payload))).unwrap().skip(4) == encode(payload).unwrap(),
{
    let bytes = encode(Datum::Variant(idx, Box::new(payload))).unwrap();
    lemma_be_bytes_len(idx as nat, 4);
    assert(bytes.take(4) =~= be_bytes(idx as nat, 4));
    assert(bytes.skip(4) =~= encode(payload).unwrap());
}

/// Decoding an enum hands the bytes behind the index to the variant that
/// the index names, and wraps what that variant makes of them. An index
/// that names no variant is refused.
pub proof fn lemma_variant_dispatch(variants: Seq<Form>, input: Seq<u8>)
    requires
        input.len() >= 4,
    ensures
        be_value(input.take(4)) < variants.len() ==> decode(Form::Enum(variants), input) == (
        match decode(variants[be_value(input.take(4)) as int], input.skip(4)) {
            Ok((payload, rest)) => Ok(
                (Datum::Variant(be_value(input.take(4)) as u32, Box::new(payload)), rest),
            ),
            Err(e) => Err(e),
        }),
        be_value(input.take(4)) >= variants.len() ==> decode(Form::Enum(variants), input) == Err::<
            (Datum, Seq<u8>),
            ErrorKind,
        >(ErrorKind::Message),
{
}

/// A map is never encoded and never decoded, whatever it holds and
/// whatever the input.
pub proof fn lemma_map_rejected(entries: Seq<(Datum, Datum)>, key: Form, value: Form, input: Seq<u8>)
    ensures
        encode(Datum::Dict(entries)) == Err::<Seq<u8>, ErrorKind>(ErrorKind::Unsupported),
        message(encode(Datum::Dict(entries))) == Err::<Seq<u8>, ErrorKind>(ErrorKind::Unsupported),
        decode(Form::Dict(Box::new(key), Box::new(value)), input) == Err::<
            (Datum, Seq<u8>),
            ErrorKind,
        >(ErrorKind::Unsupported),
{
}

/// From one contiguous buffer every string and byte string that is there in
/// full is borrowed, never copied.
pub proof fn lemma_one_buffer_is_borrowed<'de>(d: Deserializer<'de, NoChunks>)
    requires
        length_delimited(d.stream()) is Some,
    ensures
        d.field_in_one_chunk(length_delimited(d.stream()).unwrap().len()),
{
    let feed = d.feed();
    assert(flat(feed.pending) =~= Seq::<u8>::empty());
    assert(d.stream() =~= feed.hand);
    let after = feed.advanced(4);
    assert(feed.refilled() == feed);
    assert(after.hand == feed.hand.skip(4));
    assert(after.refilled() == after);
}

} // verus!
