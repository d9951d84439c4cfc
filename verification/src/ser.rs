//! The encoder: writes values into a byte sink and keeps the running length
//! from which the message header is made.

use crate::error::{Error, ErrorKind};
use crate::format::{
    encode, encode_fields, encode_str, length_prefixed, max_len, twos_complement,
};
use crate::ser_output::SerOutput;
use crate::value::{data, Datum, Value};
use crate::wire::{be_bytes, u16_to_be, u32_to_be, u64_to_be};
use vstd::prelude::*;

verus! {

/// `n`, held at `u64::MAX` when it is larger.
pub open spec fn saturated(n: nat) -> nat {
    if n > u64::MAX {
        u64::MAX as nat
    } else {
        n
    }
}

/// A length as the four-byte prefix holds it, or `TooLong`.
pub fn usize_to_u32(v: usize) -> (r: Result<u32, Error>)
    ensures
        v <= max_len() ==> r == Ok::<u32, Error>(v as u32),
        v > max_len() ==> r == Err::<u32, Error>(Error::TooLong),
{
    if v <= 0xffff_ffff {
        Ok(v as u32)
    } else {
        Err(Error::TooLong)
    }
}

/// Writes values in wire format to `output` and counts the bytes written
/// since the last reset.
///
/// The count saturates at `u64::MAX`, far beyond what a header can hold.
#[derive(Clone, Debug)]
pub struct Serializer<T: SerOutput = Vec<u8>> {
    pub output: T,
    len: u64,
}

impl<T: SerOutput> Serializer<T> {
    /// The number of bytes written since the counter was last reset.
    pub closed spec fn counter(&self) -> nat {
        self.len as nat
    }

    /// The bytes the output holds.
    pub closed spec fn sink(&self) -> Seq<u8> {
        self.output.contents()
    }

    /// `self` is `before` after writing exactly `bytes`.
    pub open spec fn wrote(&self, before: &Self, bytes: Seq<u8>) -> bool {
        &&& self.sink() == before.sink() + bytes
        &&& self.counter() == saturated(before.counter() + bytes.len())
    }

    /// `self` is `before` after writing some bytes, possibly none.
    pub open spec fn wrote_some(&self, before: &Self) -> bool {
        exists|bytes: Seq<u8>| self.wrote(before, bytes)
    }

    /// A serializer that appends to `output`, with its counter at zero.
    pub fn new(output: T) -> (s: Self)
        ensures
            s.sink() == output.contents(),
            s.counter() == 0,
    {
        Self { output, len: 0 }
    }

    /// Makes room in the output for `additional` more bytes.
    pub fn reserve(&mut self, additional: usize)
        ensures
            final(self).wrote(old(self), Seq::empty()),
    {
        self.output.reserve(additional);
        assert(self.output.contents() =~= old(self).output.contents() + Seq::<u8>::empty());
    }

    /// The header of a message that holds what was written since the last
    /// reset and `len` more bytes.
    pub fn create_header(&self, len: u32) -> (r: Result<[u8; 4], Error>)
        ensures
            self.counter() + len <= max_len() ==> r is Ok && r.unwrap()@ == be_bytes(
                self.counter() + len as nat,
                4,
            ),
            self.counter() + len > max_len() ==> r == Err::<[u8; 4], Error>(Error::TooLong),
    {
        let total: u64 = self.len.saturating_add(len as u64);
        if total <= 0xffff_ffff {
            Ok(u32_to_be(total as u32))
        } else {
            Err(Error::TooLong)
        }
    }

    /// Starts counting at zero again; the output is left as it is.
    pub fn reset_counter(&mut self)
        ensures
            final(self).sink() == old(self).sink(),
            final(self).counter() == 0,
    {
        self.len = 0;
    }

    /// Appends `other` to the output.
    pub fn extend_from_slice(&mut self, other: &[u8])
        ensures
            final(self).wrote(old(self), other@),
    {
        self.output.extend_from_slice(other);
        self.len = self.len.saturating_add(other.len() as u64);
    }

    /// Appends one byte to the output.
    pub fn push(&mut self, byte: u8)
        ensures
            final(self).wrote(old(self), seq![byte]),
    {
        self.output.push(byte);
        self.len = self.len.saturating_add(1);
        assert(old(self).output.contents().push(byte) =~= old(self).output.contents() + seq![byte]);
    }
}

impl<T: SerOutput> Serializer<T> {
    /// `self` holds and counts what `before` did.
    pub open spec fn unchanged(&self, before: &Self) -> bool {
        &&& self.sink() == before.sink()
        &&& self.counter() == before.counter()
    }

    /// Two writes in a row are one write of both.
    pub proof fn lemma_wrote_twice(&self, mid: &Self, before: &Self, first: Seq<u8>, second: Seq<u8>)
        requires
            mid.wrote(before, first),
            self.wrote(mid, second),
        ensures
            self.wrote(before, first + second),
    {
        assert(before.sink() + first + second =~= before.sink() + (first + second));
    }

    /// Writes `v` as a four-byte length or count.
    pub fn serialize_usize(&mut self, v: usize) -> (r: Result<(), Error>)
        ensures
            v <= max_len() ==> r is Ok && final(self).wrote(old(self), be_bytes(v as nat, 4)),
            v > max_len() ==> r == Err::<(), Error>(Error::TooLong) && final(self).unchanged(old(self)),
    {
        match usize_to_u32(v) {
            Ok(n) => self.serialize_u32(n),
            Err(e) => Err(e),
        }
    }

    /// A boolean is the four-byte number 1 or 0.
    pub fn serialize_bool(&mut self, v: bool) -> (r: Result<(), Error>)
        ensures
            r is Ok,
            final(self).wrote(old(self), be_bytes(if v { 1 } else { 0 }, 4)),
    {
        let n: u32 = if v { 1 } else { 0 };
        self.serialize_u32(n)
    }

    /// One byte.
    pub fn serialize_u8(&mut self, v: u8) -> (r: Result<(), Error>)
        ensures
            r is Ok,
            final(self).wrote(old(self), seq![v]),
    {
        self.push(v);
        Ok(())
    }

    /// One byte, in two's complement.
    pub fn serialize_i8(&mut self, v: i8) -> (r: Result<(), Error>)
        ensures
            r is Ok,
            final(self).wrote(old(self), be_bytes(twos_complement(v as int, 0x100), 1)),
    {
        let b: u8 = if v < 0 { ((v + 64 + 64) as u8) + 128 } else { v as u8 };
        self.push(b);
        proof {
            reveal_with_fuel(be_bytes, 2);
            assert(seq![b] =~= be_bytes(twos_complement(v as int, 0x100), 1));
        }
        Ok(())
    }

    /// Two bytes, big endian.
    pub fn serialize_u16(&mut self, v: u16) -> (r: Result<(), Error>)
        ensures
            r is Ok,
            final(self).wrote(old(self), be_bytes(v as nat, 2)),
    {
        let b = u16_to_be(v);
        self.extend_from_slice(b.as_slice());
        Ok(())
    }

    /// Four bytes, big endian.
    pub fn serialize_u32(&mut self, v: u32) -> (r: Result<(), Error>)
        ensures
            r is Ok,
            final(self).wrote(old(self), be_bytes(v as nat, 4)),
    {
        let b = u32_to_be(v);
        self.extend_from_slice(b.as_slice());
        Ok(())
    }

    /// Eight bytes, big endian.
    pub fn serialize_u64(&mut self, v: u64) -> (r: Result<(), Error>)
        ensures
            r is Ok,
            final(self).wrote(old(self), be_bytes(v as nat, 8)),
    {
        let b = u64_to_be(v);
        self.extend_from_slice(b.as_slice());
        Ok(())
    }

    /// Two bytes, big endian, in two's complement.
    pub fn serialize_i16(&mut self, v: i16) -> (r: Result<(), Error>)
        ensures
            r is Ok,
            final(self).wrote(old(self), be_bytes(twos_complement(v as int, 0x1_0000), 2)),
    {
        let u: u16 = if v < 0 { ((v + 0x4000 + 0x4000) as u16) + 0x8000 } else { v as u16 };
        self.serialize_u16(u)
    }

    /// Four bytes, big endian, in two's complement.
    pub fn serialize_i32(&mut self, v: i32) -> (r: Result<(), Error>)
        ensures
            r is Ok,
            final(self).wrote(old(self), be_bytes(twos_complement(v as int, 0x1_0000_0000), 4)),
    {
        let u: u32 = if v < 0 {
            ((v + 0x4000_0000 + 0x4000_0000) as u32) + 0x8000_0000
        } else {
            v as u32
        };
        self.serialize_u32(u)
    }

    /// Eight bytes, big endian, in two's complement.
    pub fn serialize_i64(&mut self, v: i64) -> (r: Result<(), Error>)
        ensures
            r is Ok,
            final(self).wrote(
                old(self),
                be_bytes(twos_complement(v as int, 0x1_0000_0000_0000_0000), 8),
            ),
    {
        let u: u64 = if v < 0 {
            ((v + 0x4000_0000_0000_0000 + 0x4000_0000_0000_0000) as u64) + 0x8000_0000_0000_0000
        } else {
            v as u64
        };
        self.serialize_u64(u)
    }

    /// A character is its Unicode scalar value in four bytes.
    pub fn serialize_char(&mut self, v: char) -> (r: Result<(), Error>)
        ensures
            r is Ok,
            final(self).wrote(old(self), be_bytes(v as u32 as nat, 4)),
    {
        self.serialize_u32(v as u32)
    }
}

impl<T: SerOutput> Serializer<T> {
    /// A string is the number of its UTF-8 bytes, then those bytes. Nothing
    /// is written when that number does not fit four bytes.
    pub fn serialize_str(&mut self, v: &str) -> (r: Result<(), Error>)
        ensures
            match encode_str(v@) {
                Ok(b) => r is Ok && final(self).wrote(old(self), b),
                Err(_) => r == Err::<(), Error>(Error::TooLong) && final(self).unchanged(old(self)),
            },
    {
        self.serialize_bytes(v.as_bytes())
    }

    /// A byte string is its length, then its bytes. Nothing is written when
    /// the length does not fit four bytes.
    pub fn serialize_bytes(&mut self, v: &[u8]) -> (r: Result<(), Error>)
        ensures
            match length_prefixed(v@) {
                Ok(b) => r is Ok && final(self).wrote(old(self), b),
                Err(_) => r == Err::<(), Error>(Error::TooLong) && final(self).unchanged(old(self)),
            },
    {
        if v.len() <= usize::MAX - 4 {
            self.reserve(4 + v.len());
        }
        let ghost reserved = *self;
        match self.serialize_usize(v.len()) {
            Ok(()) => {},
            Err(e) => {
                return Err(e);
            },
        }
        let ghost mid = *self;
        self.extend_from_slice(v);
        proof {
            self.lemma_wrote_twice(&mid, &reserved, be_bytes(v.len() as nat, 4), v@);
        }
        Ok(())
    }
}

impl<T: SerOutput> Serializer<T> {
    /// Writes any value. A composite that fails has written the components
    /// before the one that failed.
    pub fn serialize_value(&mut self, v: &Value) -> (r: Result<(), Error>)
        ensures
            match encode(v@) {
                Ok(b) => r is Ok && final(self).wrote(old(self), b),
                Err(k) => r is Err && r.unwrap_err().kind() == k && final(self).wrote_some(
                    old(self),
                ),
            },
        decreases v, 0nat,
    {
        proof {
            crate::value::lemma_datum_of_composite(*v);
        }
        match v {
            Value::Bool(b) => self.serialize_bool(*b),
            Value::U8(n) => self.serialize_u8(*n),
            Value::U16(n) => self.serialize_u16(*n),
            Value::U32(n) => self.serialize_u32(*n),
            Value::U64(n) => self.serialize_u64(*n),
            Value::I8(n) => self.serialize_i8(*n),
            Value::I16(n) => self.serialize_i16(*n),
            Value::I32(n) => self.serialize_i32(*n),
            Value::I64(n) => self.serialize_i64(*n),
            Value::Char(c) => self.serialize_char(*c),
            Value::Str(s) => {
                let r = self.serialize_str(s.as_str());
                proof {
                    if r is Err {
                        assert(self.sink() =~= old(self).sink() + Seq::<u8>::empty());
                        assert(self.wrote(old(self), Seq::<u8>::empty()));
                    }
                }
                r
            },
            Value::Bytes(b) => {
                let r = self.serialize_bytes(b.as_slice());
                proof {
                    if r is Err {
                        assert(self.sink() =~= old(self).sink() + Seq::<u8>::empty());
                        assert(self.wrote(old(self), Seq::<u8>::empty()));
                    }
                }
                r
            },
            Value::Unit => self.serialize_unit(),
            Value::Absent => self.serialize_none(),
            Value::Present(inner) => self.serialize_some(inner),
            Value::Tuple(fs) => self.serialize_fields(fs),
            Value::List(es) => {
                match self.serialize_seq(Some(es.len())) {
                    Ok(()) => {},
                    Err(e) => {
                        proof {
                            assert(self.sink() =~= old(self).sink() + Seq::<u8>::empty());
                            assert(self.wrote(old(self), Seq::<u8>::empty()));
                        }
                        return Err(e);
                    },
                }
                let ghost mid = *self;
                let r = self.serialize_fields(es);
                proof {
                    let count = be_bytes(es.len() as nat, 4);
                    match encode_fields(data(es@), es@.len()) {
                        Ok(b) => {
                            self.lemma_wrote_twice(&mid, old(self), count, b);
                        },
                        Err(_) => {
                            let rest = choose|rest: Seq<u8>| self.wrote(&mid, rest);
                            self.lemma_wrote_twice(&mid, old(self), count, rest);
                        },
                    }
                }
                r
            },
            Value::Variant(idx, payload) => self.serialize_newtype_variant(*idx, payload),
            Value::Dict(_) => {
                let r = self.serialize_map();
                proof {
                    assert(self.sink() =~= old(self).sink() + Seq::<u8>::empty());
                    assert(self.wrote(old(self), Seq::<u8>::empty()));
                }
                r
            },
        }
    }

    /// Writes the fields of a tuple or struct, or the elements of a
    /// sequence, one after another with nothing in between.
    pub fn serialize_fields(&mut self, vs: &Vec<Value>) -> (r: Result<(), Error>)
        ensures
            match encode_fields(data(vs@), vs@.len()) {
                Ok(b) => r is Ok && final(self).wrote(old(self), b),
                Err(k) => r is Err && r.unwrap_err().kind() == k && final(self).wrote_some(
                    old(self),
                ),
            },
        decreases vs, 1nat,
    {
        let ghost ds = data(vs@);
        let mut i: usize = 0;
        proof {
            assert(self.sink() =~= old(self).sink() + Seq::<u8>::empty());
        }
        while i < vs.len()
            invariant
                i <= vs.len(),
                ds == data(vs@),
                encode_fields(ds, i as nat) is Ok,
                self.wrote(old(self), encode_fields(ds, i as nat).unwrap()),
            decreases vs.len() - i,
        {
            let ghost mid = *self;
            let ghost front = encode_fields(ds, i as nat).unwrap();
            let r = self.serialize_value(&vs[i]);
            match r {
                Ok(()) => {
                    proof {
                        self.lemma_wrote_twice(&mid, old(self), front, encode(ds[i as int]).unwrap());
                    }
                },
                Err(e) => {
                    proof {
                        let rest = choose|rest: Seq<u8>| self.wrote(&mid, rest);
                        self.lemma_wrote_twice(&mid, old(self), front, rest);
                        crate::format::lemma_encode_fields_failure(ds, i as nat, vs@.len());
                    }
                    return Err(e);
                },
            }
            i = i + 1;
        }
        Ok(())
    }

    /// An absent optional value takes no bytes.
    pub fn serialize_none(&mut self) -> (r: Result<(), Error>)
        ensures
            r is Ok,
            final(self).wrote(old(self), Seq::empty()),
    {
        assert(self.sink() =~= old(self).sink() + Seq::<u8>::empty());
        Ok(())
    }

    /// A present optional value is written as the value itself.
    pub fn serialize_some(&mut self, value: &Value) -> (r: Result<(), Error>)
        ensures
            match encode(value@) {
                Ok(b) => r is Ok && final(self).wrote(old(self), b),
                Err(k) => r is Err && r.unwrap_err().kind() == k && final(self).wrote_some(
                    old(self),
                ),
            },
        decreases value, 1nat,
    {
        self.serialize_value(value)
    }

    /// A unit takes no bytes.
    pub fn serialize_unit(&mut self) -> (r: Result<(), Error>)
        ensures
            r is Ok,
            final(self).wrote(old(self), Seq::empty()),
    {
        assert(self.sink() =~= old(self).sink() + Seq::<u8>::empty());
        Ok(())
    }

    /// A unit struct takes no bytes.
    pub fn serialize_unit_struct(&mut self) -> (r: Result<(), Error>)
        ensures
            r is Ok,
            final(self).wrote(old(self), Seq::empty()),
    {
        self.serialize_unit()
    }

    /// A newtype struct is written as the value it wraps.
    pub fn serialize_newtype_struct(&mut self, value: &Value) -> (r: Result<(), Error>)
        ensures
            match encode(value@) {
                Ok(b) => r is Ok && final(self).wrote(old(self), b),
                Err(k) => r is Err && r.unwrap_err().kind() == k && final(self).wrote_some(
                    old(self),
                ),
            },
    {
        self.serialize_value(value)
    }

    /// Opens a sequence: writes its count. The elements follow through
    /// `serialize_element`. A sequence whose length is not known beforehand
    /// cannot be expressed.
    pub fn serialize_seq(&mut self, len: Option<usize>) -> (r: Result<(), Error>)
        ensures
            match len {
                Some(n) => if n <= max_len() {
                    r is Ok && final(self).wrote(old(self), be_bytes(n as nat, 4))
                } else {
                    r == Err::<(), Error>(Error::TooLong) && final(self).unchanged(old(self))
                },
                None => {
                    &&& r is Err
                    &&& r.unwrap_err().kind() == ErrorKind::Unsupported
                    &&& final(self).unchanged(old(self))
                },
            },
    {
        match len {
            Some(len) => {
                if len <= 0xffff_ffff && len <= usize::MAX - 4 {
                    self.reserve(4 + len);
                }
                self.serialize_usize(len)
            },
            None => Err(Error::Unsupported("serialize_seq")),
        }
    }

    /// Opens a tuple: a tuple has no framing, so nothing is written.
    pub fn serialize_tuple(&mut self, len: usize) -> (r: Result<(), Error>)
        ensures
            r is Ok,
            final(self).unchanged(old(self)),
    {
        Ok(())
    }

    /// Opens a tuple struct: nothing is written.
    pub fn serialize_tuple_struct(&mut self, len: usize) -> (r: Result<(), Error>)
        ensures
            r is Ok,
            final(self).unchanged(old(self)),
    {
        self.serialize_tuple(len)
    }

    /// Opens a struct: nothing is written.
    pub fn serialize_struct(&mut self, len: usize) -> (r: Result<(), Error>)
        ensures
            r is Ok,
            final(self).unchanged(old(self)),
    {
        self.serialize_tuple(len)
    }

    /// A unit variant is its index in four bytes.
    pub fn serialize_unit_variant(&mut self, variant_index: u32) -> (r: Result<(), Error>)
        ensures
            r is Ok,
            final(self).wrote(old(self), be_bytes(variant_index as nat, 4)),
    {
        self.serialize_u32(variant_index)
    }

    /// A variant with one value is its index, then the value.
    pub fn serialize_newtype_variant(&mut self, variant_index: u32, value: &Value) -> (r: Result<
        (),
        Error,
    >)
        ensures
            match encode(Datum::Variant(variant_index, Box::new(value@))) {
                Ok(b) => r is Ok && final(self).wrote(old(self), b),
                Err(k) => r is Err && r.unwrap_err().kind() == k && final(self).wrote_some(
                    old(self),
                ),
            },
        decreases value, 1nat,
    {
        match self.serialize_unit_variant(variant_index) {
            Ok(()) => {},
            Err(e) => {
                return Err(e);
            },
        }
        let ghost mid = *self;
        let r = self.serialize_value(value);
        proof {
            let index = be_bytes(variant_index as nat, 4);
            match encode(value@) {
                Ok(b) => {
                    self.lemma_wrote_twice(&mid, old(self), index, b);
                },
                Err(_) => {
                    let rest = choose|rest: Seq<u8>| self.wrote(&mid, rest);
                    self.lemma_wrote_twice(&mid, old(self), index, rest);
                },
            }
        }
        r
    }

    /// Opens a tuple variant: writes its index. The fields follow.
    pub fn serialize_tuple_variant(&mut self, variant_index: u32, len: usize) -> (r: Result<
        (),
        Error,
    >)
        ensures
            r is Ok,
            final(self).wrote(old(self), be_bytes(variant_index as nat, 4)),
    {
        match self.serialize_unit_variant(variant_index) {
            Ok(()) => self.serialize_tuple(len),
            Err(e) => Err(e),
        }
    }

    /// Opens a struct variant: writes its index. The fields follow.
    pub fn serialize_struct_variant(&mut self, variant_index: u32, len: usize) -> (r: Result<
        (),
        Error,
    >)
        ensures
            r is Ok,
            final(self).wrote(old(self), be_bytes(variant_index as nat, 4)),
    {
        match self.serialize_unit_variant(variant_index) {
            Ok(()) => self.serialize_tuple(len),
            Err(e) => Err(e),
        }
    }

    /// A map cannot be expressed: always fails, and writes nothing.
    pub fn serialize_map(&mut self) -> (r: Result<(), Error>)
        ensures
            r is Err,
            r.unwrap_err().kind() == ErrorKind::Unsupported,
            final(self).unchanged(old(self)),
    {
        Err(Error::Unsupported("serialize_map"))
    }

    /// One element of a sequence or tuple.
    pub fn serialize_element(&mut self, value: &Value) -> (r: Result<(), Error>)
        ensures
            match encode(value@) {
                Ok(b) => r is Ok && final(self).wrote(old(self), b),
                Err(k) => r is Err && r.unwrap_err().kind() == k && final(self).wrote_some(
                    old(self),
                ),
            },
    {
        self.serialize_value(value)
    }

    /// One field of a struct, tuple struct or variant.
    pub fn serialize_field(&mut self, value: &Value) -> (r: Result<(), Error>)
        ensures
            match encode(value@) {
                Ok(b) => r is Ok && final(self).wrote(old(self), b),
                Err(k) => r is Err && r.unwrap_err().kind() == k && final(self).wrote_some(
                    old(self),
                ),
            },
    {
        self.serialize_value(value)
    }

    /// Closes a sequence, tuple, struct or variant: nothing is written.
    pub fn end(&mut self) -> (r: Result<(), Error>)
        ensures
            r is Ok,
            final(self).unchanged(old(self)),
    {
        Ok(())
    }
}

impl<T: SerOutput> Serializer<T> {
    /// Gives the output back.
    pub fn into_output(self) -> (output: T)
        ensures
            output.contents() == self.sink(),
    {
        self.output
    }
}

/// What `to_bytes` returns for a value whose encoding is `payload`: the
/// payload behind its four-byte length.
pub open spec fn message(payload: Result<Seq<u8>, ErrorKind>) -> Result<Seq<u8>, ErrorKind> {
    match payload {
        Ok(b) => length_prefixed(b),
        Err(k) => Err(k),
    }
}

/// Encodes `value` as one message: four bytes that hold the length of the
/// rest, then the value.
pub fn to_bytes(value: &Value) -> (r: Result<Vec<u8>, Error>)
    ensures
        match message(encode(value@)) {
            Ok(m) => r is Ok && r.unwrap()@ == m,
            Err(k) => r is Err && r.unwrap_err().kind() == k,
        },
        r is Ok ==> r.unwrap()@.len() >= 4 && r.unwrap()@.subrange(0, 4) == be_bytes(
            (r.unwrap()@.len() - 4) as nat,
            4,
        ),
{
    let mut buffer: Vec<u8> = Vec::new();
    buffer.push(0);
    buffer.push(0);
    buffer.push(0);
    buffer.push(0);
    let ghost placeholder = buffer@;

    let mut serializer = Serializer::new(buffer);
    match serializer.serialize_value(value) {
        Ok(()) => {},
        Err(e) => {
            return Err(e);
        },
    }
    let header = match serializer.create_header(0) {
        Ok(h) => h,
        Err(e) => {
            return Err(e);
        },
    };
    let ghost payload = encode(value@).unwrap();
    let mut buffer = serializer.into_output();
    assert(buffer@ == placeholder + payload);
    buffer.set(0, header[0]);
    buffer.set(1, header[1]);
    buffer.set(2, header[2]);
    buffer.set(3, header[3]);
    proof {
        crate::wire::lemma_be_bytes_len(payload.len(), 4);
        assert(buffer@ =~= be_bytes(payload.len(), 4) + payload);
        assert(buffer@.subrange(0, 4) =~= be_bytes(payload.len(), 4));
    }
    Ok(buffer)
}

/// The room kept for a header until the length is known: the first four
/// bytes of `bytes`, with zeros where it holds fewer.
pub open spec fn header_room(bytes: Seq<u8>) -> Seq<u8> {
    Seq::new(4, |i: int| if i < bytes.len() { bytes[i] } else { 0u8 })
}

impl Serializer<Vec<u8>> {
    /// Makes the serializer ready for the next message: the output is cut
    /// back to its first four bytes, the room for the header, filled up with
    /// zeros where it held fewer, and the counter starts at zero.
    pub fn reset(&mut self)
        ensures
            final(self).sink() == header_room(old(self).sink()),
            final(self).counter() == 0,
    {
        self.output.truncate(4);
        while self.output.len() < 4
            invariant
                self.output@.len() <= 4,
                self.output@.len() == 4 || self.output@.len() >= old(self).output@.len(),
                forall|i: int|
                    0 <= i < self.output@.len() ==> self.output@[i] == header_room(
                        old(self).output@,
                    )[i],
            decreases 4 - self.output@.len(),
        {
            self.output.push(0);
        }
        self.len = 0;
        assert(self.output@ =~= header_room(old(self).output@));
    }

    /// Writes the header over the first four bytes of the output and hands
    /// the finished message out. The output must begin with the room for it.
    pub fn get_output(&mut self) -> (r: Result<&[u8], Error>)
        requires
            old(self).sink().len() >= 4,
        ensures
            old(self).counter() <= max_len() ==> {
                &&& r is Ok
                &&& r.unwrap()@ == be_bytes(old(self).counter(), 4) + old(self).sink().skip(4)
                &&& final(self).sink() == r.unwrap()@
                &&& final(self).counter() == old(self).counter()
            },
            old(self).counter() > max_len() ==> {
                &&& r == Err::<&[u8], Error>(Error::TooLong)
                &&& final(self).unchanged(old(self))
            },
    {
        let header = match self.create_header(0) {
            Ok(h) => h,
            Err(e) => {
                return Err(e);
            },
        };
        self.output.set(0, header[0]);
        self.output.set(1, header[1]);
        self.output.set(2, header[2]);
        self.output.set(3, header[3]);
        proof {
            crate::wire::lemma_be_bytes_len(old(self).counter(), 4);
            assert(self.output@ =~= be_bytes(old(self).counter(), 4) + old(self).sink().skip(4));
        }
        Ok(self.output.as_slice())
    }

    /// The output buffer, to read or to fill from elsewhere.
    pub fn get_buffer(&mut self) -> (buffer: &mut Vec<u8>)
        ensures
            buffer@ == old(self).sink(),
            final(self).sink() == final(buffer)@,
            final(self).counter() == old(self).counter(),
    {
        &mut self.output
    }

    /// The output as it stands.
    pub fn as_bytes(&self) -> (bytes: &[u8])
        ensures
            bytes@ == self.sink(),
    {
        self.output.as_slice()
    }
}

impl<T: SerOutput + Default> Default for Serializer<T> {
    /// A serializer over the default output, with its counter at zero.
    fn default() -> (s: Self)
        ensures
            s.counter() == 0,
    {
        Self::new(Default::default())
    }
}

} // verus!
