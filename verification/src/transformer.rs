//! Encoding and decoding through one buffer that is used again and again.

use crate::de::from_bytes;
use crate::error::Error;
use crate::format::{decode, encode};
use crate::ser::{header_room, message, Serializer};
use crate::shape::Shape;
use crate::value::Value;
use vstd::prelude::*;

verus! {

/// Serializes and deserializes values using the same buffer.
#[derive(Clone, Debug)]
pub struct Transformer(Serializer<Vec<u8>>);

impl Transformer {
    /// The bytes the buffer holds.
    pub closed spec fn buffer(&self) -> Seq<u8> {
        self.0.sink()
    }

    /// The serializer that writes into the buffer.
    pub closed spec fn serializer(&self) -> Serializer<Vec<u8>> {
        self.0
    }

    /// A transformer whose buffer is empty.
    pub fn new() -> (t: Self)
        ensures
            t.buffer() == Seq::<u8>::empty(),
    {
        Transformer(Serializer::new(Vec::new()))
    }

    /// Encodes `value` as one message into the buffer, in place of what the
    /// buffer held, and hands the message out.
    pub fn serialize(&mut self, value: &Value) -> (r: Result<&[u8], Error>)
        ensures
            match message(encode(value@)) {
                Ok(m) => r is Ok && r.unwrap()@ == m && final(self).buffer() == m,
                Err(k) => r is Err && r.unwrap_err().kind() == k,
            },
    {
        self.0.reset();
        match self.0.serialize_value(value) {
            Ok(()) => {},
            Err(e) => {
                return Err(e);
            },
        }
        let ghost payload = encode(value@).unwrap();
        proof {
            assert((header_room(old(self).buffer()) + payload).skip(4) =~= payload);
        }
        self.0.get_output()
    }

    /// The serializer, made ready for a new message: its output is cut back
    /// to its first four bytes, the room for the header, filled up with
    /// zeros where it held fewer, and its counter is at zero.
    pub fn get_ser(&mut self) -> (ser: &mut Serializer<Vec<u8>>)
        ensures
            ser.sink() == header_room(old(self).buffer()),
            ser.counter() == 0,
            final(self).serializer() == *final(ser),
    {
        self.0.reset();
        &mut self.0
    }

    /// The buffer, so that input can be read into it. Its capacity may be
    /// changed and its memory given back.
    pub fn get_buffer(&mut self) -> (buffer: &mut Vec<u8>)
        ensures
            buffer@ == old(self).buffer(),
            final(self).buffer() == final(buffer)@,
    {
        self.0.get_buffer()
    }

    /// Decodes one value of the given shape from the front of the buffer
    /// and returns it with the bytes that follow it. A message that
    /// `serialize` left in the buffer begins with its header, which is no
    /// part of the value.
    pub fn deserialize(&self, shape: &Shape) -> (r: Result<(Value, &[u8]), Error>)
        ensures
            match decode(shape@, self.buffer()) {
                Ok((d, rest)) => r is Ok && r.unwrap().0@ == d && r.unwrap().1@ == rest,
                Err(k) => r is Err && r.unwrap_err().kind() == k,
            },
    {
        from_bytes(shape, self.0.as_bytes())
    }
}

impl Default for Transformer {
    /// A transformer whose buffer is empty.
    fn default() -> (t: Self)
        ensures
            t.buffer() == Seq::<u8>::empty(),
    {
        Transformer::new()
    }
}

} // verus!
