//! The values the format can carry, and the shapes a decoder is told to expect.

use vstd::prelude::*;

verus! {

/// A structured value, as handed to the encoder or built by the decoder.
#[derive(Debug, PartialEq, Eq)]
pub enum Value {
    Bool(bool),
    U8(u8),
    U16(u16),
    U32(u32),
    U64(u64),
    I8(i8),
    I16(i16),
    I32(i32),
    I64(i64),
    Char(char),
    Str(String),
    Bytes(Vec<u8>),
    /// A unit or unit struct.
    Unit,
    /// An optional value that is absent.
    Absent,
    /// An optional value that is present.
    Present(Box<Value>),
    /// A tuple, struct, tuple struct or newtype struct: its fields in
    /// declaration order.
    Tuple(Vec<Value>),
    /// A sequence of known length.
    List(Vec<Value>),
    /// An enum value: the variant's index and its payload.
    Variant(u32, Box<Value>),
    /// A map: its entries. The format cannot carry it.
    Dict(Vec<(Value, Value)>),
}

/// What a `Value` is, mathematically.
pub enum Datum {
    Bool(bool),
    U8(u8),
    U16(u16),
    U32(u32),
    U64(u64),
    I8(i8),
    I16(i16),
    I32(i32),
    I64(i64),
    Char(char),
    Str(Seq<char>),
    Bytes(Seq<u8>),
    Unit,
    Absent,
    Present(Box<Datum>),
    Tuple(Seq<Datum>),
    List(Seq<Datum>),
    Variant(u32, Box<Datum>),
    Dict(Seq<(Datum, Datum)>),
}

impl Value {
    /// The mathematical value this stands for.
    pub open spec fn datum(self) -> Datum
        decreases self,
    {
        match self {
            Value::Bool(b) => Datum::Bool(b),
            Value::U8(n) => Datum::U8(n),
            Value::U16(n) => Datum::U16(n),
            Value::U32(n) => Datum::U32(n),
            Value::U64(n) => Datum::U64(n),
            Value::I8(n) => Datum::I8(n),
            Value::I16(n) => Datum::I16(n),
            Value::I32(n) => Datum::I32(n),
            Value::I64(n) => Datum::I64(n),
            Value::Char(c) => Datum::Char(c),
            Value::Str(s) => Datum::Str(s@),
            Value::Bytes(b) => Datum::Bytes(b@),
            Value::Unit => Datum::Unit,
            Value::Absent => Datum::Absent,
            Value::Present(v) => Datum::Present(Box::new((*v).datum())),
            Value::Tuple(fs) => Datum::Tuple(
                Seq::new(
                    fs@.len(),
                    |i: int| if 0 <= i < fs@.len() { fs@[i].datum() } else { Datum::Unit },
                ),
            ),
            Value::List(es) => Datum::List(
                Seq::new(
                    es@.len(),
                    |i: int| if 0 <= i < es@.len() { es@[i].datum() } else { Datum::Unit },
                ),
            ),
            Value::Variant(idx, p) => Datum::Variant(idx, Box::new((*p).datum())),
            Value::Dict(kv) => Datum::Dict(
                Seq::new(
                    kv@.len(),
                    |i: int| if 0 <= i < kv@.len() {
                        (kv@[i].0.datum(), kv@[i].1.datum())
                    } else {
                        (Datum::Unit, Datum::Unit)
                    },
                ),
            ),
        }
    }
}

impl View for Value {
    type V = Datum;

    open spec fn view(&self) -> Datum {
        self.datum()
    }
}

/// The mathematical values that a run of `Value`s stands for.
pub open spec fn data(vs: Seq<Value>) -> Seq<Datum> {
    Seq::new(vs.len(), |i: int| vs[i].datum())
}

/// A tuple stands for the data of its fields, a list for the data of its
/// elements.
pub proof fn lemma_datum_of_composite(v: Value)
    ensures
        v matches Value::Tuple(fs) ==> v@ == Datum::Tuple(data(fs@)),
        v matches Value::List(es) ==> v@ == Datum::List(data(es@)),
{
    match v {
        Value::Tuple(fs) => {
            assert(v@->Tuple_0 =~= data(fs@));
        },
        Value::List(es) => {
            assert(v@->List_0 =~= data(es@));
        },
        _ => {},
    }
}

} // verus!
