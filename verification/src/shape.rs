//! What a decoder is told to expect: the bytes do not describe themselves.

use vstd::prelude::*;

verus! {

/// The shape of the value that the next bytes hold.
#[derive(Debug, PartialEq, Eq)]
pub enum Shape {
    Bool,
    U8,
    U16,
    U32,
    U64,
    I8,
    I16,
    I32,
    I64,
    Char,
    Str,
    Bytes,
    /// A unit or unit struct.
    Unit,
    /// A tuple, struct, tuple struct or newtype struct: the shapes of its
    /// fields in declaration order.
    Tuple(Vec<Shape>),
    /// A sequence of elements of one shape.
    List(Box<Shape>),
    /// An enum: the payload shape of each variant, by variant index.
    Enum(Vec<Shape>),
    /// An optional value. The bytes cannot tell whether it is there.
    Optional(Box<Shape>),
    /// A map. The format cannot carry it.
    Dict(Box<Shape>, Box<Shape>),
    /// Whatever the bytes hold. The format cannot tell.
    Any,
}

/// What a `Shape` is, mathematically.
pub enum Form {
    Bool,
    U8,
    U16,
    U32,
    U64,
    I8,
    I16,
    I32,
    I64,
    Char,
    Str,
    Bytes,
    Unit,
    Tuple(Seq<Form>),
    List(Box<Form>),
    Enum(Seq<Form>),
    Optional(Box<Form>),
    Dict(Box<Form>, Box<Form>),
    Any,
}

impl Shape {
    /// The mathematical shape this stands for.
    pub open spec fn form(self) -> Form
        decreases self,
    {
        match self {
            Shape::Bool => Form::Bool,
            Shape::U8 => Form::U8,
            Shape::U16 => Form::U16,
            Shape::U32 => Form::U32,
            Shape::U64 => Form::U64,
            Shape::I8 => Form::I8,
            Shape::I16 => Form::I16,
            Shape::I32 => Form::I32,
            Shape::I64 => Form::I64,
            Shape::Char => Form::Char,
            Shape::Str => Form::Str,
            Shape::Bytes => Form::Bytes,
            Shape::Unit => Form::Unit,
            Shape::Tuple(fs) => Form::Tuple(
                Seq::new(
                    fs@.len(),
                    |i: int| if 0 <= i < fs@.len() { fs@[i].form() } else { Form::Unit },
                ),
            ),
            Shape::List(e) => Form::List(Box::new((*e).form())),
            Shape::Enum(vs) => Form::Enum(
                Seq::new(
                    vs@.len(),
                    |i: int| if 0 <= i < vs@.len() { vs@[i].form() } else { Form::Unit },
                ),
            ),
            Shape::Optional(e) => Form::Optional(Box::new((*e).form())),
            Shape::Dict(k, v) => Form::Dict(Box::new((*k).form()), Box::new((*v).form())),
            Shape::Any => Form::Any,
        }
    }
}

impl View for Shape {
    type V = Form;

    open spec fn view(&self) -> Form {
        self.form()
    }
}

/// The mathematical shapes that a run of `Shape`s stands for.
pub open spec fn forms(shapes: Seq<Shape>) -> Seq<Form> {
    Seq::new(shapes.len(), |i: int| shapes[i].form())
}

/// A tuple stands for the forms of its fields, an enum for the forms of its
/// variants.
pub proof fn lemma_form_of_composite(s: Shape)
    ensures
        s matches Shape::Tuple(fs) ==> s@ == Form::Tuple(forms(fs@)),
        s matches Shape::Enum(vs) ==> s@ == Form::Enum(forms(vs@)),
{
    match s {
        Shape::Tuple(fs) => {
            assert(s@->Tuple_0 =~= forms(fs@));
        },
        Shape::Enum(vs) => {
            assert(s@->Enum_0 =~= forms(vs@));
        },
        _ => {},
    }
}

} // verus!
