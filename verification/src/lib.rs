//! A binary codec for the wire format spoken by the OpenSSH multiplex server.
//!
//! All integers are big endian; booleans and characters travel as `u32`;
//! strings and byte strings are a `u32` length followed by the content;
//! tuples and structs are their fields one after another; a sequence is a
//! `u32` count followed by its elements; an enum is a `u32` variant index
//! followed by its payload. Maps cannot be expressed.

pub mod de;
pub mod error;
pub mod format;
pub mod laws;
pub mod ser;
pub mod ser_backer;
pub mod ser_output;
pub mod shape;
pub mod source;
pub mod transformer;
pub mod value;
pub mod wire;

pub use de::{from_bytes, Access, Deserializer};
pub use error::{Error, ErrorKind};
pub use ser::{to_bytes, Serializer};
pub use ser_backer::SerBacker;
pub use ser_output::SerOutput;
pub use shape::Shape;
pub use source::{ChunkSource, NoChunks, SliceChunks};
pub use transformer::Transformer;
pub use value::Value;
