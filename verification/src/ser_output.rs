//! The byte sink a serializer writes into.

use vstd::prelude::*;

verus! {

/// A growable buffer that serialized output is appended to.
///
/// An implementation only ever grows at its end: the three methods say what
/// the buffer holds afterwards in terms of what it held before.
pub trait SerOutput {
    /// The bytes the buffer holds. A buffer written outside verified code
    /// has nothing to say here and is taken on trust.
    open spec fn contents(&self) -> Seq<u8> {
        Seq::empty()
    }

    /// Appends all of `other`.
    fn extend_from_slice(&mut self, other: &[u8])
        ensures
            (*final(self)).contents() == (*old(self)).contents() + other@,
    ;

    /// Appends one byte.
    fn push(&mut self, byte: u8)
        ensures
            (*final(self)).contents() == (*old(self)).contents().push(byte),
    ;

    /// Makes room for at least `additional` more bytes. A hint: the contents
    /// stay as they are.
    fn reserve(&mut self, additional: usize)
        ensures
            (*final(self)).contents() == (*old(self)).contents(),
    ;
}

impl SerOutput for Vec<u8> {
    open spec fn contents(&self) -> Seq<u8> {
        self@
    }

    fn extend_from_slice(&mut self, other: &[u8]) {
        let ghost before = self@;
        Vec::extend_from_slice(self, other);
        assert(self@ =~= before + other@);
    }

    fn push(&mut self, byte: u8) {
        Vec::push(self, byte);
    }

    /// A request that would take the buffer past `isize::MAX` bytes cannot be
    /// met and is passed over.
    fn reserve(&mut self, additional: usize) {
        let len: usize = self.len();
        let limit: usize = isize::MAX as usize;
        if len <= limit && additional <= limit - len {
            Vec::reserve(self, additional);
        }
    }
}

impl<T: SerOutput + ?Sized> SerOutput for &mut T {
    open spec fn contents(&self) -> Seq<u8> {
        (**self).contents()
    }

    fn extend_from_slice(&mut self, other: &[u8]) {
        (**self).extend_from_slice(other)
    }

    fn push(&mut self, byte: u8) {
        (**self).push(byte)
    }

    fn reserve(&mut self, additional: usize) {
        (**self).reserve(additional)
    }
}

/// `bytes::BytesMut`: a growable byte buffer, known here by what it holds.
#[verifier::external_type_specification]
#[verifier::external_body]
pub struct ExBytesMut(bytes::BytesMut);

/// The bytes a `BytesMut` holds, first to last: what it derefs to.
pub uninterp spec fn bytes_mut_contents(buf: bytes::BytesMut) -> Seq<u8>;

/// `BytesMut::len`: the number of bytes the buffer holds.
#[verifier::external_body]
fn bytes_mut_len(buf: &bytes::BytesMut) -> (n: usize)
    ensures
        n == bytes_mut_contents(*buf).len(),
{
    buf.len()
}

/// `BytesMut::extend_from_slice`: the buffer grows at its end by exactly the
/// given bytes; what it held stays in place.
#[verifier::external_body]
fn bytes_mut_extend(buf: &mut bytes::BytesMut, other: &[u8])
    ensures
        bytes_mut_contents(*final(buf)) == bytes_mut_contents(*old(buf)) + other@,
{
    buf.extend_from_slice(other)
}

/// `BufMut::put_u8` on a `BytesMut`: appends the one byte. The buffer grows
/// on demand, so no remaining capacity is asked of the caller.
#[verifier::external_body]
fn bytes_mut_put_u8(buf: &mut bytes::BytesMut, byte: u8)
    ensures
        bytes_mut_contents(*final(buf)) == bytes_mut_contents(*old(buf)).push(byte),
{
    bytes::BufMut::put_u8(buf, byte)
}

/// `BytesMut::reserve`: changes capacity only. The call is kept away from
/// requests whose new capacity could not be represented.
#[verifier::external_body]
fn bytes_mut_reserve(buf: &mut bytes::BytesMut, additional: usize)
    requires
        bytes_mut_contents(*old(buf)).len() + additional <= isize::MAX,
    ensures
        bytes_mut_contents(*final(buf)) == bytes_mut_contents(*old(buf)),
{
    buf.reserve(additional)
}

impl SerOutput for bytes::BytesMut {
    open spec fn contents(&self) -> Seq<u8> {
        bytes_mut_contents(*self)
    }

    fn extend_from_slice(&mut self, other: &[u8]) {
        bytes_mut_extend(self, other);
    }

    fn push(&mut self, byte: u8) {
        bytes_mut_put_u8(self, byte);
    }

    /// A request that would take the buffer past `isize::MAX` bytes cannot be
    /// met and is passed over.
    fn reserve(&mut self, additional: usize) {
        let len: usize = bytes_mut_len(self);
        let limit: usize = isize::MAX as usize;
        if len <= limit && additional <= limit - len {
            bytes_mut_reserve(self, additional);
        }
    }
}

} // verus!
