//! The byte store behind serialized output.

use vstd::prelude::*;

verus! {

/// A growable store that serialized output is appended to.
///
/// It only ever grows at its end: the three methods say what the store
/// holds afterwards in terms of what it held before.
pub trait SerBacker {
    /// The bytes the store holds. A store written outside verified code
    /// has nothing to say here and is taken on trust.
    open spec fn stored(&self) -> Seq<u8> {
        Seq::empty()
    }

    /// Appends all of `other`.
    fn extend_from_slice(&mut self, other: &[u8])
        ensures
            (*final(self)).stored() == (*old(self)).stored() + other@,
    ;

    /// Appends one byte.
    fn push(&mut self, byte: u8)
        ensures
            (*final(self)).stored() == (*old(self)).stored().push(byte),
    ;

    /// Reserves capacity for at least `additional` more bytes to be
    /// inserted. More may be reserved, to avoid frequent reallocations. The
    /// contents stay as they are.
    fn reserve(&mut self, additional: usize)
        ensures
            (*final(self)).stored() == (*old(self)).stored(),
    ;
}

impl<T: SerBacker> SerBacker for &mut T {
    open spec fn stored(&self) -> Seq<u8> {
        (**self).stored()
    }

    fn extend_from_slice(&mut self, other: &[u8]) {
        (**self).extend_from_slice(other)
    }

    fn push(&mut self, byte: u8) {
        (**self).push(byte)
    }

    fn reserve(&mut self, additional: usize) {
        (**self).reserve(additional);
    }
}

impl SerBacker for Vec<u8> {
    open spec fn stored(&self) -> Seq<u8> {
        self@
    }

    fn extend_from_slice(&mut self, other: &[u8]) {
        let ghost before = self@;
        Vec::extend_from_slice(self, other);
        assert(self@ =~= before + other@);
    }

    fn push(&mut self, byte: u8) {
        Vec::push(self, byte);
    }

    /// A request that would take the buffer past `isize::MAX` bytes cannot be
    /// met and is passed over.
    fn reserve(&mut self, additional: usize) {
        let len: usize = self.len();
        let limit: usize = isize::MAX as usize;
        if len <= limit && additional <= limit - len {
            Vec::reserve(self, additional);
        }
    }
}

} // verus!
