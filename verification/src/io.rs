//! Payloads that can be read from memory.
use vstd::prelude::*;

use crate::error::Error;
use crate::receive::Reader;

verus! {

/// The view of a slice that may be missing.
pub open spec fn slice_view(b: Option<&[u8]>) -> Option<Seq<u8>> {
    match b {
        Some(b) => Some(b@),
        None => None,
    }
}

/// A payload whose bytes are in memory.
///
/// Some payloads can lend their bytes as they are; every payload can be turned
/// into a reader, unless its bytes cannot be decoded. Both ways give the same
/// bytes.
pub trait MemRead: Sized {
    /// The bytes that the payload can lend as they are.
    spec fn direct(&self) -> Option<Seq<u8>>;

    /// The bytes that a reader over the payload gives; none where no reader
    /// can be made.
    spec fn content(&self) -> Option<Seq<u8>>;

    /// What the payload lends is what a reader over it gives.
    proof fn lemma_direct_is_content(&self)
        ensures
            self.direct() matches Some(b) ==> self.content() == Some(b),
    ;

    /// The bytes of the payload, where they can be lent as they are.
    fn bytes(&self) -> (r: Option<&[u8]>)
        ensures
            slice_view(r) == self.direct(),
    ;

    /// A reader over the bytes of the payload.
    fn into_reader(self) -> (r: Result<Reader, Error>)
        ensures
            r is Ok <==> self.content() is Some,
            r matches Ok(reader) ==> Some(reader.remaining()) == self.content(),
    ;
}

impl<'a> MemRead for &'a [u8] {
    open spec fn direct(&self) -> Option<Seq<u8>> {
        Some(self@)
    }

    open spec fn content(&self) -> Option<Seq<u8>> {
        Some(self@)
    }

    proof fn lemma_direct_is_content(&self) {
    }

    fn bytes(&self) -> (r: Option<&[u8]>) {
        Some(*self)
    }

    fn into_reader(self) -> (r: Result<Reader, Error>) {
        Ok(Reader::over(vstd::slice::slice_to_vec(self)))
    }
}

} // verus!
