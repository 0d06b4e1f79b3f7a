//! Temporary storage for the compressed blocks of the encoder, which can
//! only be written out once every block is complete.
use vstd::prelude::*;

use crate::error::Error;
use crate::writer::append_bytes;

verus! {

/// An interface for temporary storage.
pub trait Storage: Sized {
    /// The buffer that holds one block.
    type Buffer;

    /// The bytes that a buffer holds.
    spec fn contents(&self, b: &Self::Buffer) -> Seq<u8>;

    /// Whether no operation of the storage can fail.
    spec fn infallible(&self) -> bool;

    /// Create a new, empty buffer.
    fn create_buffer(&self) -> (r: Result<Self::Buffer, Error>)
        ensures
            r matches Ok(b) ==> self.contents(&b) == Seq::<u8>::empty(),
            self.infallible() ==> r is Ok,
    ;

    /// Append `data` to a buffer.
    fn append(&self, b: &mut Self::Buffer, data: &[u8]) -> (r: Result<(), Error>)
        ensures
            r is Ok ==> self.contents(final(b)) == self.contents(old(b)) + data@,
            self.infallible() ==> r is Ok,
    ;

    /// The number of bytes that a buffer holds.
    fn buffer_length(&self, b: &Self::Buffer) -> (r: Result<u64, Error>)
        ensures
            r matches Ok(n) ==> n == self.contents(b).len(),
            self.infallible() ==> r is Ok,
    ;

    /// Copy the contents of a buffer to the end of `file`, and release it.
    /// Whatever happens, what `file` held before stays in front.
    fn write_buffer(&self, b: Self::Buffer, file: &mut Vec<u8>) -> (r: Result<(), Error>)
        ensures
            r is Ok ==> final(file)@ == old(file)@ + self.contents(&b),
            old(file)@.is_prefix_of(final(file)@),
            self.infallible() ==> r is Ok,
    ;

    /// Release the storage.
    fn close(self) -> (r: Result<(), Error>);
}

/// In-memory storage: each buffer is a byte vector.
#[derive(Debug, Clone, Copy, PartialEq, Eq, Structural)]
pub struct Memory;

impl Storage for Memory {
    type Buffer = Vec<u8>;

    open spec fn contents(&self, b: &Vec<u8>) -> Seq<u8> {
        b@
    }

    open spec fn infallible(&self) -> bool {
        true
    }

    fn create_buffer(&self) -> (r: Result<Vec<u8>, Error>) {
        Ok(Vec::new())
    }

    fn append(&self, b: &mut Vec<u8>, data: &[u8]) -> (r: Result<(), Error>) {
        append_bytes(b, data);
        Ok(())
    }

    fn buffer_length(&self, b: &Vec<u8>) -> (r: Result<u64, Error>) {
        Ok(b.len() as u64)
    }

    fn write_buffer(&self, b: Vec<u8>, file: &mut Vec<u8>) -> (r: Result<(), Error>) {
        append_bytes(file, b.as_slice());
        assert(file@.subrange(0, old(file)@.len() as int) =~= old(file)@);
        Ok(())
    }

    fn close(self) -> (r: Result<(), Error>) {
        Ok(())
    }
}

} // verus!
