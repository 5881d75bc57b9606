//! The transport this crate sits on.
//!
//! # Why the trait is this small
//!
//! A TLS session needs somewhere to put ciphertext and somewhere to get it
//! from. That is the whole of it, so that is the whole of the trait. Anything
//! wider would start describing a socket, and then a caller with a Unix
//! socket, an in-memory pipe or another crate's stream would have to pretend
//! to be one.

use vstd::prelude::*;

use crate::error::Result;

verus! {

/// Somewhere to read bytes from and write them to.
pub trait ByteStream {
    /// All the bytes that were read from this stream, oldest first.
    ///
    /// Ghost. An implementation that is verified is given this history, and has
    /// to be: the body here stands for none, and no read of a byte keeps to the
    /// contract with it.
    open spec fn received(&self) -> Seq<u8> {
        arbitrary()
    }

    /// All the bytes that were written to this stream, oldest first.
    ///
    /// Ghost, and to be given by an implementation, as [`ByteStream::received`].
    open spec fn sent(&self) -> Seq<u8> {
        arbitrary()
    }

    /// Read into `buffer`, returning zero at end of stream.
    fn read(&mut self, buffer: &mut [u8]) -> (count: Result<usize>)
        ensures
            final(buffer)@.len() == old(buffer)@.len(),
            final(self).sent() == old(self).sent(),
            count matches Ok(n) ==> {
                &&& n <= final(buffer)@.len()
                &&& final(self).received() == old(self).received() + final(buffer)@.take(n as int)
            },
    ;

    /// Write all of `buffer`.
    fn write_all(&mut self, buffer: &[u8]) -> (result: Result<()>)
        ensures
            final(self).received() == old(self).received(),
            result is Ok ==> final(self).sent() == old(self).sent() + buffer@,
    ;
}

} // verus!
