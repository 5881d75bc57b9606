//! Errors, which are nagoya's.
//!
//! The code a system call left behind, rather than a boxed type: the question
//! a caller asks of a failed read is whether it means "not ready yet", which
//! is a comparison rather than a downcast. nagoya's `StreamError` is that, and
//! taking it from there keeps one definition rather than two that have to be
//! converted at every boundary.

use vstd::prelude::*;

pub mod codes;

pub use nagoya::io::StreamError as Errno;

verus! {

/// The error type of nagoya: a public tuple struct around one `i32`. Declared
/// with its field, so that the code inside can be read and written here.
#[verifier::external_type_specification]
pub struct ExStreamError(nagoya::io::StreamError);

/// The result of an operation on a stream.
pub type Result<T> = core::result::Result<T, Errno>;

} // verus!
