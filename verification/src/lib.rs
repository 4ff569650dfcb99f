pub mod boundary;
pub mod source;
pub mod split;

use vstd::prelude::*;

verus! {

/// The result type of the fallible operations: the error is a human-readable
/// message describing the underlying failure.
pub type CorpyResult<T> = Result<T, String>;

} // verus!
