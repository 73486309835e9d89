//! The ways in which an encryption run can fail.

use vstd::prelude::*;

verus! {

/// Why an encryption run failed. Every failure is final: no part of the
/// output produced so far is valid on its own.
#[derive(Clone, Copy, Debug, PartialEq, Eq, Structural)]
pub enum EncryptError {
    /// The key is not exactly 32 bytes long.
    InvalidKeyLength,
    /// A short chunk together with its padding does not fit in the chunk buffer.
    InvalidPadding,
    /// The cipher refused to seal a chunk.
    SealFailure,
    /// The byte source reported an error.
    ReadFailure,
}

} // verus!
