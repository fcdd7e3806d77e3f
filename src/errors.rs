//! Error types of the codec.
use vstd::prelude::*;

verus! {

/// Why a decode failed.
#[derive(Clone, Copy, Debug, PartialEq, Eq, Structural)]
pub enum Error {
    /// A symbol outside the alphabet, or malformed padding.
    InvalidEncoding,
    /// The destination is too small, or the framing of the input is wrong.
    InvalidLength,
}

/// A symbol outside the alphabet, or malformed padding.
#[derive(Clone, Copy, Debug, PartialEq, Eq, Structural)]
pub struct InvalidEncodingError;

/// The destination is too small, or the input is too long to encode.
#[derive(Clone, Copy, Debug, PartialEq, Eq, Structural)]
pub struct InvalidLengthError;

} // verus!
