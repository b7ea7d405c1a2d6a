//! The ways in which the engine turns an input down.

use vstd::prelude::*;

verus! {

/// Why a text, a key or an image was rejected. Every rejection is an ordinary
/// outcome: the caller asks for new input and tries again.
#[derive(Debug, Clone, Copy, PartialEq, Eq, Structural)]
pub enum CipherError {
    /// A character lies outside the letters that the operation accepts.
    NonAlphabeticInput,
    /// A residue is not below 26.
    OutOfRange,
    /// A key has the wrong length, a wrong digit or a value out of range.
    InvalidKeyShape,
    /// A key has no inverse modulo the size of the alphabet.
    KeyNotInvertible,
    /// The blocks of a transposition ciphertext differ from the key's length.
    BlockLengthMismatch,
    /// A pixel buffer does not describe an image that can be transformed.
    UnsupportedImageFormat,
}

/// Whether `r` is the rejection `e`.
pub open spec fn fails_with<T>(r: Result<T, CipherError>, e: CipherError) -> bool {
    r is Err && r->Err_0 == e
}

} // verus!
