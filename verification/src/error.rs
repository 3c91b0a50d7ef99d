//! Error kinds of the key-encapsulation operations. Decapsulation never
//! reports failure through an error: an invalid ciphertext yields a
//! pseudorandom shared secret instead (implicit rejection).

use vstd::prelude::*;

verus! {

/// Errors of the boundary validation and of the external collaborators.
#[derive(Clone, Copy, PartialEq, Eq, Structural, Debug)]
pub enum KemError {
    /// Input data is invalid (wrong-length byte buffer).
    InvalidInput,
    /// The provided public or secret key is invalid.
    InvalidKey,
    /// Decapsulation failed; never produced by this library's decapsulation,
    /// which rejects implicitly instead.
    DecapsulationFailure,
    /// The external randomness source failed to produce bytes.
    RandomnessError,
    /// An invariant violation that correct collaborators never cause.
    InternalError,
}

impl KemError {
    /// A short description of the error.
    pub fn describe(&self) -> (r: &'static str)
    {
        match self {
            KemError::InvalidInput => "invalid input provided",
            KemError::InvalidKey => "invalid key format or parameters",
            KemError::DecapsulationFailure => "decapsulation failed",
            KemError::RandomnessError => "failed to generate sufficient randomness",
            KemError::InternalError => "an internal cryptographic error occurred",
        }
    }
}

} // verus!
