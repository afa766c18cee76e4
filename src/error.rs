//! The errors of the library.

use vstd::prelude::*;

verus! {

/// The ways a call into the library can fail. Each error is local to the call
/// that produced it.
#[derive(Debug, Clone, Copy, PartialEq, Eq, Structural)]
pub enum RegressionError {
    /// A value is not representable under the numeric encoding (zero
    /// denominator, magnitude or precision overflow).
    Encoding,
    /// A ciphertext was encrypted and decrypted under keys that do not match.
    KeyMismatch,
    /// A vector does not hold exactly `VEC_SIZE` elements.
    Shape,
    /// The circuit set could not be compiled.
    CircuitCompilation,
    /// The evaluation of a circuit failed.
    CircuitEvaluation,
}

} // verus!
