//! Linear regression statistics over an exact numeric encoding: the circuits
//! that a homomorphic evaluation service runs on ciphertexts, stated and
//! proved over their plaintext values.

pub mod error;
pub mod fixed;
pub mod laws;
pub mod model;
pub mod rational;
pub mod stats;
