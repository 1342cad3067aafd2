//! SM2 public-key encryption: the hybrid scheme that seals a message to a
//! recipient's public point and opens it again with the private scalar.
//!
//! Curve arithmetic and the SM3 digest come from `libsm`; the protocol around
//! them (key derivation, masking, integrity tag, ciphertext layout, retry and
//! error rules) is verified here.
use vstd::prelude::*;

pub mod engine;
pub mod kdf;
pub mod cipher;
pub mod laws;

verus! {

} // verus!
