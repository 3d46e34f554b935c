//! A verified core of the GKR interactive proof protocol for layered
//! arithmetic circuits over the BN254 scalar field.
//!
//! The crate models field elements as canonical integers below the modulus,
//! evaluates circuits gate by gate (the prover), and checks the resulting
//! value trace layer by layer against randomized multilinear-extension
//! identities (the verifier).

pub mod algebra;
pub mod field;
pub mod gate;
pub mod circuit;
pub mod parse;
pub mod poly;
pub mod quad;
pub mod prover;
pub mod gkr;
pub mod vpd;
