//! The algebraic core of a PLONK prover over the BN254 scalar field: witness
//! encoding, the permutation grand product, quotient assembly and chunking,
//! linearization, and the order in which the protocol's steps must run.

pub mod field;
pub mod index;
pub mod permutation;
pub mod poly;
pub mod encoder;
pub mod quotient;
pub mod linearization;
pub mod prover;
pub mod evaluation;
pub mod dlog;
