//! Lane rotation and base conversion gates of the Keccak permutation, as constraints of
//! a PLONK-style constraint system.
//!
//! A 64-bit lane is cut into chunks of one to four bits. Each chunk gets a lookup from
//! base 13 to base 9, a running sum in each of the two bases and a step of the block
//! count accumulator. The gates are registered in a `halo2_proofs` constraint system;
//! what they mean for a witness is stated and proved over the model in [`poly`].

pub mod arith_helpers;
pub mod field;
pub mod gates;
pub mod plonk;
pub mod poly;
