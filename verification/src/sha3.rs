//! The Keccak permutation, the sponge built on it, and the functions derived
//! from the sponge.
pub mod keccakf;
pub mod aux_functions;
pub mod sponge;
pub mod xof;
