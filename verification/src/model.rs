//! The schemes built from the sponge and the curve.
pub mod laws;
pub mod shake_functions;
