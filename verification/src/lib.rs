//! A cryptographic toolkit: the Keccak sponge, arithmetic on the Edwards
//! curve E521, and the encryption and signature schemes built from both.
use crate::big::Big;
use vstd::prelude::*;

pub mod big;
pub mod curve;
pub mod model;
pub mod modular;
pub mod sha3;

verus! {

/// A point of E521 together with the parameters of the curve.
#[derive(Clone, Copy, Debug)]
pub struct E521 {
    /// x-coordinate
    pub x: Big,
    /// y-coordinate
    pub y: Big,
    /// prime defining the finite field
    pub p: Big,
    /// the constant `d` of the curve equation
    pub d: Big,
    /// order of the generator
    pub r: Big,
    /// number of points of the curve
    pub n: Big,
}

/// The result of encrypting under a password.
#[derive(Debug)]
pub struct SymmetricCryptogram {
    /// nonce
    pub z: Vec<u8>,
    /// ciphertext
    pub c: Vec<u8>,
    /// authentication tag
    pub t: Vec<u8>,
}

/// The result of encrypting under a public key.
#[derive(Debug)]
pub struct ECCryptogram {
    /// x-coordinate of the ephemeral public point
    pub z_x: Big,
    /// y-coordinate of the ephemeral public point
    pub z_y: Big,
    /// ciphertext
    pub c: Vec<u8>,
    /// authentication tag
    pub t: Vec<u8>,
}

/// A key pair and what is recorded with it.
#[derive(Debug)]
pub struct KeyObj {
    /// owner of the key, an arbitrary label
    pub owner: String,
    /// x-coordinate of the public point
    pub pub_key_x: Big,
    /// y-coordinate of the public point
    pub pub_key_y: Big,
    /// the secret scalar, 66 bytes, most significant first
    pub priv_key: Vec<u8>,
    /// date the key was generated
    pub date_created: String,
}

/// A Schnorr signature.
#[derive(Clone, Copy, Debug)]
pub struct Signature {
    /// challenge
    pub h: Big,
    /// response
    pub z: Big,
}

/// Why an operation did not give a result.
#[derive(Clone, Copy, Debug, PartialEq, Eq, Structural)]
pub enum CryptoError {
    /// The coordinates are not those of a point of the curve.
    MalformedPoint,
    /// A scalar is zero or not below the order of the generator.
    InvalidScalar,
    /// The tag of a cryptogram does not match its content.
    AuthenticationFailure,
    /// The challenge of a signature does not match the message.
    SignatureInvalid,
}

} // verus!
