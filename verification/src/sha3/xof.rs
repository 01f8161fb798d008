//! The functions derived from the sponge: a fixed-length hash, a key
//! derivation function and a message authentication code.
//!
//! All three use a capacity of 512 bits, that is a rate of 136 bytes.
//! * `hash` is SHA3-256: domain bits `01`, 256 bits of output.
//! * `kdf` and `mac` absorb a context string in front of their input and use
//!   the domain bits `1111` of the extendable-output functions; `kdf` squeezes
//!   as many bytes as asked for, `mac` a tag of 256 bits.
//!
//! The context strings keep the purposes apart. The ones used by this
//! library are listed in `crate::model::shake_functions`; none of them is a
//! prefix of another.
use crate::sha3::aux_functions::append_bytes;
use crate::sha3::sponge::{
    absorb_with_suffix, lemma_sponge_absorbed_is_state, lemma_squeezed_len, sponge_absorbed,
    sponge_squeeze, squeezed,
};
use vstd::prelude::*;

verus! {

/// Capacity of the sponge in bits.
pub const CAPACITY_BITS: usize = 512;

/// Rate of the sponge in bits.
pub const RATE_BITS: usize = 1088;

/// Rate of the sponge in bytes.
pub const RATE_BYTES: usize = 136;

/// Suffix byte of the hash: domain bits `01` and the first padding bit.
pub const HASH_SUFFIX: u8 = 0x06;

/// Suffix byte of the extendable-output functions: domain bits `1111` and
/// the first padding bit.
pub const XOF_SUFFIX: u8 = 0x1f;

/// Length of a digest in bytes.
pub const DIGEST_BYTES: usize = 32;

/// Length of an authentication tag in bytes.
pub const TAG_BYTES: usize = 32;

/// The digest of `data`.
pub open spec fn hash_of(data: Seq<u8>) -> Seq<u8> {
    squeezed(sponge_absorbed(data, 136, 0x06), 256, 1088)
}

/// The first `out_len` bytes of the key stream derived from `key_material`
/// under `context`.
pub open spec fn kdf_of(key_material: Seq<u8>, context: Seq<u8>, out_len: nat) -> Seq<u8> {
    squeezed(sponge_absorbed(context + key_material, 136, 0x1f), 8 * out_len, 1088)
}

/// The tag of `message` under `key` and `context`.
pub open spec fn mac_of(key: Seq<u8>, message: Seq<u8>, context: Seq<u8>) -> Seq<u8> {
    squeezed(sponge_absorbed(context + key + message, 136, 0x1f), 256, 1088)
}

/// A digest has 32 bytes, a derived key stream the length asked for, and a
/// tag 32 bytes.
pub proof fn lemma_output_lengths(a: Seq<u8>, b: Seq<u8>, c: Seq<u8>, out_len: nat)
    ensures
        hash_of(a).len() == 32,
        kdf_of(a, b, out_len).len() == out_len,
        mac_of(a, b, c).len() == 32,
{
    lemma_sponge_absorbed_is_state(a, 136, 0x06);
    lemma_squeezed_len(sponge_absorbed(a, 136, 0x06), 256, 1088);
    lemma_sponge_absorbed_is_state(b + a, 136, 0x1f);
    lemma_squeezed_len(sponge_absorbed(b + a, 136, 0x1f), 8 * out_len, 1088);
    lemma_sponge_absorbed_is_state(c + a + b, 136, 0x1f);
    lemma_squeezed_len(sponge_absorbed(c + a + b, 136, 0x1f), 256, 1088);
}

/// Absorbs `input` with the given suffix and squeezes `out_len` bytes.
fn sponge(input: &[u8], suffix: u8, out_len: usize) -> (out: Vec<u8>)
    requires
        input.len() + 200 <= usize::MAX,
        8 * out_len <= usize::MAX,
    ensures
        out@ == squeezed(sponge_absorbed(input@, 136, suffix), (8 * out_len) as nat, 1088),
        out@.len() == out_len,
{
    let mut state = absorb_with_suffix(input, RATE_BYTES, suffix);
    sponge_squeeze(&mut state, 8 * out_len, RATE_BITS)
}

/// Hashes `data` to a digest of 32 bytes.
pub fn hash(data: &[u8]) -> (digest: Vec<u8>)
    requires
        data.len() + 200 <= usize::MAX,
    ensures
        digest@ == hash_of(data@),
        digest@.len() == 32,
{
    sponge(data, HASH_SUFFIX, DIGEST_BYTES)
}

/// Derives `out_len` bytes from `key_material` under `context`.
pub fn kdf(key_material: &[u8], context: &[u8], out_len: usize) -> (out: Vec<u8>)
    requires
        context.len() + key_material.len() + 200 <= usize::MAX,
        8 * out_len <= usize::MAX,
    ensures
        out@ == kdf_of(key_material@, context@, out_len as nat),
        out@.len() == out_len,
{
    let mut input: Vec<u8> = Vec::with_capacity(context.len() + key_material.len());
    append_bytes(&mut input, context);
    append_bytes(&mut input, key_material);
    assert(input@ =~= context@ + key_material@);
    sponge(input.as_slice(), XOF_SUFFIX, out_len)
}

/// Computes the tag of 32 bytes of `message` under `key` and `context`.
pub fn mac(key: &[u8], message: &[u8], context: &[u8]) -> (tag: Vec<u8>)
    requires
        context.len() + key.len() + message.len() + 200 <= usize::MAX,
    ensures
        tag@ == mac_of(key@, message@, context@),
        tag@.len() == 32,
{
    let mut input: Vec<u8> = Vec::with_capacity(context.len() + key.len() + message.len());
    append_bytes(&mut input, context);
    append_bytes(&mut input, key);
    append_bytes(&mut input, message);
    assert(input@ =~= context@ + key@ + message@);
    sponge(input.as_slice(), XOF_SUFFIX, TAG_BYTES)
}

} // verus!
