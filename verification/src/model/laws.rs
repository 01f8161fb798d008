//! What holds of the schemes for all inputs.
use crate::big::{be_value, encode66};
use crate::curve::closure::lemma_cong_add;
use crate::curve::e521::{
    generator, lemma_generator_on_curve, lemma_mul_on_curve, mul_point_mod, neutral, scalar_mul,
};
use crate::curve::group::{
    associative, lemma_mul_is_repeated, lemma_multiples_commute, lemma_repeated_plus_order,
    lemma_repeated_repeated, lemma_repeated_sum,
};
use crate::curve::params::{curve_d, order_r, p521};
use crate::modular::mul_mod;
use crate::model::shake_functions::{
    challenge, ctx_nonce, ctx_sig, ctx_stream, ec_opened, ec_sealed, enc_key, key_stream,
    lemma_derived_scalar_range, opened, point_secret, pw_opened, pw_sealed, pw_secret,
    recovered_commitment, sealed_tag, sealed_text, signature_accepted, signature_nonce,
    signature_of, sym_keys,
};
use crate::sha3::aux_functions::lemma_xor_seq_involution;
use crate::sha3::xof::{lemma_output_lengths, mac_of};
use vstd::arithmetic::div_mod::{
    lemma_div_pos_is_pos, lemma_fundamental_div_mod, lemma_mod_bound, lemma_mod_twice,
    lemma_mul_mod_noop_right, lemma_small_mod,
};
use vstd::prelude::*;

verus! {

/// The string `s` with bit `bit` of byte `at` flipped.
pub open spec fn flip_bit(s: Seq<u8>, at: int, bit: u8) -> Seq<u8> {
    s.update(at, s[at] ^ (1u8 << bit))
}

/// Flipping a bit changes the string.
pub proof fn lemma_flip_bit_changes(s: Seq<u8>, at: int, bit: u8)
    requires
        0 <= at < s.len(),
        bit < 8,
    ensures
        flip_bit(s, at, bit) != s,
        flip_bit(s, at, bit).len() == s.len(),
{
    let b = s[at];
    assert(b ^ (1u8 << bit) != b) by (bit_vector)
        requires
            bit < 8,
    ;
    assert(flip_bit(s, at, bit)[at] != s[at]);
}

/// Opening what was sealed under the same keys gives the message back.
pub proof fn lemma_open_sealed(keys: Seq<u8>, message: Seq<u8>)
    ensures
        opened(keys, sealed_text(keys, message), sealed_tag(keys, sealed_text(keys, message)))
            == Some(message),
        sealed_text(keys, message).len() == message.len(),
{
    let stream = key_stream(keys, message.len());
    lemma_output_lengths(enc_key(keys), ctx_stream(), keys, message.len());
    lemma_xor_seq_involution(message, stream);
}

/// A tag other than the tag of the ciphertext is rejected, and a ciphertext
/// is accepted with a tag exactly if that tag is its own.
pub proof fn lemma_open_rejects(keys: Seq<u8>, ciphertext: Seq<u8>, tag: Seq<u8>)
    ensures
        opened(keys, ciphertext, tag) is None <==> sealed_tag(keys, ciphertext) != tag,
{
}

/// Round trip under a password: decrypting the cryptogram of a message
/// under the password it was encrypted with gives the message, whatever the
/// nonce.
pub proof fn lemma_symmetric_round_trip(z: Seq<u8>, pw: Seq<u8>, message: Seq<u8>)
    ensures
        pw_opened(pw, z, pw_sealed(z, pw, message).0, pw_sealed(z, pw, message).1) == Some(
            message,
        ),
{
    lemma_open_sealed(sym_keys(pw_secret(z, pw)), message);
}

/// Tampering with the tag: a cryptogram whose tag was replaced by any
/// other string, in particular one with a flipped bit, is rejected.
pub proof fn lemma_tampered_tag_rejected(
    z: Seq<u8>,
    pw: Seq<u8>,
    message: Seq<u8>,
    tag: Seq<u8>,
)
    requires
        tag != pw_sealed(z, pw, message).1,
    ensures
        pw_opened(pw, z, pw_sealed(z, pw, message).0, tag) is None,
{
}

/// Tampering with the tag, bit by bit.
pub proof fn lemma_flipped_tag_rejected(
    z: Seq<u8>,
    pw: Seq<u8>,
    message: Seq<u8>,
    at: int,
    bit: u8,
)
    requires
        0 <= at < pw_sealed(z, pw, message).1.len(),
        bit < 8,
    ensures
        pw_opened(
            pw,
            z,
            pw_sealed(z, pw, message).0,
            flip_bit(pw_sealed(z, pw, message).1, at, bit),
        ) is None,
{
    lemma_flip_bit_changes(pw_sealed(z, pw, message).1, at, bit);
}

/// Tampering with the ciphertext: a cryptogram whose ciphertext was
/// replaced is rejected, provided the tag of the new ciphertext is not the
/// tag of the old one.
pub proof fn lemma_tampered_ciphertext_rejected(
    z: Seq<u8>,
    pw: Seq<u8>,
    message: Seq<u8>,
    ciphertext: Seq<u8>,
)
    requires
        sealed_tag(sym_keys(pw_secret(z, pw)), ciphertext) != sealed_tag(
            sym_keys(pw_secret(z, pw)),
            pw_sealed(z, pw, message).0,
        ),
    ensures
        pw_opened(pw, z, ciphertext, pw_sealed(z, pw, message).1) is None,
{
}

/// The addition of points of E521 is associative.
///
/// This is the one law of the group of the curve that is stated here and
/// not proved.
pub open spec fn group_law() -> bool {
    associative(p521(), curve_d())
}

/// `r` times the generator, computed without reducing the scalar, is the
/// neutral element.
pub open spec fn generator_has_order_r() -> bool {
    mul_point_mod(order_r(), generator(), p521(), curve_d()) == neutral()
}

/// Given the group law, both sides of an encryption under a key pair
/// arrive at the same point: `s (k G) = k (s G)`.
pub proof fn lemma_shared_point_agrees(s: nat, k: nat)
    requires
        group_law(),
    ensures
        scalar_mul(s, scalar_mul(k, generator())) == scalar_mul(k, scalar_mul(s, generator())),
{
    lemma_generator_on_curve();
    lemma_multiples_commute(
        s % order_r(),
        k % order_r(),
        generator(),
        p521(),
        curve_d(),
    );
}

/// Round trip under a key pair, given the group law: decrypting under `s`
/// the cryptogram made for the public point `s G` with any ephemeral
/// scalar `k` gives the message.
pub proof fn lemma_asymmetric_round_trip(s: nat, k: nat, message: Seq<u8>)
    requires
        group_law(),
    ensures
        ({
            let sealed = ec_sealed(k, scalar_mul(s, generator()), message);
            ec_opened(s, sealed.0, sealed.1, sealed.2) == Some(message)
        }),
{
    lemma_shared_point_agrees(s, k);
    let shared = scalar_mul(k, scalar_mul(s, generator()));
    lemma_open_sealed(sym_keys(point_secret(shared)), message);
}

/// Given the group law and the order of the generator, the verifier
/// recovers the commitment of the signer: `z G + h (s G) = k G` for the
/// nonce `k`, the challenge `h` and the response `z` of a signature under
/// `s`.
pub proof fn lemma_commitment_recovered(s: nat, message: Seq<u8>)
    requires
        group_law(),
        generator_has_order_r(),
    ensures
        ({
            let sig = signature_of(s, message);
            recovered_commitment(sig.0, sig.1, scalar_mul(s, generator())) == scalar_mul(
                signature_nonce(s, message),
                generator(),
            )
        }),
{
    let r = order_r();
    let p = p521();
    let d = curve_d();
    let g = generator();
    let k = signature_nonce(s, message);
    let sig = signature_of(s, message);
    let h = sig.0;
    let z = sig.1;
    let sr = s % r;
    let e = mul_mod(h, s, r);
    lemma_generator_on_curve();
    lemma_derived_scalar_range(encode66(s) + message, ctx_nonce(), 0);
    // all three scalars are below r
    lemma_mod_bound(
        be_value(
            mac_of(
                Seq::<u8>::empty(),
                encode66(scalar_mul(k, g).0) + encode66(scalar_mul(k, g).1) + message,
                ctx_sig(),
            ),
        ) as int,
        r as int,
    );
    lemma_mod_bound(k - e, r as int);
    lemma_mod_bound((h * s) as int, r as int);
    lemma_small_mod(h, r);
    lemma_small_mod(z, r);
    lemma_small_mod(k, r);
    lemma_small_mod(e, r);
    // z + h (s mod r) is k plus a multiple of r
    let total = z + h * sr;
    lemma_mul_mod_noop_right(h as int, s as int, r as int);
    lemma_mod_twice(k - e, r as int);
    lemma_cong_add(z as int, k - e, (h * sr) as int, e as int, r as int);
    let q = total / r;
    lemma_fundamental_div_mod(total as int, r as int);
    lemma_div_pos_is_pos(total as int, r as int);
    assert(r * q == q * r) by (nonlinear_arith);
    assert(total == k + q * r);
    // multiples of the generator
    let v = mul_point_mod(sr, g, p, d);
    lemma_mul_on_curve(sr, g, p, d);
    lemma_mul_is_repeated(sr, g, p, d);
    lemma_mul_is_repeated(z, g, p, d);
    lemma_mul_is_repeated(k, g, p, d);
    lemma_mul_is_repeated(r, g, p, d);
    lemma_mul_is_repeated(h, v, p, d);
    lemma_repeated_repeated(h, sr, g, p, d);
    lemma_repeated_sum(z, h * sr, g, p, d);
    lemma_repeated_plus_order(k, q, r, g, p, d);
}

/// Signature round trip, given the group law and the order of the
/// generator: the signature of a message under `s` is accepted for that
/// message under the public point `s G`.
pub proof fn lemma_signature_round_trip(s: nat, message: Seq<u8>)
    requires
        group_law(),
        generator_has_order_r(),
    ensures
        ({
            let sig = signature_of(s, message);
            signature_accepted(sig.0, sig.1, scalar_mul(s, generator()), message)
        }),
{
    lemma_commitment_recovered(s, message);
}

/// A signature is rejected for another message or another public point
/// exactly if the challenge recomputed from them differs from the
/// challenge of the signature.
pub proof fn lemma_signature_rejected(h: nat, z: nat, public: (nat, nat), message: Seq<u8>)
    ensures
        !signature_accepted(h, z, public, message) <==> challenge(
            recovered_commitment(h, z, public),
            message,
        ) != h,
{
}

} // verus!
