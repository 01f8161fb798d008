//! Key generation, encryption under a password, encryption under a public
//! key, and Schnorr signatures.
//!
//! Every derivation goes through `kdf` or `mac` with one of six context
//! strings, none of which is a prefix of another:
//! `"key"` (private scalar from a password), `"sym"` (encryption and
//! authentication key), `"stream"` (key stream), `"tag"` (authentication
//! tag), `"sig"` (signature challenge) and `"nonce"` (signature nonce).
//!
//! A scalar is derived from 128 bytes of key stream, read as a number and
//! reduced modulo the order `r`. Coordinates and scalars enter a hash as 66
//! bytes, most significant first.
//!
//! Nothing here draws random numbers or reads a clock: nonces, ephemeral
//! keys and dates are arguments.
use crate::big::{be_value, encode66, Big};
use crate::curve::e521::{
    edwards_add, generator, get_e521_gen_point, get_e521_point, on_curve, scalar_mul,
};
use crate::curve::params::{order_r, subgroup_order};
use crate::modular::{mul_mod, mul_mod_big, reduce_bytes, sub_mod, sub_mod_big};
use crate::sha3::aux_functions::{append_bytes, bytes_equal, xor_bytes, xor_seq};
use crate::sha3::xof::{kdf, kdf_of, mac, mac_of};
use crate::CryptoError;
use crate::ECCryptogram;
use crate::KeyObj;
use crate::Signature;
use crate::SymmetricCryptogram;
use crate::E521;
use vstd::arithmetic::div_mod::lemma_mod_bound;
use vstd::prelude::*;

verus! {

/// Number of key stream bytes that a scalar is derived from.
pub const SCALAR_SEED_BYTES: usize = 128;

/// Number of bytes of the encryption key, and of the authentication key.
pub const KEY_BYTES: usize = 64;

/// How often the derivation of a scalar is tried before it gives up.
pub const MAX_ATTEMPTS: usize = 256;

/// The context `"key"`.
pub open spec fn ctx_key() -> Seq<u8> {
    seq![0x6bu8, 0x65u8, 0x79u8]
}

/// The context `"sym"`.
pub open spec fn ctx_sym() -> Seq<u8> {
    seq![0x73u8, 0x79u8, 0x6du8]
}

/// The context `"stream"`.
pub open spec fn ctx_stream() -> Seq<u8> {
    seq![0x73u8, 0x74u8, 0x72u8, 0x65u8, 0x61u8, 0x6du8]
}

/// The context `"tag"`.
pub open spec fn ctx_tag() -> Seq<u8> {
    seq![0x74u8, 0x61u8, 0x67u8]
}

/// The context `"sig"`.
pub open spec fn ctx_sig() -> Seq<u8> {
    seq![0x73u8, 0x69u8, 0x67u8]
}

/// The context `"nonce"`.
pub open spec fn ctx_nonce() -> Seq<u8> {
    seq![0x6eu8, 0x6fu8, 0x6eu8, 0x63u8, 0x65u8]
}

/// Whether `a` is a prefix of `b`.
pub open spec fn is_prefix(a: Seq<u8>, b: Seq<u8>) -> bool {
    a.len() <= b.len() && b.take(a.len() as int) == a
}

/// No context is a prefix of another one.
pub proof fn lemma_contexts_prefix_free()
    ensures
        forall|i: int, j: int|
            0 <= i < 6 && 0 <= j < 6 && i != j ==> !is_prefix(
                #[trigger] contexts()[i],
                #[trigger] contexts()[j],
            ),
{
    let c = contexts();
    assert forall|i: int, j: int| 0 <= i < 6 && 0 <= j < 6 && i != j implies !is_prefix(
        #[trigger] c[i],
        #[trigger] c[j],
    ) by {
        let a = c[i];
        let b = c[j];
        if is_prefix(a, b) {
            assert(b.take(a.len() as int)[0] == a[0]);
            assert(b.take(a.len() as int)[1] == a[1]);
            assert(b.take(a.len() as int)[2] == a[2]);
        }
    }
}

/// The six contexts.
pub open spec fn contexts() -> Seq<Seq<u8>> {
    seq![ctx_key(), ctx_sym(), ctx_stream(), ctx_tag(), ctx_sig(), ctx_nonce()]
}

/// The `attempt`-th candidate for the scalar derived from `seed`: the key
/// stream of the seed, from the second attempt on of the seed followed by
/// the number of the attempt, reduced modulo `r`.
pub open spec fn scalar_candidate(seed: Seq<u8>, context: Seq<u8>, attempt: nat) -> nat {
    let input = if attempt == 0 {
        seed
    } else {
        seed.push(attempt as u8)
    };
    be_value(kdf_of(input, context, 128)) % order_r()
}

/// The first candidate from `attempt` on that is not zero, or one if all
/// candidates up to the 255th are zero.
pub open spec fn derive_scalar_from(seed: Seq<u8>, context: Seq<u8>, attempt: nat) -> nat
    decreases 256 - attempt,
{
    if attempt >= 256 {
        1
    } else if scalar_candidate(seed, context, attempt) != 0 {
        scalar_candidate(seed, context, attempt)
    } else {
        derive_scalar_from(seed, context, attempt + 1)
    }
}

/// The scalar derived from `seed` under `context`.
pub open spec fn derived_scalar(seed: Seq<u8>, context: Seq<u8>) -> nat {
    derive_scalar_from(seed, context, 0)
}

/// A derived scalar is a valid private scalar.
pub proof fn lemma_derived_scalar_range(seed: Seq<u8>, context: Seq<u8>, attempt: nat)
    ensures
        0 < derive_scalar_from(seed, context, attempt) < order_r(),
    decreases 256 - attempt,
{
    if attempt < 256 {
        let input = if attempt == 0 {
            seed
        } else {
            seed.push(attempt as u8)
        };
        lemma_mod_bound(be_value(kdf_of(input, context, 128)) as int, order_r() as int);
        lemma_derived_scalar_range(seed, context, attempt + 1);
    }
}

/// The 128 bytes of key material derived from a secret: the encryption key
/// followed by the authentication key.
pub open spec fn sym_keys(secret: Seq<u8>) -> Seq<u8> {
    kdf_of(secret, ctx_sym(), 128)
}

/// The encryption key.
pub open spec fn enc_key(keys: Seq<u8>) -> Seq<u8> {
    keys.take(64)
}

/// The authentication key.
pub open spec fn auth_key(keys: Seq<u8>) -> Seq<u8> {
    keys.skip(64)
}

/// The key stream of `len` bytes.
pub open spec fn key_stream(keys: Seq<u8>, len: nat) -> Seq<u8> {
    kdf_of(enc_key(keys), ctx_stream(), len)
}

/// The ciphertext of `message`: the message XORed with the key stream.
pub open spec fn sealed_text(keys: Seq<u8>, message: Seq<u8>) -> Seq<u8> {
    xor_seq(message, key_stream(keys, message.len()))
}

/// The tag of a ciphertext.
pub open spec fn sealed_tag(keys: Seq<u8>, ciphertext: Seq<u8>) -> Seq<u8> {
    mac_of(auth_key(keys), ciphertext, ctx_tag())
}

/// What opening a ciphertext with its tag gives: the message if the tag is
/// the tag of the ciphertext, nothing otherwise.
pub open spec fn opened(keys: Seq<u8>, ciphertext: Seq<u8>, tag: Seq<u8>) -> Option<Seq<u8>> {
    if sealed_tag(keys, ciphertext) == tag {
        Some(xor_seq(ciphertext, key_stream(keys, ciphertext.len())))
    } else {
        None
    }
}

/// The secret that a password and a nonce give.
pub open spec fn pw_secret(z: Seq<u8>, pw: Seq<u8>) -> Seq<u8> {
    z + pw
}

/// The secret that a shared point gives: its x-coordinate.
pub open spec fn point_secret(w: (nat, nat)) -> Seq<u8> {
    encode66(w.0)
}

/// The nonce of a signature.
pub open spec fn signature_nonce(s: nat, message: Seq<u8>) -> nat {
    derived_scalar(encode66(s) + message, ctx_nonce())
}

/// The challenge that belongs to a commitment point and a message.
pub open spec fn challenge(commitment: (nat, nat), message: Seq<u8>) -> nat {
    be_value(
        mac_of(
            Seq::<u8>::empty(),
            encode66(commitment.0) + encode66(commitment.1) + message,
            ctx_sig(),
        ),
    ) % order_r()
}

/// The signature of `message` under the private scalar `s`: challenge and
/// response.
pub open spec fn signature_of(s: nat, message: Seq<u8>) -> (nat, nat) {
    let k = signature_nonce(s, message);
    let h = challenge(scalar_mul(k, generator()), message);
    (h, sub_mod(k, mul_mod(h, s, order_r()), order_r()))
}

/// The commitment point that a verifier computes from a signature.
pub open spec fn recovered_commitment(h: nat, z: nat, public: (nat, nat)) -> (nat, nat) {
    edwards_add(scalar_mul(z, generator()), scalar_mul(h, public))
}

/// Whether a signature is accepted.
pub open spec fn signature_accepted(
    h: nat,
    z: nat,
    public: (nat, nat),
    message: Seq<u8>,
) -> bool {
    challenge(recovered_commitment(h, z, public), message) == h
}

/// The cryptogram of `message` under a password and a nonce: ciphertext
/// and tag.
pub open spec fn pw_sealed(z: Seq<u8>, pw: Seq<u8>, message: Seq<u8>) -> (Seq<u8>, Seq<u8>) {
    let keys = sym_keys(pw_secret(z, pw));
    (sealed_text(keys, message), sealed_tag(keys, sealed_text(keys, message)))
}

/// What decrypting under a password gives.
pub open spec fn pw_opened(pw: Seq<u8>, z: Seq<u8>, c: Seq<u8>, t: Seq<u8>) -> Option<Seq<u8>> {
    opened(sym_keys(pw_secret(z, pw)), c, t)
}

/// The cryptogram of `message` under a public point and an ephemeral
/// scalar `k`: the ephemeral public point, ciphertext and tag.
pub open spec fn ec_sealed(k: nat, public: (nat, nat), message: Seq<u8>) -> (
    (nat, nat),
    Seq<u8>,
    Seq<u8>,
) {
    let keys = sym_keys(point_secret(scalar_mul(k, public)));
    (
        scalar_mul(k, generator()),
        sealed_text(keys, message),
        sealed_tag(keys, sealed_text(keys, message)),
    )
}

/// What decrypting under a private scalar gives.
pub open spec fn ec_opened(s: nat, z: (nat, nat), c: Seq<u8>, t: Seq<u8>) -> Option<Seq<u8>> {
    opened(sym_keys(point_secret(scalar_mul(s, z))), c, t)
}

/// Whether `s` can be a private scalar: not zero and below `r`.
pub open spec fn valid_scalar(s: nat) -> bool {
    0 < s < order_r()
}

impl KeyObj {
    /// The private scalar.
    pub open spec fn scalar(&self) -> nat {
        be_value(self.priv_key@)
    }

    /// The public point.
    pub open spec fn public(&self) -> (nat, nat) {
        (self.pub_key_x@, self.pub_key_y@)
    }

    /// The private scalar is valid, is held in 66 bytes, and the public
    /// point is the private scalar times the generator.
    pub open spec fn wf(&self) -> bool {
        &&& self.priv_key@.len() == 66
        &&& valid_scalar(self.scalar())
        &&& self.public() == scalar_mul(self.scalar(), generator())
        &&& on_curve(self.public())
    }
}

/// The bytes of the context `"key"`.
fn context_key() -> (c: [u8; 3])
    ensures
        c@ == ctx_key(),
{
    let c = [0x6b, 0x65, 0x79];
    assert(c@ =~= ctx_key());
    c
}

/// The bytes of the context `"sym"`.
fn context_sym() -> (c: [u8; 3])
    ensures
        c@ == ctx_sym(),
{
    let c = [0x73, 0x79, 0x6d];
    assert(c@ =~= ctx_sym());
    c
}

/// The bytes of the context `"stream"`.
fn context_stream() -> (c: [u8; 6])
    ensures
        c@ == ctx_stream(),
{
    let c = [0x73, 0x74, 0x72, 0x65, 0x61, 0x6d];
    assert(c@ =~= ctx_stream());
    c
}

/// The bytes of the context `"tag"`.
fn context_tag() -> (c: [u8; 3])
    ensures
        c@ == ctx_tag(),
{
    let c = [0x74, 0x61, 0x67];
    assert(c@ =~= ctx_tag());
    c
}

/// The bytes of the context `"sig"`.
fn context_sig() -> (c: [u8; 3])
    ensures
        c@ == ctx_sig(),
{
    let c = [0x73, 0x69, 0x67];
    assert(c@ =~= ctx_sig());
    c
}

/// The bytes of the context `"nonce"`.
fn context_nonce() -> (c: [u8; 5])
    ensures
        c@ == ctx_nonce(),
{
    let c = [0x6e, 0x6f, 0x6e, 0x63, 0x65];
    assert(c@ =~= ctx_nonce());
    c
}

/// The bytes of `v` from `from` up to `to`.
fn sub_bytes(v: &[u8], from: usize, to: usize) -> (out: Vec<u8>)
    requires
        from <= to <= v.len(),
    ensures
        out@ == v@.subrange(from as int, to as int),
{
    let mut out: Vec<u8> = Vec::with_capacity(to - from);
    let mut i: usize = from;
    while i < to
        invariant
            from <= i <= to <= v.len(),
            out@ == v@.subrange(from as int, i as int),
        decreases to - i,
    {
        out.push(v[i]);
        assert(out@ =~= v@.subrange(from as int, i + 1));
        i += 1;
    }
    out
}

/// Derives a private scalar from `seed` under `context`: the first
/// candidate that is not zero.
pub fn derive_scalar(seed: &[u8], context: &[u8]) -> (s: Big)
    requires
        context.len() + seed.len() + 201 <= usize::MAX,
    ensures
        s@ == derived_scalar(seed@, context@),
        valid_scalar(s@),
{
    let r = subgroup_order();
    proof {
        lemma_derived_scalar_range(seed@, context@, 0);
    }
    let mut attempt: usize = 0;
    while attempt < 256
        invariant
            attempt <= 256,
            r@ == order_r(),
            context.len() + seed.len() + 201 <= usize::MAX,
            derived_scalar(seed@, context@) == derive_scalar_from(seed@, context@, attempt as nat),
        decreases 256 - attempt,
    {
        let mut input: Vec<u8> = Vec::with_capacity(seed.len() + 1);
        append_bytes(&mut input, seed);
        if attempt > 0 {
            input.push(attempt as u8);
        }
        assert(input@ =~= if attempt == 0 {
            seed@
        } else {
            seed@.push(attempt as u8)
        });
        let stream = kdf(input.as_slice(), context, 128);
        let candidate = reduce_bytes(stream.as_slice(), &r);
        if !candidate.is_zero() {
            return candidate;
        }
        attempt += 1;
    }
    Big::from_u64(1)
}

/// Encrypts `message` under the key material `keys` and computes the tag
/// of the ciphertext.
fn seal(keys: &[u8], message: &[u8]) -> (sealed: (Vec<u8>, Vec<u8>))
    requires
        keys.len() == 128,
        8 * message.len() <= usize::MAX,
    ensures
        sealed.0@ == sealed_text(keys@, message@),
        sealed.1@ == sealed_tag(keys@, sealed.0@),
        sealed.0@.len() == message@.len(),
{
    let ke = sub_bytes(keys, 0, 64);
    let ka = sub_bytes(keys, 64, 128);
    assert(ke@ =~= enc_key(keys@));
    assert(ka@ =~= auth_key(keys@));
    let stream = kdf(ke.as_slice(), &context_stream(), message.len());
    let c = xor_bytes(message, stream.as_slice());
    let t = mac(ka.as_slice(), c.as_slice(), &context_tag());
    (c, t)
}

/// Checks the tag of a ciphertext and, if it is right, decrypts the
/// ciphertext. Nothing is decrypted otherwise.
fn open(keys: &[u8], c: &[u8], t: &[u8]) -> (message: Result<Vec<u8>, CryptoError>)
    requires
        keys.len() == 128,
        8 * c.len() <= usize::MAX,
    ensures
        match message {
            Ok(m) => opened(keys@, c@, t@) == Some(m@),
            Err(e) => e == CryptoError::AuthenticationFailure && opened(keys@, c@, t@) is None,
        },
{
    let ke = sub_bytes(keys, 0, 64);
    let ka = sub_bytes(keys, 64, 128);
    assert(ke@ =~= enc_key(keys@));
    assert(ka@ =~= auth_key(keys@));
    let tag = mac(ka.as_slice(), c, &context_tag());
    if !bytes_equal(tag.as_slice(), t) {
        return Err(CryptoError::AuthenticationFailure);
    }
    let stream = kdf(ke.as_slice(), &context_stream(), c.len());
    Ok(xor_bytes(c, stream.as_slice()))
}

/// Generates the key pair of a password: the private scalar is derived
/// from the password under the context `"key"`, the public point is the
/// private scalar times the generator.
pub fn gen_keypair(pw: &[u8], owner: String, date_created: String) -> (key: KeyObj)
    requires
        pw.len() + 204 <= usize::MAX,
    ensures
        key.wf(),
        key.scalar() == derived_scalar(pw@, ctx_key()),
        key.owner == owner,
        key.date_created == date_created,
{
    let s = derive_scalar(pw, &context_key());
    let g = get_e521_gen_point();
    let v = g.mul_scalar(&s);
    KeyObj { owner, pub_key_x: v.x, pub_key_y: v.y, priv_key: s.to_be_bytes(), date_created }
}

/// Encrypts `message` under a password and the nonce `z`.
pub fn encrypt_with_pw(pw: &[u8], message: &[u8], z: &[u8]) -> (cg: SymmetricCryptogram)
    requires
        z.len() + pw.len() + 203 <= usize::MAX,
        8 * message.len() <= usize::MAX,
    ensures
        cg.z@ == z@,
        (cg.c@, cg.t@) == pw_sealed(z@, pw@, message@),
        cg.c@.len() == message@.len(),
{
    let mut secret: Vec<u8> = Vec::with_capacity(z.len() + pw.len());
    append_bytes(&mut secret, z);
    append_bytes(&mut secret, pw);
    assert(secret@ =~= pw_secret(z@, pw@));
    let keys = kdf(secret.as_slice(), &context_sym(), 128);
    let (c, t) = seal(keys.as_slice(), message);
    let mut nonce: Vec<u8> = Vec::with_capacity(z.len());
    append_bytes(&mut nonce, z);
    assert(nonce@ =~= z@);
    SymmetricCryptogram { z: nonce, c, t }
}

/// Decrypts a cryptogram under a password. The message is returned if and
/// only if the tag of the cryptogram is the tag of its ciphertext.
pub fn decrypt_with_pw(pw: &[u8], cg: &SymmetricCryptogram) -> (message: Result<
    Vec<u8>,
    CryptoError,
>)
    requires
        cg.z@.len() + pw.len() + 203 <= usize::MAX,
        8 * cg.c@.len() <= usize::MAX,
    ensures
        match message {
            Ok(m) => pw_opened(pw@, cg.z@, cg.c@, cg.t@) == Some(m@),
            Err(e) => e == CryptoError::AuthenticationFailure && pw_opened(
                pw@,
                cg.z@,
                cg.c@,
                cg.t@,
            ) is None,
        },
{
    let mut secret: Vec<u8> = Vec::with_capacity(cg.z.len() + pw.len());
    append_bytes(&mut secret, cg.z.as_slice());
    append_bytes(&mut secret, pw);
    assert(secret@ =~= pw_secret(cg.z@, pw@));
    let keys = kdf(secret.as_slice(), &context_sym(), 128);
    open(keys.as_slice(), cg.c.as_slice(), cg.t.as_slice())
}

/// The key material that a shared point gives.
fn point_keys(w: &E521) -> (keys: Vec<u8>)
    ensures
        keys@ == sym_keys(point_secret(w@)),
        keys@.len() == 128,
{
    let secret = w.x.to_be_bytes();
    kdf(secret.as_slice(), &context_sym(), 128)
}

/// Encrypts `message` under a public point. The ephemeral scalar is the
/// number that `k_bytes` denotes, reduced modulo `r`; if that is zero,
/// nothing is encrypted.
pub fn encrypt_with_key(pub_key: &E521, message: &[u8], k_bytes: &[u8]) -> (cg: Result<
    ECCryptogram,
    CryptoError,
>)
    requires
        pub_key.wf(),
        8 * k_bytes.len() <= usize::MAX,
        8 * message.len() <= usize::MAX,
    ensures
        cg is Ok <==> be_value(k_bytes@) % order_r() != 0,
        cg matches Ok(g) ==> ((g.z_x@, g.z_y@), g.c@, g.t@) == ec_sealed(
            be_value(k_bytes@) % order_r(),
            pub_key@,
            message@,
        ) && on_curve((g.z_x@, g.z_y@)) && g.c@.len() == message@.len(),
        cg matches Err(e) ==> e == CryptoError::InvalidScalar,
{
    let r = subgroup_order();
    let k = reduce_bytes(k_bytes, &r);
    if k.is_zero() {
        return Err(CryptoError::InvalidScalar);
    }
    let g = get_e521_gen_point();
    let z = g.mul_scalar(&k);
    let w = pub_key.mul_scalar(&k);
    let keys = point_keys(&w);
    let (c, t) = seal(keys.as_slice(), message);
    Ok(ECCryptogram { z_x: z.x, z_y: z.y, c, t })
}

/// Decrypts a cryptogram under a private scalar.
///
/// The scalar must be valid and the ephemeral point of the cryptogram must
/// be on the curve; then the message is returned if and only if the tag of
/// the cryptogram is the tag of its ciphertext.
pub fn decrypt_with_key(s: &Big, cg: &ECCryptogram) -> (message: Result<Vec<u8>, CryptoError>)
    requires
        8 * cg.c@.len() <= usize::MAX,
    ensures
        match message {
            Ok(m) => valid_scalar(s@) && on_curve((cg.z_x@, cg.z_y@)) && ec_opened(
                s@,
                (cg.z_x@, cg.z_y@),
                cg.c@,
                cg.t@,
            ) == Some(m@),
            Err(CryptoError::InvalidScalar) => !valid_scalar(s@),
            Err(CryptoError::MalformedPoint) => valid_scalar(s@) && !on_curve((cg.z_x@, cg.z_y@)),
            Err(CryptoError::AuthenticationFailure) => valid_scalar(s@) && on_curve(
                (cg.z_x@, cg.z_y@),
            ) && ec_opened(s@, (cg.z_x@, cg.z_y@), cg.c@, cg.t@) is None,
            Err(CryptoError::SignatureInvalid) => false,
        },
{
    let r = subgroup_order();
    if s.is_zero() || !s.less_than(&r) {
        return Err(CryptoError::InvalidScalar);
    }
    match get_e521_point(cg.z_x, cg.z_y) {
        Err(_) => Err(CryptoError::MalformedPoint),
        Ok(z) => {
            let w = z.mul_scalar(s);
            let keys = point_keys(&w);
            open(keys.as_slice(), cg.c.as_slice(), cg.t.as_slice())
        },
    }
}

/// The challenge of a commitment point and a message.
fn compute_challenge(commitment: &E521, message: &[u8]) -> (h: Big)
    requires
        message.len() + 512 <= usize::MAX,
    ensures
        h@ == challenge(commitment@, message@),
{
    let mut input = commitment.x.to_be_bytes();
    let y = commitment.y.to_be_bytes();
    append_bytes(&mut input, y.as_slice());
    append_bytes(&mut input, message);
    let key: Vec<u8> = Vec::new();
    assert(key@ =~= Seq::<u8>::empty());
    let tag = mac(key.as_slice(), input.as_slice(), &context_sig());
    let r = subgroup_order();
    reduce_bytes(tag.as_slice(), &r)
}

/// Signs `message` under a private scalar. The nonce is derived from the
/// scalar and the message.
pub fn sign_with_key(s: &Big, message: &[u8]) -> (sig: Result<Signature, CryptoError>)
    requires
        message.len() + 512 <= usize::MAX,
    ensures
        sig is Ok <==> valid_scalar(s@),
        sig matches Ok(g) ==> (g.h@, g.z@) == signature_of(s@, message@),
        sig matches Err(e) ==> e == CryptoError::InvalidScalar,
{
    let r = subgroup_order();
    if s.is_zero() || !s.less_than(&r) {
        return Err(CryptoError::InvalidScalar);
    }
    let mut seed = s.to_be_bytes();
    append_bytes(&mut seed, message);
    let k = derive_scalar(seed.as_slice(), &context_nonce());
    let g = get_e521_gen_point();
    let commitment = g.mul_scalar(&k);
    let h = compute_challenge(&commitment, message);
    let hs = mul_mod_big(&h, s, &r);
    let z = sub_mod_big(&k, &hs, &r);
    Ok(Signature { h, z })
}

/// Verifies a signature of `message` under a public point: the commitment
/// is recomputed from the signature and the public point, and the signature
/// is accepted if and only if the challenge of that commitment is the
/// challenge of the signature.
pub fn verify_signature(sig: &Signature, pub_key: &E521, message: &[u8]) -> (verdict: Result<
    (),
    CryptoError,
>)
    requires
        pub_key.wf(),
        message.len() + 512 <= usize::MAX,
    ensures
        verdict is Ok <==> signature_accepted(sig.h@, sig.z@, pub_key@, message@),
        verdict matches Err(e) ==> e == CryptoError::SignatureInvalid,
{
    let g = get_e521_gen_point();
    let zg = g.mul_scalar(&sig.z);
    let hv = pub_key.mul_scalar(&sig.h);
    let commitment = zg.add_point(&hv);
    let h = compute_challenge(&commitment, message);
    if h.equals(&sig.h) {
        Ok(())
    } else {
        Err(CryptoError::SignatureInvalid)
    }
}

} // verus!
