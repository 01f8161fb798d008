use cryptotool::big::Big;
use cryptotool::curve::e521::{get_e521_gen_point, get_e521_point};
use cryptotool::curve::params::subgroup_order;
use cryptotool::model::shake_functions::{
    decrypt_with_key, decrypt_with_pw, derive_scalar, encrypt_with_key, encrypt_with_pw,
    gen_keypair, sign_with_key, verify_signature,
};
use cryptotool::CryptoError;
use cryptotool::Signature;
use std::time::Instant;

/// Pseudo-random bytes: a xorshift generator seeded from the clock.
fn get_random_bytes(n: usize) -> Vec<u8> {
    let mut state = std::time::SystemTime::now()
        .duration_since(std::time::UNIX_EPOCH)
        .map(|d| d.as_nanos() as u64)
        .unwrap_or(1)
        | 1;
    let mut out = Vec::with_capacity(n);
    while out.len() < n {
        state ^= state << 13;
        state ^= state >> 7;
        state ^= state << 17;
        for b in state.to_le_bytes() {
            if out.len() < n {
                out.push(b);
            }
        }
    }
    out
}

fn hex(bytes: &[u8]) -> String {
    let mut s = String::new();
    for b in bytes {
        s.push_str(&format!("{:02x}", b));
    }
    s
}

#[test]
pub fn test_sym_enc() {
    let mut total = 0.0;
    let rounds = 10.0;
    for _ in 0..rounds as i32 {
        let pw = get_random_bytes(16);
        let message = Box::new(get_random_bytes(5242880).to_owned());
        let now = Instant::now();
        let cg2 = Box::new(encrypt_with_pw(&pw.clone(), &message, &get_random_bytes(64)));
        let res = decrypt_with_pw(&pw.clone(), &cg2);
        let elapsed = now.elapsed();
        let sec = (elapsed.as_secs() as f64) + (elapsed.subsec_nanos() as f64 / 1000_000_000.0);
        total += sec;
        assert!(res.is_ok());
    }
    println!("Code took: {} seconds", total / rounds);
}

#[test]
fn test_key_gen_enc_dec() {
    let mut total = 0.0;
    let rounds = 10.0;
    for _ in 0..rounds as i32 {
        let pw = get_random_bytes(16);
        let owner = "test key".to_string();
        let message = Box::new(get_random_bytes(5242880).to_owned()); //5mb
        let key_obj = gen_keypair(&pw.clone(), owner, String::new());
        let x = key_obj.pub_key_x;
        let y = key_obj.pub_key_y;
        let pub_key = get_e521_point(x, y).unwrap();
        let now = Instant::now();
        let enc = encrypt_with_key(&pub_key, &message, &get_random_bytes(64)).unwrap();
        let priv_key = Big::from_be_bytes(&key_obj.priv_key).unwrap();
        let res = decrypt_with_key(&priv_key, &enc);
        let elapsed = now.elapsed();
        let sec = (elapsed.as_secs() as f64) + (elapsed.subsec_nanos() as f64 / 1000_000_000.0);
        total += sec;
        assert!(res.is_ok());
    }
    println!("Code took: {} seconds", total / rounds);
}

#[test]
pub fn test_signature() {
    let message = Box::new(get_random_bytes(5242880).to_owned());
    let pw = get_random_bytes(16);
    let key_obj = gen_keypair(&pw.clone(), "test".to_string(), String::new());
    let x = key_obj.pub_key_x;
    let y = key_obj.pub_key_y;
    let key = get_e521_point(x, y).unwrap();
    let priv_key = Big::from_be_bytes(&key_obj.priv_key).unwrap();
    let sig = sign_with_key(&priv_key, &message).unwrap();
    let res = verify_signature(&sig, &key, &message);
    println!("good sig?: {:?}", res);
    assert!(res.is_ok());
}

#[test]
fn key_generation_known_answer() {
    let key = gen_keypair(b"password", "owner".to_string(), "2024-01-01".to_string());
    assert_eq!(key.owner, "owner");
    assert_eq!(key.date_created, "2024-01-01");
    assert_eq!(
        hex(&key.priv_key),
        "0063006ad05df631649868c2c254c7b1caeff6dc4a03130f0e3a386335cf225709eed930263c5c9b17dbd766e1680db593024f244b140da6e994ef044d1315bd7ca1"
    );
    assert_eq!(
        hex(&key.pub_key_x.to_be_bytes()),
        "00dfaa3e2923e5260352424ff03e9c18391e6258c4141389fe074df898bf5af871e93a13ca5cb25ff6b005aec6fa9af71bb09008541b962e950fd29a64d9fc821327"
    );
    assert_eq!(
        hex(&key.pub_key_y.to_be_bytes()),
        "00c15090a36339c3a1997d132f21665b01ccbb059a83d5163568f7959c0a5fe10b44e02b7dab1df33e5a6f2b4ff4dc763cf53c1e8a44b3f9c54dd83e2ecd36c97820"
    );
}

#[test]
fn key_generation_is_deterministic() {
    let a = gen_keypair(b"one password", "a".to_string(), "then".to_string());
    let b = gen_keypair(b"one password", "b".to_string(), "now".to_string());
    let c = gen_keypair(b"another password", "a".to_string(), "then".to_string());
    assert_eq!(a.priv_key, b.priv_key);
    assert!(a.pub_key_x.equals(&b.pub_key_x));
    assert!(a.pub_key_y.equals(&b.pub_key_y));
    assert_ne!(a.priv_key, c.priv_key);
    assert!(!a.pub_key_x.equals(&c.pub_key_x));
    // the public point is the private scalar times the generator
    let s = Big::from_be_bytes(&a.priv_key).unwrap();
    let v = get_e521_gen_point().mul_scalar(&s);
    assert!(v.x.equals(&a.pub_key_x));
    assert!(v.y.equals(&a.pub_key_y));
    assert!(!s.is_zero());
    assert!(s.less_than(&subgroup_order()));
}

#[test]
fn derived_scalars_depend_on_the_context() {
    let a = derive_scalar(b"seed", b"key");
    let b = derive_scalar(b"seed", b"nonce");
    assert!(!a.equals(&b));
    assert!(a.equals(&derive_scalar(b"seed", b"key")));
    assert!(a.less_than(&subgroup_order()));
}

#[test]
fn symmetric_known_answer_and_round_trip() {
    let z: Vec<u8> = (0u8..16).collect();
    let cg = encrypt_with_pw(b"password", b"hello world", &z);
    assert_eq!(cg.z, z);
    assert_eq!(hex(&cg.c), "e81c280a9453b5b7791d1c");
    assert_eq!(
        hex(&cg.t),
        "4c06722f722671aa9fccb6f8e4d24078f9856afabfb59f9b09999d1737e9b54f"
    );
    assert_eq!(decrypt_with_pw(b"password", &cg).unwrap(), b"hello world".to_vec());
    let empty = encrypt_with_pw(b"password", b"", &z);
    assert_eq!(empty.c.len(), 0);
    assert_eq!(decrypt_with_pw(b"password", &empty).unwrap(), Vec::<u8>::new());
}

#[test]
fn symmetric_tampering_is_detected() {
    let z = get_random_bytes(64);
    let message = get_random_bytes(300);
    let cg = encrypt_with_pw(b"pw", &message, &z);
    assert_eq!(cg.c.len(), message.len());
    for i in [0usize, 1, 135, 136, 299] {
        for bit in [0u8, 7] {
            let mut bad = encrypt_with_pw(b"pw", &message, &z);
            bad.c[i] ^= 1 << bit;
            assert_eq!(
                decrypt_with_pw(b"pw", &bad),
                Err(CryptoError::AuthenticationFailure)
            );
        }
    }
    for i in 0..32 {
        let mut bad = encrypt_with_pw(b"pw", &message, &z);
        bad.t[i] ^= 0x10;
        assert_eq!(
            decrypt_with_pw(b"pw", &bad),
            Err(CryptoError::AuthenticationFailure)
        );
    }
    let mut short = encrypt_with_pw(b"pw", &message, &z);
    short.t.pop();
    assert_eq!(
        decrypt_with_pw(b"pw", &short),
        Err(CryptoError::AuthenticationFailure)
    );
    assert_eq!(
        decrypt_with_pw(b"other", &cg),
        Err(CryptoError::AuthenticationFailure)
    );
    let mut other_nonce = encrypt_with_pw(b"pw", &message, &z);
    other_nonce.z[0] ^= 1;
    assert_eq!(
        decrypt_with_pw(b"pw", &other_nonce),
        Err(CryptoError::AuthenticationFailure)
    );
}

#[test]
fn asymmetric_known_answer_and_round_trip() {
    let key = gen_keypair(b"password", String::new(), String::new());
    let public = get_e521_point(key.pub_key_x, key.pub_key_y).unwrap();
    let cg = encrypt_with_key(&public, b"hello world", &[7u8; 32]).unwrap();
    assert_eq!(
        hex(&cg.z_x.to_be_bytes()),
        "00219eb798c05e9807dbdb4146a899499e081269ac1676a25b632607014240de6ad17de605613abb67069fcd83a7c6e9b9b522454361bac1cf2ad34b3a670c5112e7"
    );
    assert_eq!(
        hex(&cg.z_y.to_be_bytes()),
        "012fb69754b09ea3e6fb8b2a2ca3103c73818ff89f2842092523c4f702f317d47d8a1d69e66a70090c9a990c90899e0cc21afc7d51a4aaa4852e06f7db3c9dac48d6"
    );
    assert_eq!(hex(&cg.c), "643142d428c64b0c0463ef");
    assert_eq!(
        hex(&cg.t),
        "374f5a381950c9e04bb860b114f6bc465a56f4882ac0027d896e8c94130b1501"
    );
    let s = Big::from_be_bytes(&key.priv_key).unwrap();
    assert_eq!(decrypt_with_key(&s, &cg).unwrap(), b"hello world".to_vec());
}

#[test]
fn asymmetric_errors() {
    let key = gen_keypair(b"password", String::new(), String::new());
    let public = get_e521_point(key.pub_key_x, key.pub_key_y).unwrap();
    let s = Big::from_be_bytes(&key.priv_key).unwrap();
    // an ephemeral scalar that reduces to zero
    assert!(matches!(
        encrypt_with_key(&public, b"m", &[0u8; 8]),
        Err(CryptoError::InvalidScalar)
    ));
    assert!(matches!(
        encrypt_with_key(&public, b"m", &subgroup_order().to_be_bytes()),
        Err(CryptoError::InvalidScalar)
    ));
    assert!(matches!(
        encrypt_with_key(&public, b"m", &[]),
        Err(CryptoError::InvalidScalar)
    ));
    let cg = encrypt_with_key(&public, b"some message", &[9u8; 64]).unwrap();
    assert_eq!(
        decrypt_with_key(&Big::zero(), &cg),
        Err(CryptoError::InvalidScalar)
    );
    assert_eq!(
        decrypt_with_key(&subgroup_order(), &cg),
        Err(CryptoError::InvalidScalar)
    );
    let mut off_curve = encrypt_with_key(&public, b"some message", &[9u8; 64]).unwrap();
    off_curve.z_y = Big::from_u64(13);
    assert_eq!(
        decrypt_with_key(&s, &off_curve),
        Err(CryptoError::MalformedPoint)
    );
    let mut bad_tag = encrypt_with_key(&public, b"some message", &[9u8; 64]).unwrap();
    bad_tag.t[31] ^= 1;
    assert_eq!(
        decrypt_with_key(&s, &bad_tag),
        Err(CryptoError::AuthenticationFailure)
    );
    let mut bad_text = encrypt_with_key(&public, b"some message", &[9u8; 64]).unwrap();
    bad_text.c[0] ^= 0x80;
    assert_eq!(
        decrypt_with_key(&s, &bad_text),
        Err(CryptoError::AuthenticationFailure)
    );
    let other = Big::from_u64(12345);
    assert_eq!(
        decrypt_with_key(&other, &cg),
        Err(CryptoError::AuthenticationFailure)
    );
}

#[test]
fn signature_known_answer() {
    let key = gen_keypair(b"password", String::new(), String::new());
    let s = Big::from_be_bytes(&key.priv_key).unwrap();
    let sig = sign_with_key(&s, b"hello world").unwrap();
    assert_eq!(
        hex(&sig.h.to_be_bytes()),
        "0000000000000000000000000000000000000000000000000000000000000000000052d6864353a6ef0bb3449135c875155ad14b66feaa826cbfa94edbdb5ba562af"
    );
    assert_eq!(
        hex(&sig.z.to_be_bytes()),
        "007727d84236311a9539f1eb5b0a272d41ab927e508d1a8772bb793a962de858ba0efa90fc07eb2131795fe704ce85aae683aa049cd24cb011b013cde5b937c557e4"
    );
    let public = get_e521_point(key.pub_key_x, key.pub_key_y).unwrap();
    assert_eq!(verify_signature(&sig, &public, b"hello world"), Ok(()));
}

#[test]
fn signature_errors() {
    let key = gen_keypair(b"password", String::new(), String::new());
    let s = Big::from_be_bytes(&key.priv_key).unwrap();
    let public = get_e521_point(key.pub_key_x, key.pub_key_y).unwrap();
    let sig = sign_with_key(&s, b"hello world").unwrap();
    assert_eq!(
        verify_signature(&sig, &public, b"hello world!"),
        Err(CryptoError::SignatureInvalid)
    );
    let other = gen_keypair(b"another", String::new(), String::new());
    let other_public = get_e521_point(other.pub_key_x, other.pub_key_y).unwrap();
    assert_eq!(
        verify_signature(&sig, &other_public, b"hello world"),
        Err(CryptoError::SignatureInvalid)
    );
    let forged = Signature { h: sig.h, z: Big::from_u64(1) };
    assert_eq!(
        verify_signature(&forged, &public, b"hello world"),
        Err(CryptoError::SignatureInvalid)
    );
    let swapped = Signature { h: sig.z, z: sig.h };
    assert_eq!(
        verify_signature(&swapped, &public, b"hello world"),
        Err(CryptoError::SignatureInvalid)
    );
    assert!(matches!(
        sign_with_key(&Big::zero(), b"m"),
        Err(CryptoError::InvalidScalar)
    ));
    assert!(matches!(
        sign_with_key(&subgroup_order(), b"m"),
        Err(CryptoError::InvalidScalar)
    ));
    // signing is deterministic
    let again = sign_with_key(&s, b"hello world").unwrap();
    assert!(again.h.equals(&sig.h) && again.z.equals(&sig.z));
}
