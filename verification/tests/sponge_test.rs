use cryptotool::sha3::aux_functions::{append_bytes, bytes_equal, xor_bytes};
use cryptotool::sha3::keccakf::{keccakf_1600, rotl};
use cryptotool::sha3::sponge::{
    absorb_with_suffix, bytes_to_lane, bytes_to_states, pad_ten_one, pad_with_suffix, read_lane,
    sponge_absorb, sponge_squeeze, state_to_byte_array, u64_to_little_endian_bytes, xor_states,
};
use cryptotool::sha3::xof::{hash, kdf, mac};

fn hex(bytes: &[u8]) -> String {
    let mut s = String::new();
    for b in bytes {
        s.push_str(&format!("{:02x}", b));
    }
    s
}

#[test]
fn keccak_256_of_empty_input() {
    let mut state = sponge_absorb(&[], 512);
    let digest = sponge_squeeze(&mut state, 256, 1088);
    assert_eq!(
        hex(&digest),
        "c5d2460186f7233c927e7db2dcc703c0e500b653ca82273b7bfad8045d85a470"
    );
}

#[test]
fn sha3_256_of_empty_input() {
    let mut state = absorb_with_suffix(&[], 136, 0x06);
    let digest = sponge_squeeze(&mut state, 256, 1088);
    assert_eq!(
        hex(&digest),
        "a7ffc6f8bf1ed76651c14756a061d662f580ff4de43b49fa82d80a4b80f8434a"
    );
    assert_eq!(hex(&hash(&[])), hex(&digest));
}

#[test]
fn sha3_256_of_abc() {
    assert_eq!(
        hex(&hash(b"abc")),
        "3a985da74fe225b2045c172d6bd390bd855f086e3e9d525b46bfe24511431532"
    );
}

#[test]
fn sha3_256_at_the_block_boundary() {
    assert_eq!(
        hex(&hash(&[0u8; 136])),
        "e772c9cf9eb9c991cdfcf125001b454fdbc0a95f188d1b4c844aa032ad6e075e"
    );
    assert_eq!(
        hex(&hash(&[0u8; 135])),
        "7d080d7ba978a75c8a7d1f9be566c859084509c9c2b4928435c225d5777d98e3"
    );
}

#[test]
fn shake_128_through_the_sponge() {
    let mut state = absorb_with_suffix(b"abc", 168, 0x1f);
    let out = sponge_squeeze(&mut state, 256, 1344);
    assert_eq!(
        hex(&out),
        "5881092dd818bf5cf8a3ddb793fbcba74097d5c526a6d35f97b83351940f2cc8"
    );
}

#[test]
fn shake_256_squeezed_over_several_blocks() {
    // 64 bytes of SHAKE256 of the empty string, then a longer output whose
    // first block must agree with it.
    let mut state = absorb_with_suffix(&[], 136, 0x1f);
    let short = sponge_squeeze(&mut state, 512, 1088);
    assert_eq!(
        hex(&short),
        "46b9dd2b0ba88d13233b3feb743eeb243fcd52ea62b81b82b50c27646ed5762fd75dc4ddd8c0f200cb05019d67b592f6fc821c49479ab48640292eacb3b7c4be"
    );
    let mut state = absorb_with_suffix(&[], 136, 0x1f);
    let long = sponge_squeeze(&mut state, 8 * 300, 1088);
    assert_eq!(long.len(), 300);
    assert_eq!(&long[..64], &short[..]);
}

#[test]
fn kdf_and_mac_known_answers() {
    assert_eq!(
        hex(&kdf(b"km", b"ctx", 40)),
        "48ad2e0881bd66fcf85046247c104bd31f26de51650d1af37aba76f9d58d824f4fe52f3bf818aaa8"
    );
    assert_eq!(
        hex(&mac(b"k", b"m", b"c")),
        "ed2e7584e3aacf80645d3830c0902a015e7cd4df7379ea892c9ea145f24c0439"
    );
    assert_eq!(kdf(b"km", b"ctx", 0).len(), 0);
}

#[test]
fn permutation_of_zero_state() {
    let mut state = [0u64; 25];
    keccakf_1600(&mut state);
    assert_eq!(state[0], 0xF1258F7940E1DDE7);
    assert_eq!(state[1], 0x84D5CCF933C0478A);
    assert_eq!(state[24], 0xEAF1FF7B5CECA249);
}

#[test]
fn permutation_is_deterministic() {
    let mut a = [0u64; 25];
    for i in 0..25 {
        a[i] = 0x0123456789abcdefu64.wrapping_mul(i as u64 + 1);
    }
    let mut b = a;
    keccakf_1600(&mut a);
    keccakf_1600(&mut b);
    assert_eq!(a, b);
}

#[test]
fn rotation_of_a_lane() {
    assert_eq!(rotl(0x8000000000000001, 1), 0x0000000000000003);
    assert_eq!(rotl(0x0123456789abcdef, 0), 0x0123456789abcdef);
    assert_eq!(rotl(1, 63), 0x8000000000000000);
}

#[test]
fn squeeze_returns_the_length_asked_for() {
    for bits in [0usize, 8, 64, 256, 1088, 1096, 4096] {
        let mut state = sponge_absorb(b"message", 512);
        assert_eq!(sponge_squeeze(&mut state, bits, 1088).len() * 8, bits);
    }
    let mut state = sponge_absorb(b"message", 512);
    assert_eq!(sponge_squeeze(&mut state, 13, 1088).len(), 1);
}

#[test]
fn squeeze_permutes_once_per_block() {
    let mut state = sponge_absorb(b"message", 512);
    let mut expected = state;
    let out = sponge_squeeze(&mut state, 1096, 1088);
    let first = state_to_byte_array(&expected);
    keccakf_1600(&mut expected);
    let second = state_to_byte_array(&expected);
    keccakf_1600(&mut expected);
    assert_eq!(state, expected);
    assert_eq!(&out[..136], &first[..136]);
    assert_eq!(out[136], second[0]);
    let mut untouched = sponge_absorb(b"message", 512);
    let before = untouched;
    assert_eq!(sponge_squeeze(&mut untouched, 0, 1088).len(), 0);
    assert_eq!(untouched, before);
}

#[test]
fn aligned_message_gets_a_full_padding_block() {
    let m = [0x5au8; 136];
    let padded = pad_ten_one(&m, 136);
    assert_eq!(padded.len(), 272);
    assert_eq!(&padded[..136], &m[..]);
    assert_eq!(padded[136], 0x01);
    assert!(padded[137..271].iter().all(|b| *b == 0));
    assert_eq!(padded[271], 0x80);
    // the state after the message block alone differs from the state after
    // message block and padding block
    let blocks = bytes_to_states(&m, 136);
    let mut only = xor_states(&[0u64; 25], &blocks[0]);
    keccakf_1600(&mut only);
    let full = sponge_absorb(&m, 512);
    assert_ne!(only, full);
    let pad_blocks = bytes_to_states(&padded, 136);
    assert_eq!(pad_blocks.len(), 2);
    let mut next = xor_states(&only, &pad_blocks[1]);
    keccakf_1600(&mut next);
    assert_eq!(next, full);
}

#[test]
fn padding_of_short_messages() {
    assert_eq!(pad_ten_one(&[], 4), vec![0x01, 0, 0, 0x80]);
    assert_eq!(pad_ten_one(&[9, 9, 9], 4), vec![9, 9, 9, 0x81]);
    assert_eq!(pad_ten_one(&[9, 9], 4), vec![9, 9, 0x01, 0x80]);
    assert_eq!(pad_with_suffix(&[9, 9, 9], 4, 0x06), vec![9, 9, 9, 0x86]);
    assert_eq!(pad_with_suffix(&[9], 4, 0x1f), vec![9, 0x1f, 0, 0x80]);
    assert_eq!(pad_ten_one(&[7], 1), vec![7, 0x81]);
}

#[test]
fn sponge_with_a_rate_that_is_no_multiple_of_eight_bytes() {
    // rate of 12 bytes: the second lane of every block holds four bytes
    let blocks = bytes_to_states(&[1, 2, 3, 4, 5, 6, 7, 8, 9, 10, 11, 12, 13], 12);
    assert_eq!(blocks.len(), 1);
    assert_eq!(blocks[0][0], 0x0807060504030201);
    assert_eq!(blocks[0][1], 0x0c0b0a09);
    assert_eq!(blocks[0][2], 0);
    let state = sponge_absorb(b"abc", 1600 - 96);
    let mut expected = xor_states(&[0u64; 25], &bytes_to_states(&pad_ten_one(b"abc", 12), 12)[0]);
    keccakf_1600(&mut expected);
    assert_eq!(state, expected);
    let mut s = state;
    assert_eq!(sponge_squeeze(&mut s, 8 * 30, 96).len(), 30);
}

#[test]
fn little_endian_bytes_of_a_lane() {
    assert_eq!(
        u64_to_little_endian_bytes(&0x0102030405060708),
        vec![8, 7, 6, 5, 4, 3, 2, 1]
    );
    assert_eq!(
        state_to_byte_array(&[0x0102030405060708, 0xff]),
        vec![8, 7, 6, 5, 4, 3, 2, 1, 0xff, 0, 0, 0, 0, 0, 0, 0]
    );
    assert_eq!(state_to_byte_array(&[]), Vec::<u8>::new());
}

#[test]
fn lanes_from_bytes() {
    let bytes = [0, 8, 7, 6, 5, 4, 3, 2, 1, 0xaa];
    assert_eq!(bytes_to_lane(&bytes, 1), 0x0102030405060708);
    assert_eq!(read_lane(&bytes, 1, 3), 0x060708);
    assert_eq!(read_lane(&bytes, 9, 1), 0xaa);
    assert_eq!(read_lane(&bytes, 4, 0), 0);
    let lane = 0xdeadbeef01234567u64;
    assert_eq!(bytes_to_lane(&u64_to_little_endian_bytes(&lane), 0), lane);
}

#[test]
fn xor_of_states() {
    let mut a = [0u64; 25];
    let mut b = [0u64; 25];
    a[3] = 0xf0f0;
    b[3] = 0x0ff0;
    b[24] = 1;
    let x = xor_states(&a, &b);
    assert_eq!(x[3], 0xff00);
    assert_eq!(x[24], 1);
    assert_eq!(x[0], 0);
}

#[test]
fn byte_string_helpers() {
    assert_eq!(xor_bytes(&[1, 2, 3], &[1, 1, 1, 1]), vec![0, 3, 2]);
    assert_eq!(xor_bytes(&xor_bytes(&[1, 2, 3], &[9, 8, 7]), &[9, 8, 7]), vec![1, 2, 3]);
    let mut v = vec![1u8];
    append_bytes(&mut v, &[2, 3]);
    assert_eq!(v, vec![1, 2, 3]);
    assert!(bytes_equal(&[1, 2], &[1, 2]));
    assert!(!bytes_equal(&[1, 2], &[1, 3]));
    assert!(!bytes_equal(&[1, 2], &[1, 2, 0]));
}
