//! The Keccak-f[1600] permutation of FIPS 202.
//!
//! A state is 25 lanes of 64 bits. Lane `(x, y)` of the 5×5 grid is stored at
//! index `x + 5 * y`. The permutation is 24 rounds, each the composition of
//! the step mappings theta, rho, pi, chi and iota.
use vstd::prelude::*;

verus! {

/// Number of lanes in a state.
pub const LANES: usize = 25;

/// Number of rounds of Keccak-f[1600].
pub const ROUNDS: usize = 24;

/// A sequence is a permutation state when it has exactly 25 lanes.
pub open spec fn is_state(s: Seq<u64>) -> bool {
    s.len() == 25
}

/// Lane `(x, y)` of a state, coordinates taken modulo 5.
pub open spec fn lane(s: Seq<u64>, x: int, y: int) -> u64 {
    s[(x % 5) + 5 * (y % 5)]
}

/// Rotation of a 64-bit lane to the left by `n` bits, `0 <= n < 64`.
pub open spec fn rotl64(v: u64, n: u64) -> u64 {
    if n == 0 {
        v
    } else {
        (v << n) | (v >> ((64 - n) as u64))
    }
}

/// The rotation offset of rho for the lane at index `i`, reduced modulo 64.
pub open spec fn rho_offset(i: int) -> u64 {
    if i == 0 { 0 }
    else if i == 1 { 1 }
    else if i == 2 { 62 }
    else if i == 3 { 28 }
    else if i == 4 { 27 }
    else if i == 5 { 36 }
    else if i == 6 { 44 }
    else if i == 7 { 6 }
    else if i == 8 { 55 }
    else if i == 9 { 20 }
    else if i == 10 { 3 }
    else if i == 11 { 10 }
    else if i == 12 { 43 }
    else if i == 13 { 25 }
    else if i == 14 { 39 }
    else if i == 15 { 41 }
    else if i == 16 { 45 }
    else if i == 17 { 15 }
    else if i == 18 { 21 }
    else if i == 19 { 8 }
    else if i == 20 { 18 }
    else if i == 21 { 2 }
    else if i == 22 { 61 }
    else if i == 23 { 56 }
    else { 14 }
}

/// The constant that iota mixes into lane `(0, 0)` in round `r`.
pub open spec fn round_constant(r: int) -> u64 {
    if r == 0 { 0x0000000000000001 }
    else if r == 1 { 0x0000000000008082 }
    else if r == 2 { 0x800000000000808A }
    else if r == 3 { 0x8000000080008000 }
    else if r == 4 { 0x000000000000808B }
    else if r == 5 { 0x0000000080000001 }
    else if r == 6 { 0x8000000080008081 }
    else if r == 7 { 0x8000000000008009 }
    else if r == 8 { 0x000000000000008A }
    else if r == 9 { 0x0000000000000088 }
    else if r == 10 { 0x0000000080008009 }
    else if r == 11 { 0x000000008000000A }
    else if r == 12 { 0x000000008000808B }
    else if r == 13 { 0x800000000000008B }
    else if r == 14 { 0x8000000000008089 }
    else if r == 15 { 0x8000000000008003 }
    else if r == 16 { 0x8000000000008002 }
    else if r == 17 { 0x8000000000000080 }
    else if r == 18 { 0x000000000000800A }
    else if r == 19 { 0x800000008000000A }
    else if r == 20 { 0x8000000080008081 }
    else if r == 21 { 0x8000000000008080 }
    else if r == 22 { 0x0000000080000001 }
    else { 0x8000000080008008 }
}

/// Parity of column `x`: the XOR of its five lanes.
pub open spec fn column_parity(s: Seq<u64>, x: int) -> u64 {
    lane(s, x, 0) ^ lane(s, x, 1) ^ lane(s, x, 2) ^ lane(s, x, 3) ^ lane(s, x, 4)
}

/// What theta adds to every lane of column `x`: the parity of the column to
/// the left, and the parity of the column to the right rotated by one bit.
pub open spec fn theta_effect(s: Seq<u64>, x: int) -> u64 {
    column_parity(s, x + 4) ^ rotl64(column_parity(s, x + 1), 1)
}

/// Step mapping theta.
pub open spec fn theta(s: Seq<u64>) -> Seq<u64> {
    Seq::new(25, |i: int| s[i] ^ theta_effect(s, i % 5))
}

/// Step mapping rho: every lane is rotated by its own offset.
pub open spec fn rho(s: Seq<u64>) -> Seq<u64> {
    Seq::new(25, |i: int| rotl64(s[i], rho_offset(i)))
}

/// Step mapping pi: lane `(x, y)` moves to `(y, 2x + 3y)`, so the lane that
/// arrives at `(x, y)` comes from `(x + 3y, x)`.
pub open spec fn pi(s: Seq<u64>) -> Seq<u64> {
    Seq::new(25, |i: int| lane(s, i % 5 + 3 * (i / 5), i % 5))
}

/// Step mapping chi: each lane is combined with the next two lanes of its row.
pub open spec fn chi(s: Seq<u64>) -> Seq<u64> {
    Seq::new(
        25,
        |i: int| s[i] ^ (!lane(s, i % 5 + 1, i / 5) & lane(s, i % 5 + 2, i / 5)),
    )
}

/// Step mapping iota for round `r`.
pub open spec fn iota(s: Seq<u64>, r: int) -> Seq<u64> {
    s.update(0, s[0] ^ round_constant(r))
}

/// One round of the permutation.
pub open spec fn keccak_round(s: Seq<u64>, r: int) -> Seq<u64> {
    iota(chi(pi(rho(theta(s)))), r)
}

/// The state after the first `n` rounds.
pub open spec fn keccak_rounds(s: Seq<u64>, n: nat) -> Seq<u64>
    decreases n,
{
    if n == 0 {
        s
    } else {
        keccak_round(keccak_rounds(s, (n - 1) as nat), n - 1)
    }
}

/// The permutation Keccak-f[1600].
pub open spec fn keccak_f(s: Seq<u64>) -> Seq<u64> {
    keccak_rounds(s, 24)
}

/// The permutation applied `n` times in a row.
pub open spec fn keccak_f_iter(s: Seq<u64>, n: nat) -> Seq<u64>
    decreases n,
{
    if n == 0 {
        s
    } else {
        keccak_f(keccak_f_iter(s, (n - 1) as nat))
    }
}

/// Every round maps states to states.
pub proof fn lemma_round_is_state(s: Seq<u64>, r: int)
    requires
        is_state(s),
    ensures
        is_state(keccak_round(s, r)),
{
}

/// Any number of rounds maps states to states.
pub proof fn lemma_rounds_is_state(s: Seq<u64>, n: nat)
    requires
        is_state(s),
    ensures
        is_state(keccak_rounds(s, n)),
    decreases n,
{
    if n > 0 {
        lemma_rounds_is_state(s, (n - 1) as nat);
    }
}

/// The permutation maps states to states.
pub proof fn lemma_keccak_f_is_state(s: Seq<u64>)
    requires
        is_state(s),
    ensures
        is_state(keccak_f(s)),
{
    lemma_rounds_is_state(s, 24);
}

/// The permutation is a function of the state alone: equal inputs give equal
/// outputs.
pub proof fn lemma_permutation_deterministic(a: Seq<u64>, b: Seq<u64>)
    requires
        is_state(a),
        a =~= b,
    ensures
        keccak_f(a) == keccak_f(b),
        is_state(keccak_f(a)),
{
    lemma_keccak_f_is_state(a);
}

/// Rotates `v` to the left by `n` bits.
pub fn rotl(v: u64, n: u64) -> (r: u64)
    requires
        n < 64,
    ensures
        r == rotl64(v, n),
{
    if n == 0 {
        v
    } else {
        (v << n) | (v >> (64 - n))
    }
}

/// The round constant of round `r`.
pub fn iota_constant(r: usize) -> (rc: u64)
    requires
        r < 24,
    ensures
        rc == round_constant(r as int),
{
    if r == 0 { 0x0000000000000001 }
    else if r == 1 { 0x0000000000008082 }
    else if r == 2 { 0x800000000000808A }
    else if r == 3 { 0x8000000080008000 }
    else if r == 4 { 0x000000000000808B }
    else if r == 5 { 0x0000000080000001 }
    else if r == 6 { 0x8000000080008081 }
    else if r == 7 { 0x8000000000008009 }
    else if r == 8 { 0x000000000000008A }
    else if r == 9 { 0x0000000000000088 }
    else if r == 10 { 0x0000000080008009 }
    else if r == 11 { 0x000000008000000A }
    else if r == 12 { 0x000000008000808B }
    else if r == 13 { 0x800000000000008B }
    else if r == 14 { 0x8000000000008089 }
    else if r == 15 { 0x8000000000008003 }
    else if r == 16 { 0x8000000000008002 }
    else if r == 17 { 0x8000000000000080 }
    else if r == 18 { 0x000000000000800A }
    else if r == 19 { 0x800000008000000A }
    else if r == 20 { 0x8000000080008081 }
    else if r == 21 { 0x8000000000008080 }
    else if r == 22 { 0x0000000080000001 }
    else { 0x8000000080008008 }
}

/// Theta, in place.
pub fn theta_step(a: &mut [u64; 25])
    ensures
        final(a)@ == theta(old(a)@),
{
    let c0 = a[0] ^ a[5] ^ a[10] ^ a[15] ^ a[20];
    let c1 = a[1] ^ a[6] ^ a[11] ^ a[16] ^ a[21];
    let c2 = a[2] ^ a[7] ^ a[12] ^ a[17] ^ a[22];
    let c3 = a[3] ^ a[8] ^ a[13] ^ a[18] ^ a[23];
    let c4 = a[4] ^ a[9] ^ a[14] ^ a[19] ^ a[24];
    let d0 = c4 ^ rotl(c1, 1);
    let d1 = c0 ^ rotl(c2, 1);
    let d2 = c1 ^ rotl(c3, 1);
    let d3 = c2 ^ rotl(c4, 1);
    let d4 = c3 ^ rotl(c0, 1);
    let ghost before = a@;
    assert(d0 == theta_effect(before, 0));
    assert(d1 == theta_effect(before, 1));
    assert(d2 == theta_effect(before, 2));
    assert(d3 == theta_effect(before, 3));
    assert(d4 == theta_effect(before, 4));
    let mut y: usize = 0;
    while y < 5
        invariant
            y <= 5,
            d0 == theta_effect(before, 0),
            d1 == theta_effect(before, 1),
            d2 == theta_effect(before, 2),
            d3 == theta_effect(before, 3),
            d4 == theta_effect(before, 4),
            before.len() == 25,
            forall|i: int| 0 <= i < 5 * y ==> a@[i] == before[i] ^ theta_effect(before, i % 5),
            forall|i: int| 5 * y <= i < 25 ==> a@[i] == before[i],
        decreases 5 - y,
    {
        let base = 5 * y;
        a[base] = a[base] ^ d0;
        a[base + 1] = a[base + 1] ^ d1;
        a[base + 2] = a[base + 2] ^ d2;
        a[base + 3] = a[base + 3] ^ d3;
        a[base + 4] = a[base + 4] ^ d4;
        y = y + 1;
    }
    assert(a@ =~= theta(before));
}

/// Rho followed by pi, in place.
pub fn rho_pi_step(a: &mut [u64; 25])
    ensures
        final(a)@ == pi(rho(old(a)@)),
{
    let ghost before = a@;
    let b0 = rotl(a[0], 0);
    let b1 = rotl(a[6], 44);
    let b2 = rotl(a[12], 43);
    let b3 = rotl(a[18], 21);
    let b4 = rotl(a[24], 14);
    let b5 = rotl(a[3], 28);
    let b6 = rotl(a[9], 20);
    let b7 = rotl(a[10], 3);
    let b8 = rotl(a[16], 45);
    let b9 = rotl(a[22], 61);
    let b10 = rotl(a[1], 1);
    let b11 = rotl(a[7], 6);
    let b12 = rotl(a[13], 25);
    let b13 = rotl(a[19], 8);
    let b14 = rotl(a[20], 18);
    let b15 = rotl(a[4], 27);
    let b16 = rotl(a[5], 36);
    let b17 = rotl(a[11], 10);
    let b18 = rotl(a[17], 15);
    let b19 = rotl(a[23], 56);
    let b20 = rotl(a[2], 62);
    let b21 = rotl(a[8], 55);
    let b22 = rotl(a[14], 39);
    let b23 = rotl(a[15], 41);
    let b24 = rotl(a[21], 2);
    *a = [
        b0, b1, b2, b3, b4, b5, b6, b7, b8, b9, b10, b11, b12, b13, b14, b15, b16, b17, b18,
        b19, b20, b21, b22, b23, b24,
    ];
    assert(a@ =~= pi(rho(before)));
}

/// Chi, in place.
pub fn chi_step(a: &mut [u64; 25])
    ensures
        final(a)@ == chi(old(a)@),
{
    let ghost before = a@;
    let mut y: usize = 0;
    while y < 5
        invariant
            y <= 5,
            before.len() == 25,
            forall|i: int| 0 <= i < 5 * y ==> a@[i] == chi(before)[i],
            forall|i: int| 5 * y <= i < 25 ==> a@[i] == before[i],
        decreases 5 - y,
    {
        let base = 5 * y;
        let r0 = a[base];
        let r1 = a[base + 1];
        let r2 = a[base + 2];
        let r3 = a[base + 3];
        let r4 = a[base + 4];
        a[base] = r0 ^ (!r1 & r2);
        a[base + 1] = r1 ^ (!r2 & r3);
        a[base + 2] = r2 ^ (!r3 & r4);
        a[base + 3] = r3 ^ (!r4 & r0);
        a[base + 4] = r4 ^ (!r0 & r1);
        y = y + 1;
    }
    assert(a@ =~= chi(before));
}

/// One round, in place.
pub fn round_step(a: &mut [u64; 25], r: usize)
    requires
        r < 24,
    ensures
        final(a)@ == keccak_round(old(a)@, r as int),
{
    theta_step(a);
    rho_pi_step(a);
    chi_step(a);
    a[0] = a[0] ^ iota_constant(r);
    assert(a@ =~= keccak_round(old(a)@, r as int));
}

/// Applies Keccak-f[1600] to the state, in place.
pub fn keccakf_1600(state: &mut [u64; 25])
    ensures
        final(state)@ == keccak_f(old(state)@),
{
    let mut r: usize = 0;
    while r < 24
        invariant
            r <= 24,
            state@ == keccak_rounds(old(state)@, r as nat),
        decreases 24 - r,
    {
        round_step(state, r);
        r = r + 1;
    }
}

} // verus!
