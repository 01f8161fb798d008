//! The sponge construction over Keccak-f[1600].
//!
//! A message is padded to a whole number of blocks of `rate` bytes, each
//! block is XORed into the first `rate` bytes of the state and the state is
//! permuted. Output is read from the first `rate` bytes of the state, with a
//! permutation after every block read. Lanes are little-endian.
use crate::sha3::keccakf::{is_state, keccak_f, keccakf_1600, lemma_keccak_f_is_state};
use vstd::prelude::*;

verus! {

/// Width of the permutation state in bits.
pub const STATE_BITS: usize = 1600;

/// Width of the permutation state in bytes.
pub const STATE_BYTES: usize = 200;

/// The suffix byte of plain multi-rate padding: no domain bits, then the
/// first bit of pad10*1.
pub const PLAIN_SUFFIX: u8 = 0x01;

/// Byte `i` of a lane, least significant byte first.
pub open spec fn lane_byte(v: u64, i: int) -> u8 {
    (v >> ((8 * i) as u64)) as u8
}

/// The eight bytes of a lane, least significant first.
pub open spec fn lane_to_bytes(v: u64) -> Seq<u8> {
    Seq::new(8, |i: int| lane_byte(v, i))
}

/// The bytes of a sequence of lanes, lane after lane.
pub open spec fn lanes_to_bytes(lanes: Seq<u64>) -> Seq<u8> {
    Seq::new(8 * lanes.len(), |k: int| lane_byte(lanes[k / 8], k % 8))
}

/// The lane whose `width` lowest bytes are `bytes[at], bytes[at + 1], ...`,
/// least significant first, and whose other bytes are zero.
pub open spec fn lane_at(bytes: Seq<u8>, at: int, width: nat) -> u64
    decreases width,
{
    if width == 0 {
        0
    } else {
        lane_at(bytes, at, (width - 1) as nat) | ((bytes[at + width - 1] as u64) << ((8 * (width
            - 1)) as u64))
    }
}

/// How many bytes of a block of `rate` bytes fall into lane `j`.
pub open spec fn lane_width(rate: nat, j: int) -> nat {
    if 8 * j >= rate {
        0
    } else if rate - 8 * j >= 8 {
        8
    } else {
        (rate - 8 * j) as nat
    }
}

/// The block of `rate` bytes that starts at `data[start]`, extended with
/// zeros to a full state.
pub open spec fn block_state(data: Seq<u8>, start: int, rate: nat) -> Seq<u64> {
    Seq::new(25, |j: int| lane_at(data, start + 8 * j, lane_width(rate, j)))
}

/// Lane-wise XOR of two states.
pub open spec fn xor_lanes(a: Seq<u64>, b: Seq<u64>) -> Seq<u64> {
    Seq::new(25, |j: int| a[j] ^ b[j])
}

/// The all-zero state.
pub open spec fn zero_state() -> Seq<u64> {
    Seq::new(25, |j: int| 0u64)
}

/// Number of bytes that padding appends to a message of `len` bytes: at
/// least one, at most `rate`, and such that the total is a multiple of `rate`.
pub open spec fn pad_len(len: nat, rate: nat) -> nat {
    (rate - len % rate) as nat
}

/// The padding for a message of `len` bytes: the suffix byte (domain bits and
/// the first bit of pad10*1), zero bytes, and the final bit of pad10*1 in the
/// top bit of the last byte.
pub open spec fn padding(len: nat, rate: nat, suffix: u8) -> Seq<u8> {
    let q = pad_len(len, rate);
    Seq::new(
        q,
        |i: int|
            if q == 1 {
                suffix | 0x80
            } else if i == 0 {
                suffix
            } else if i == q - 1 {
                0x80u8
            } else {
                0u8
            },
    )
}

/// The message followed by its padding.
pub open spec fn pad_message(m: Seq<u8>, rate: nat, suffix: u8) -> Seq<u8> {
    m + padding(m.len(), rate, suffix)
}

/// The state reached from `state` by absorbing, block by block, the bytes of
/// `data` from position `at` on. A trailing part shorter than a block is
/// ignored.
pub open spec fn absorb_from(state: Seq<u64>, data: Seq<u8>, at: int, rate: nat) -> Seq<u64>
    decreases data.len() - at,
{
    if rate == 0 || at < 0 || at + rate > data.len() {
        state
    } else {
        absorb_from(
            keccak_f(xor_lanes(state, block_state(data, at, rate))),
            data,
            at + rate,
            rate,
        )
    }
}

/// The state after absorbing the padded message into the zero state.
pub open spec fn sponge_absorbed(m: Seq<u8>, rate: nat, suffix: u8) -> Seq<u64> {
    absorb_from(zero_state(), pad_message(m, rate, suffix), 0, rate)
}

/// The rate in bytes that belongs to a capacity in bits.
pub open spec fn rate_of_capacity(capacity: int) -> nat {
    ((1600 - capacity) / 8) as nat
}

/// The blocks read from the state until at least `want` bytes are there:
/// the first `rate` bytes of the state, then those of the permuted state,
/// and so on.
pub open spec fn squeeze_stream(state: Seq<u64>, rate: nat, want: nat) -> Seq<u8>
    decreases want,
{
    if want == 0 || rate == 0 {
        Seq::empty()
    } else if want <= rate {
        lanes_to_bytes(state).take(rate as int)
    } else {
        lanes_to_bytes(state).take(rate as int) + squeeze_stream(
            keccak_f(state),
            rate,
            (want - rate) as nat,
        )
    }
}

/// The state that squeezing `want` bytes leaves behind: one permutation for
/// every block read.
pub open spec fn squeeze_state(state: Seq<u64>, rate: nat, want: nat) -> Seq<u64>
    decreases want,
{
    if want == 0 || rate == 0 {
        state
    } else if want <= rate {
        keccak_f(state)
    } else {
        squeeze_state(keccak_f(state), rate, (want - rate) as nat)
    }
}

/// Number of whole bytes needed to hold `bits` bits.
pub open spec fn bytes_covering(bits: nat) -> nat {
    if bits % 8 == 0 {
        bits / 8
    } else {
        bits / 8 + 1
    }
}

/// The output of squeezing `bit_length` bits at a rate of `rate_bits` bits:
/// the stream of blocks cut to `bit_length / 8` bytes.
pub open spec fn squeezed(state: Seq<u64>, bit_length: nat, rate_bits: nat) -> Seq<u8> {
    squeeze_stream(state, rate_bits / 8, bytes_covering(bit_length)).take((bit_length / 8) as int)
}

/// Reading the bytes of a lane back gives the lane.
pub proof fn lemma_lane_round_trip(v: u64)
    ensures
        lane_at(lane_to_bytes(v), 0, 8) == v,
{
    let b = lane_to_bytes(v);
    reveal_with_fuel(lane_at, 9);
    let b0 = (v >> 0u64) as u8;
    let b1 = (v >> 8u64) as u8;
    let b2 = (v >> 16u64) as u8;
    let b3 = (v >> 24u64) as u8;
    let b4 = (v >> 32u64) as u8;
    let b5 = (v >> 40u64) as u8;
    let b6 = (v >> 48u64) as u8;
    let b7 = (v >> 56u64) as u8;
    assert(b[0] == b0 && b[1] == b1 && b[2] == b2 && b[3] == b3);
    assert(b[4] == b4 && b[5] == b5 && b[6] == b6 && b[7] == b7);
    assert((((((((0u64 | ((b0 as u64) << 0u64)) | ((b1 as u64) << 8u64)) | ((b2 as u64) << 16u64))
        | ((b3 as u64) << 24u64)) | ((b4 as u64) << 32u64)) | ((b5 as u64) << 40u64)) | ((b6 as u64)
        << 48u64)) | ((b7 as u64) << 56u64) == v) by (bit_vector)
        requires
            b0 == (v >> 0u64) as u8,
            b1 == (v >> 8u64) as u8,
            b2 == (v >> 16u64) as u8,
            b3 == (v >> 24u64) as u8,
            b4 == (v >> 32u64) as u8,
            b5 == (v >> 40u64) as u8,
            b6 == (v >> 48u64) as u8,
            b7 == (v >> 56u64) as u8,
    ;
}

/// Absorbing keeps a state a state.
pub proof fn lemma_absorb_from_is_state(state: Seq<u64>, data: Seq<u8>, at: int, rate: nat)
    requires
        is_state(state),
    ensures
        is_state(absorb_from(state, data, at, rate)),
    decreases data.len() - at,
{
    if !(rate == 0 || at < 0 || at + rate > data.len()) {
        let next = xor_lanes(state, block_state(data, at, rate));
        lemma_keccak_f_is_state(next);
        lemma_absorb_from_is_state(keccak_f(next), data, at + rate, rate);
    }
}

/// What absorbing a message leaves is a state.
pub proof fn lemma_sponge_absorbed_is_state(m: Seq<u8>, rate: nat, suffix: u8)
    ensures
        is_state(sponge_absorbed(m, rate, suffix)),
{
    lemma_absorb_from_is_state(zero_state(), pad_message(m, rate, suffix), 0, rate);
}

/// The stream holds at least the bytes asked for.
pub proof fn lemma_squeeze_stream_len(state: Seq<u64>, rate: nat, want: nat)
    requires
        is_state(state),
        0 < rate <= 200,
    ensures
        want <= squeeze_stream(state, rate, want).len() < want + rate,
    decreases want,
{
    if want > rate {
        lemma_keccak_f_is_state(state);
        lemma_squeeze_stream_len(keccak_f(state), rate, (want - rate) as nat);
    }
}

/// Squeezing returns exactly the number of bits asked for, in whole bytes.
pub proof fn lemma_squeezed_len(state: Seq<u64>, bit_length: nat, rate_bits: nat)
    requires
        is_state(state),
        0 < rate_bits <= 1600,
        rate_bits % 8 == 0,
    ensures
        squeezed(state, bit_length, rate_bits).len() == bit_length / 8,
        bit_length % 8 == 0 ==> 8 * squeezed(state, bit_length, rate_bits).len() == bit_length,
{
    lemma_squeeze_stream_len(state, rate_bits / 8, bytes_covering(bit_length));
}

/// Absorbing any message at any capacity and squeezing `bit_length` bits
/// at the matching rate gives exactly `bit_length` bits, as whole bytes.
pub proof fn lemma_sponge_round_trip_len(m: Seq<u8>, capacity: int, suffix: u8, bit_length: nat)
    requires
        0 <= capacity < 1600,
        capacity % 8 == 0,
    ensures
        squeezed(
            sponge_absorbed(m, rate_of_capacity(capacity), suffix),
            bit_length,
            (1600 - capacity) as nat,
        ).len() == bit_length / 8,
        bit_length % 8 == 0 ==> 8 * squeezed(
            sponge_absorbed(m, rate_of_capacity(capacity), suffix),
            bit_length,
            (1600 - capacity) as nat,
        ).len() == bit_length,
{
    lemma_sponge_absorbed_is_state(m, rate_of_capacity(capacity), suffix);
    lemma_squeezed_len(
        sponge_absorbed(m, rate_of_capacity(capacity), suffix),
        bit_length,
        (1600 - capacity) as nat,
    );
}

/// Padding is never empty and completes the message to whole blocks.
pub proof fn lemma_padding_len(len: nat, rate: nat, suffix: u8)
    requires
        rate > 0,
    ensures
        1 <= padding(len, rate, suffix).len() <= rate,
        (len + padding(len, rate, suffix).len()) % rate == 0,
        (len + padding(len, rate, suffix).len()) / rate == len / rate + 1,
{
    let q = pad_len(len, rate) as int;
    let k = (len / rate) as int;
    let rem = (len % rate) as int;
    assert(0 <= rem < rate && len == rate * k + rem) by (nonlinear_arith)
        requires
            rate > 0,
            k == len / rate,
            rem == len % rate,
    ;
    assert(rate * (k + 1) == rate * k + rate) by (nonlinear_arith);
    assert((rate * (k + 1)) % (rate as int) == 0 && (rate * (k + 1)) / (rate as int) == k + 1)
        by (nonlinear_arith)
        requires
            rate > 0,
            k >= 0,
    ;
}

/// A message whose length is a multiple of the rate still gets padding: a
/// whole block of it, which starts with the suffix byte and ends with `0x80`.
pub proof fn lemma_aligned_message_gets_full_block(m: Seq<u8>, rate: nat, suffix: u8)
    requires
        rate > 1,
        m.len() % rate == 0,
    ensures
        pad_message(m, rate, suffix).len() == m.len() + rate,
        pad_message(m, rate, suffix).subrange(0, m.len() as int) == m,
        pad_message(m, rate, suffix)[m.len() as int] == suffix,
        pad_message(m, rate, suffix)[m.len() + rate - 1] == 0x80u8,
        forall|i: int|
            m.len() < i < m.len() + rate - 1 ==> pad_message(m, rate, suffix)[i] == 0u8,
{
    assert(pad_message(m, rate, suffix).subrange(0, m.len() as int) =~= m);
}

/// A lane read from a string does not depend on what follows the bytes
/// read.
pub proof fn lemma_lane_at_prefix(head: Seq<u8>, tail: Seq<u8>, at: int, width: nat)
    requires
        0 <= at,
        at + width <= head.len(),
    ensures
        lane_at(head + tail, at, width) == lane_at(head, at, width),
    decreases width,
{
    if width > 0 {
        lemma_lane_at_prefix(head, tail, at, (width - 1) as nat);
    }
}

/// A block read from a string does not depend on what follows the block.
pub proof fn lemma_block_state_prefix(head: Seq<u8>, tail: Seq<u8>, start: int, rate: nat)
    requires
        0 <= start,
        start + rate <= head.len(),
    ensures
        block_state(head + tail, start, rate) == block_state(head, start, rate),
{
    assert forall|j: int| 0 <= j < 25 implies lane_at(
        head + tail,
        start + 8 * j,
        lane_width(rate, j),
    ) == lane_at(head, start + 8 * j, lane_width(rate, j)) by {
        if lane_width(rate, j) > 0 {
            lemma_lane_at_prefix(head, tail, start + 8 * j, lane_width(rate, j));
        }
    }
    assert(block_state(head + tail, start, rate) =~= block_state(head, start, rate));
}

/// Absorbing a string that starts with whole blocks: first the whole
/// blocks, then the rest.
pub proof fn lemma_absorb_whole_blocks_first(
    state: Seq<u64>,
    head: Seq<u8>,
    tail: Seq<u8>,
    at: int,
    rate: nat,
)
    requires
        rate > 0,
        0 <= at <= head.len(),
        (head.len() - at) % (rate as int) == 0,
    ensures
        absorb_from(state, head + tail, at, rate) == absorb_from(
            absorb_from(state, head, at, rate),
            head + tail,
            head.len() as int,
            rate,
        ),
    decreases head.len() - at,
{
    if at < head.len() {
        let left = head.len() - at;
        assert(left >= rate) by (nonlinear_arith)
            requires
                left > 0,
                rate > 0,
                left % (rate as int) == 0,
        ;
        assert((left - rate) % (rate as int) == 0) by (nonlinear_arith)
            requires
                rate > 0,
                left % (rate as int) == 0,
        ;
        lemma_block_state_prefix(head, tail, at, rate);
        lemma_absorb_whole_blocks_first(
            keccak_f(xor_lanes(state, block_state(head, at, rate))),
            head,
            tail,
            at + rate,
            rate,
        );
    }
}

/// The state after a message whose length is a multiple of the rate: the
/// blocks of the message are absorbed, then the padding block is XORed in
/// and the state is permuted once more.
pub proof fn lemma_aligned_message_state(m: Seq<u8>, rate: nat, suffix: u8)
    requires
        rate > 0,
        m.len() % rate == 0,
    ensures
        sponge_absorbed(m, rate, suffix) == keccak_f(
            xor_lanes(
                absorb_from(zero_state(), m, 0, rate),
                block_state(pad_message(m, rate, suffix), m.len() as int, rate),
            ),
        ),
{
    let pad = padding(m.len(), rate, suffix);
    assert(pad.len() == rate);
    lemma_absorb_whole_blocks_first(zero_state(), m, pad, 0, rate);
    let reached = absorb_from(zero_state(), m, 0, rate);
    let last = keccak_f(xor_lanes(reached, block_state(m + pad, m.len() as int, rate)));
    assert(absorb_from(last, m + pad, (m.len() + rate) as int, rate) == last);
}

/// The eight bytes of `n`, least significant first.
pub fn u64_to_little_endian_bytes(n: &u64) -> (bytes: Vec<u8>)
    ensures
        bytes@ == lane_to_bytes(*n),
{
    let mut bytes: Vec<u8> = Vec::with_capacity(8);
    let mut i: u64 = 0;
    while i < 8
        invariant
            i <= 8,
            bytes@.len() == i,
            forall|k: int| 0 <= k < i ==> bytes@[k] == lane_byte(*n, k),
        decreases 8 - i,
    {
        bytes.push(#[verifier::truncate] ((*n >> (8 * i)) as u8));
        i += 1;
    }
    assert(bytes@ =~= lane_to_bytes(*n));
    bytes
}

/// The bytes of a run of lanes, each lane least significant byte first.
pub fn state_to_byte_array(uint64s: &[u64]) -> (result: Vec<u8>)
    requires
        8 * uint64s.len() <= usize::MAX,
    ensures
        result@ == lanes_to_bytes(uint64s@),
{
    let mut result: Vec<u8> = Vec::with_capacity(8 * uint64s.len());
    let mut j: usize = 0;
    while j < uint64s.len()
        invariant
            j <= uint64s.len(),
            result@.len() == 8 * j,
            forall|k: int| 0 <= k < 8 * j ==> result@[k] == lane_byte(uint64s@[k / 8], k % 8),
        decreases uint64s.len() - j,
    {
        let mut b = u64_to_little_endian_bytes(&uint64s[j]);
        result.append(&mut b);
        j += 1;
    }
    assert(result@ =~= lanes_to_bytes(uint64s@));
    result
}

/// Lane-wise XOR of two states.
pub fn xor_states(a: &[u64; 25], b: &[u64; 25]) -> (result: [u64; 25])
    ensures
        result@ == xor_lanes(a@, b@),
{
    let mut result: [u64; 25] = [0;25];
    let mut i: usize = 0;
    while i < 25
        invariant
            i <= 25,
            forall|k: int| 0 <= k < i ==> result@[k] == a@[k] ^ b@[k],
        decreases 25 - i,
    {
        result[i] = a[i] ^ b[i];
        i += 1;
    }
    assert(result@ =~= xor_lanes(a@, b@));
    result
}

/// Reads `width` bytes at `offset` as the low bytes of a lane.
pub fn read_lane(in_val: &[u8], offset: usize, width: usize) -> (lane: u64)
    requires
        width <= 8,
        offset + width <= in_val.len(),
    ensures
        lane == lane_at(in_val@, offset as int, width as nat),
{
    let mut lane: u64 = 0;
    let mut i: usize = 0;
    while i < width
        invariant
            i <= width <= 8,
            offset + width <= in_val.len(),
            lane == lane_at(in_val@, offset as int, i as nat),
        decreases width - i,
    {
        lane = lane | ((in_val[offset + i] as u64) << (8 * i));
        i += 1;
    }
    lane
}

/// Reads the eight bytes at `offset` as a lane.
pub fn bytes_to_lane(in_val: &[u8], offset: u64) -> (lane: u64)
    requires
        offset + 8 <= in_val.len(),
    ensures
        lane == lane_at(in_val@, offset as int, 8),
{
    read_lane(in_val, offset as usize, 8)
}

/// Cuts `in_val` into blocks of `rate_in_bytes` bytes and extends each with
/// zeros to a state. Bytes after the last whole block are left out.
pub fn bytes_to_states(in_val: &[u8], rate_in_bytes: usize) -> (state_array: Vec<[u64; 25]>)
    requires
        0 < rate_in_bytes <= 200,
    ensures
        state_array@.len() == in_val@.len() / (rate_in_bytes as nat),
        forall|i: int|
            0 <= i < state_array@.len() ==> (#[trigger] state_array@[i])@ == block_state(
                in_val@,
                i * rate_in_bytes,
                rate_in_bytes as nat,
            ),
{
    let n = in_val.len() / rate_in_bytes;
    assert(n * rate_in_bytes <= in_val.len()) by (nonlinear_arith)
        requires
            n == in_val.len() / rate_in_bytes,
            rate_in_bytes > 0,
    ;
    let mut state_array: Vec<[u64; 25]> = Vec::with_capacity(n);
    let mut offset: usize = 0;
    let mut i: usize = 0;
    while i < n
        invariant
            i <= n,
            0 < rate_in_bytes <= 200,
            n * rate_in_bytes <= in_val.len(),
            offset == i * rate_in_bytes,
            state_array@.len() == i,
            forall|k: int|
                0 <= k < i ==> (#[trigger] state_array@[k])@ == block_state(
                    in_val@,
                    k * rate_in_bytes,
                    rate_in_bytes as nat,
                ),
        decreases n - i,
    {
        assert((i + 1) * rate_in_bytes == i * rate_in_bytes + rate_in_bytes
            && (i + 1) * rate_in_bytes <= n * rate_in_bytes) by (nonlinear_arith)
            requires
                i < n,
        ;
        let mut state: [u64; 25] = [0;25];
        let mut j: usize = 0;
        while 8 * j < rate_in_bytes
            invariant
                j <= 25,
                0 < rate_in_bytes <= 200,
                offset + rate_in_bytes <= in_val.len(),
                forall|k: int|
                    0 <= k < j ==> state@[k] == lane_at(
                        in_val@,
                        offset + 8 * k,
                        lane_width(rate_in_bytes as nat, k),
                    ),
                forall|k: int| j <= k < 25 ==> state@[k] == 0,
            decreases 25 - j,
        {
            let width = if rate_in_bytes - 8 * j >= 8 {
                8
            } else {
                rate_in_bytes - 8 * j
            };
            state[j] = read_lane(in_val, offset + 8 * j, width);
            j += 1;
        }
        assert(state@ =~= block_state(in_val@, offset as int, rate_in_bytes as nat));
        state_array.push(state);
        offset += rate_in_bytes;
        i += 1;
    }
    state_array
}

/// Appends the suffix byte and multi-rate padding to `x`.
///
/// `suffix` holds the domain bits, lowest bit first, followed by one set bit,
/// the first bit of pad10*1.
pub fn pad_with_suffix(x: &[u8], rate_in_bytes: usize, suffix: u8) -> (padded: Vec<u8>)
    requires
        rate_in_bytes > 0,
        x.len() + rate_in_bytes <= usize::MAX,
    ensures
        padded@ == pad_message(x@, rate_in_bytes as nat, suffix),
{
    let q = rate_in_bytes - x.len() % rate_in_bytes;
    let mut padded: Vec<u8> = Vec::with_capacity(x.len() + q);
    let mut i: usize = 0;
    while i < x.len()
        invariant
            i <= x.len(),
            padded@ == x@.take(i as int),
        decreases x.len() - i,
    {
        padded.push(x[i]);
        assert(padded@ =~= x@.take(i + 1));
        i += 1;
    }
    assert(x@.take(x.len() as int) =~= x@);
    if q == 1 {
        padded.push(suffix | 0x80);
    } else {
        padded.push(suffix);
        let mut z: usize = 1;
        while z < q - 1
            invariant
                1 <= z <= q - 1,
                padded@.len() == x@.len() + z,
                padded@.take(x@.len() as int) == x@,
                padded@[x@.len() as int] == suffix,
                forall|k: int| x@.len() < k < x@.len() + z ==> padded@[k] == 0u8,
            decreases q - z,
        {
            padded.push(0);
            assert(padded@.take(x@.len() as int) =~= x@);
            z += 1;
        }
        padded.push(0x80);
        assert(padded@.take(x@.len() as int) =~= x@);
    }
    assert(padded@ =~= pad_message(x@, rate_in_bytes as nat, suffix));
    padded
}

/// Multi-rate padding pad10*1: a set bit, zero bits, and a final set bit, up
/// to the next multiple of the rate.
pub fn pad_ten_one(x: &[u8], rate_in_bytes: usize) -> (padded: Vec<u8>)
    requires
        rate_in_bytes > 0,
        x.len() + rate_in_bytes <= usize::MAX,
    ensures
        padded@ == pad_message(x@, rate_in_bytes as nat, PLAIN_SUFFIX),
        padded@.len() > x@.len(),
        padded@.len() % (rate_in_bytes as nat) == 0,
{
    proof {
        lemma_padding_len(x@.len(), rate_in_bytes as nat, PLAIN_SUFFIX);
    }
    pad_with_suffix(x, rate_in_bytes, PLAIN_SUFFIX)
}

/// Pads `m` with the given suffix byte and absorbs it, block by block, into
/// the zero state.
pub fn absorb_with_suffix(m: &[u8], rate_in_bytes: usize, suffix: u8) -> (s: [u64; 25])
    requires
        0 < rate_in_bytes <= 200,
        m.len() + rate_in_bytes <= usize::MAX,
    ensures
        s@ == sponge_absorbed(m@, rate_in_bytes as nat, suffix),
{
    let p = pad_with_suffix(m, rate_in_bytes, suffix);
    proof {
        lemma_padding_len(m@.len(), rate_in_bytes as nat, suffix);
    }
    let state_array = bytes_to_states(p.as_slice(), rate_in_bytes);
    let n = state_array.len();
    assert(n * rate_in_bytes == p@.len()) by (nonlinear_arith)
        requires
            n == p@.len() / (rate_in_bytes as nat),
            p@.len() % (rate_in_bytes as nat) == 0,
            rate_in_bytes > 0,
    ;
    let mut s: [u64; 25] = [0;25];
    assert(s@ =~= zero_state());
    let mut i: usize = 0;
    while i < n
        invariant
            i <= n,
            n == state_array@.len(),
            0 < rate_in_bytes <= 200,
            n * rate_in_bytes == p@.len(),
            forall|k: int|
                0 <= k < n ==> (#[trigger] state_array@[k])@ == block_state(
                    p@,
                    k * rate_in_bytes,
                    rate_in_bytes as nat,
                ),
            absorb_from(zero_state(), p@, 0, rate_in_bytes as nat) == absorb_from(
                s@,
                p@,
                i * rate_in_bytes,
                rate_in_bytes as nat,
            ),
        decreases n - i,
    {
        assert((i + 1) * rate_in_bytes == i * rate_in_bytes + rate_in_bytes
            && (i + 1) * rate_in_bytes <= n * rate_in_bytes && 0 <= i * rate_in_bytes)
            by (nonlinear_arith)
            requires
                i < n,
        ;
        s = xor_states(&s, &state_array[i]);
        keccakf_1600(&mut s);
        i += 1;
    }
    s
}

/// Absorbs `m`, padded with pad10*1 to whole blocks of `(1600 - capacity) / 8`
/// bytes, into the zero state and returns the state reached.
pub fn sponge_absorb(m: &[u8], capacity: i32) -> (s: [u64; 25])
    requires
        0 <= capacity < 1600,
        capacity % 8 == 0,
        m.len() + 200 <= usize::MAX,
    ensures
        s@ == sponge_absorbed(m@, rate_of_capacity(capacity as int), PLAIN_SUFFIX),
{
    let r = (1600 - capacity) / 8;
    let rate_in_bytes = r as usize;
    absorb_with_suffix(m, rate_in_bytes, PLAIN_SUFFIX)
}

/// Squeezes `bit_length` bits out of the state at a rate of `rate` bits: the
/// first `rate / 8` bytes of the state are read and the state is permuted,
/// again and again until enough bytes are there; the output is cut to
/// `bit_length / 8` bytes.
pub fn sponge_squeeze(s: &mut [u64; 25], bit_length: usize, rate: usize) -> (out: Vec<u8>)
    requires
        0 < rate <= 1600,
        rate % 8 == 0,
    ensures
        out@ == squeezed(old(s)@, bit_length as nat, rate as nat),
        out@.len() == bit_length / 8,
        bit_length % 8 == 0 ==> 8 * out@.len() == bit_length,
        final(s)@ == squeeze_state(
            old(s)@,
            (rate / 8) as nat,
            bytes_covering(bit_length as nat),
        ),
{
    let rate_in_bytes = rate / 8;
    let want = if bit_length % 8 == 0 {
        bit_length / 8
    } else {
        bit_length / 8 + 1
    };
    let ghost start = s@;
    let mut out: Vec<u8> = Vec::new();
    while out.len() < want
        invariant
            0 < rate_in_bytes <= 200,
            is_state(s@),
            out@.len() < want ==> squeeze_stream(start, rate_in_bytes as nat, want as nat) == out@
                + squeeze_stream(s@, rate_in_bytes as nat, (want - out@.len()) as nat),
            out@.len() < want ==> squeeze_state(start, rate_in_bytes as nat, want as nat)
                == squeeze_state(s@, rate_in_bytes as nat, (want - out@.len()) as nat),
            out@.len() >= want ==> squeeze_stream(start, rate_in_bytes as nat, want as nat)
                == out@,
            out@.len() >= want ==> squeeze_state(start, rate_in_bytes as nat, want as nat) == s@,
        decreases
            if out@.len() < want {
                want - out@.len()
            } else {
                0
            },
    {
        let ghost before = out@;
        let ghost cur = s@;
        let bytes = state_to_byte_array(s.as_slice());
        let mut k: usize = 0;
        while k < rate_in_bytes
            invariant
                k <= rate_in_bytes <= 200,
                bytes@.len() == 200,
                out@ == before + bytes@.take(k as int),
                out@.len() == before.len() + k,
            decreases rate_in_bytes - k,
        {
            out.push(bytes[k]);
            assert(out@ =~= before + bytes@.take(k + 1));
            k += 1;
        }
        keccakf_1600(s);
        proof {
            lemma_keccak_f_is_state(cur);
            let block = lanes_to_bytes(cur).take(rate_in_bytes as int);
            let rest = (want - before.len()) as nat;
            if rest > rate_in_bytes {
                assert(before + (block + squeeze_stream(
                    keccak_f(cur),
                    rate_in_bytes as nat,
                    (rest - rate_in_bytes) as nat,
                )) =~= (before + block) + squeeze_stream(
                    keccak_f(cur),
                    rate_in_bytes as nat,
                    (rest - rate_in_bytes) as nat,
                ));
            }
        }
    }
    proof {
        lemma_squeezed_len(start, bit_length as nat, rate as nat);
    }
    out.truncate(bit_length / 8);
    out
}

} // verus!
