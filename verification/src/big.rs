//! Natural numbers below `2^528`, wide enough for every coordinate and
//! scalar of E521.
//!
//! A number is held as 66 bytes, most significant byte first. Sums, products
//! and remainders are computed by the `rug` crate on byte strings; the
//! contracts of those calls are stated over `be_value` and are not proved
//! here.
use rug::integer::Order;
use rug::Integer;
use vstd::prelude::*;

verus! {

/// Number of bytes of a `Big`.
pub const BIG_BYTES: usize = 66;

/// The number that a byte string denotes, most significant byte first.
pub open spec fn be_value(digits: Seq<u8>) -> nat
    decreases digits.len(),
{
    if digits.len() == 0 {
        0
    } else {
        256 * be_value(digits.drop_last()) + digits.last() as nat
    }
}

/// `256^n`.
pub open spec fn pow256(n: nat) -> nat
    decreases n,
{
    if n == 0 {
        1
    } else {
        256 * pow256((n - 1) as nat)
    }
}

/// `2^528`, the bound of a `Big`.
pub open spec fn big_bound() -> nat {
    pow256(66)
}

/// A byte string of `n` bytes denotes a number below `256^n`.
pub proof fn lemma_be_value_bound(digits: Seq<u8>)
    ensures
        be_value(digits) < pow256(digits.len()),
    decreases digits.len(),
{
    if digits.len() > 0 {
        lemma_be_value_bound(digits.drop_last());
    }
}

/// `256^n` grows with `n`.
pub proof fn lemma_pow256_monotonic(a: nat, b: nat)
    requires
        a <= b,
    ensures
        0 < pow256(a) <= pow256(b),
    decreases b,
{
    if b > 0 && a < b {
        lemma_pow256_monotonic(a, (b - 1) as nat);
    } else if b > 0 {
        lemma_pow256_monotonic((a - 1) as nat, (b - 1) as nat);
    }
}

/// Zero bytes in front do not change the number.
pub proof fn lemma_be_value_skip_zeros(digits: Seq<u8>, k: int)
    requires
        0 <= k <= digits.len(),
        forall|i: int| 0 <= i < k ==> digits[i] == 0,
    ensures
        be_value(digits) == be_value(digits.skip(k)),
    decreases digits.len(),
{
    if k == digits.len() {
        lemma_be_value_all_zero(digits);
        assert(digits.skip(k).len() == 0);
    } else {
        lemma_be_value_skip_zeros(digits.drop_last(), k);
        assert(digits.drop_last().skip(k) =~= digits.skip(k).drop_last());
    }
}

/// A string of zero bytes denotes zero.
pub proof fn lemma_be_value_all_zero(digits: Seq<u8>)
    requires
        forall|i: int| 0 <= i < digits.len() ==> digits[i] == 0,
    ensures
        be_value(digits) == 0,
    decreases digits.len(),
{
    if digits.len() > 0 {
        lemma_be_value_all_zero(digits.drop_last());
    }
}

/// A string whose first byte is not zero denotes at least `256^(n-1)`.
pub proof fn lemma_be_value_lower_bound(digits: Seq<u8>)
    requires
        digits.len() > 0,
        digits[0] != 0,
    ensures
        be_value(digits) >= pow256((digits.len() - 1) as nat),
    decreases digits.len(),
{
    if digits.len() == 1 {
        assert(digits.drop_last().len() == 0);
    } else {
        lemma_be_value_lower_bound(digits.drop_last());
    }
}

/// The number of a string extended by one byte.
pub proof fn lemma_be_value_push(digits: Seq<u8>, b: u8)
    ensures
        be_value(digits.push(b)) == 256 * be_value(digits) + b,
{
    assert(digits.push(b).drop_last() =~= digits);
}

/// Two strings of the same length that denote the same number are equal.
pub proof fn lemma_be_value_injective(a: Seq<u8>, b: Seq<u8>)
    requires
        a.len() == b.len(),
        be_value(a) == be_value(b),
    ensures
        a == b,
    decreases a.len(),
{
    if a.len() > 0 {
        lemma_be_value_injective(a.drop_last(), b.drop_last());
        assert(a =~= a.drop_last().push(a.last()));
        assert(b =~= b.drop_last().push(b.last()));
    } else {
        assert(a =~= b);
    }
}

/// The 66 bytes that denote `v`, most significant first.
pub open spec fn encode66(v: nat) -> Seq<u8> {
    choose|s: Seq<u8>| s.len() == 66 && be_value(s) == v
}

/// A string of 66 bytes is the encoding of the number it denotes.
pub proof fn lemma_encode66(s: Seq<u8>)
    requires
        s.len() == 66,
    ensures
        encode66(be_value(s)) == s,
{
    let e = encode66(be_value(s));
    lemma_be_value_injective(e, s);
}

/// A natural number below `2^528`.
#[derive(Clone, Copy, Debug)]
pub struct Big {
    /// The 66 bytes of the number, most significant first.
    pub bytes: [u8; 66],
}

impl View for Big {
    type V = nat;

    open spec fn view(&self) -> nat {
        be_value(self.bytes@)
    }
}

/// How two numbers stand to each other.
#[derive(Clone, Copy, Debug, PartialEq, Eq, Structural)]
pub enum Order3 {
    Less,
    Same,
    Greater,
}

/// The relation between two natural numbers.
pub open spec fn order_of(a: nat, b: nat) -> Order3 {
    if a < b {
        Order3::Less
    } else if a == b {
        Order3::Same
    } else {
        Order3::Greater
    }
}

/// Whether `w` is the inverse of `a` modulo `m`: below `m`, and with a
/// product `a * w` that leaves the remainder one.
pub open spec fn is_inverse(a: nat, w: nat, m: nat) -> bool {
    w < m && (a * w) % m == 1
}

/// Sum of two numbers given by their bytes.
///
/// Calls `rug::Integer::from_digits`, the `+` of `rug::Integer` and
/// `rug::Integer::to_digits`. Claimed: the bytes returned denote the sum of
/// the two numbers.
#[verifier::external_body]
pub(crate) fn digits_add(a: &[u8], b: &[u8]) -> (sum: Vec<u8>)
    requires
        8 * a.len() <= usize::MAX,
        8 * b.len() <= usize::MAX,
    ensures
        be_value(sum@) == be_value(a@) + be_value(b@),
{
    let x = Integer::from_digits(a, Order::Msf);
    let y = Integer::from_digits(b, Order::Msf);
    Integer::from(x + y).to_digits::<u8>(Order::Msf)
}

/// Difference of two numbers given by their bytes, the first not smaller
/// than the second.
///
/// Calls `rug::Integer::from_digits`, the `-` of `rug::Integer` and
/// `rug::Integer::to_digits`. Claimed: the bytes returned denote the
/// difference.
#[verifier::external_body]
pub(crate) fn digits_sub(a: &[u8], b: &[u8]) -> (difference: Vec<u8>)
    requires
        8 * a.len() <= usize::MAX,
        8 * b.len() <= usize::MAX,
        be_value(a@) >= be_value(b@),
    ensures
        be_value(difference@) == be_value(a@) - be_value(b@),
{
    let x = Integer::from_digits(a, Order::Msf);
    let y = Integer::from_digits(b, Order::Msf);
    Integer::from(x - y).to_digits::<u8>(Order::Msf)
}

/// Product of two numbers given by their bytes.
///
/// Calls `rug::Integer::from_digits`, the `*` of `rug::Integer` and
/// `rug::Integer::to_digits`. Claimed: the bytes returned denote the product.
#[verifier::external_body]
pub(crate) fn digits_mul(a: &[u8], b: &[u8]) -> (product: Vec<u8>)
    requires
        8 * a.len() <= usize::MAX,
        8 * b.len() <= usize::MAX,
    ensures
        be_value(product@) == be_value(a@) * be_value(b@),
{
    let x = Integer::from_digits(a, Order::Msf);
    let y = Integer::from_digits(b, Order::Msf);
    Integer::from(x * y).to_digits::<u8>(Order::Msf)
}

/// Remainder of a number modulo a positive number, both given by their
/// bytes.
///
/// Calls `rug::Integer::from_digits`, the `%` of `rug::Integer` and
/// `rug::Integer::to_digits`. Claimed: the bytes returned denote the
/// remainder of the division. The call panics on a zero divisor, which the
/// precondition excludes.
#[verifier::external_body]
pub(crate) fn digits_rem(a: &[u8], m: &[u8]) -> (remainder: Vec<u8>)
    requires
        8 * a.len() <= usize::MAX,
        8 * m.len() <= usize::MAX,
        be_value(m@) > 0,
    ensures
        be_value(remainder@) == be_value(a@) % be_value(m@),
{
    let x = Integer::from_digits(a, Order::Msf);
    let y = Integer::from_digits(m, Order::Msf);
    Integer::from(x % y).to_digits::<u8>(Order::Msf)
}

/// Inverse of a number modulo a number greater than one, both given by
/// their bytes.
///
/// Calls `rug::Integer::from_digits`, `rug::Integer::invert` and
/// `rug::Integer::to_digits`. Claimed: where the call finds an inverse, the
/// bytes returned denote a number below the modulus whose product with the
/// first number leaves the remainder one; where it finds none, no natural
/// number has that property.
#[verifier::external_body]
pub(crate) fn digits_invert(a: &[u8], m: &[u8]) -> (inverse: Option<Vec<u8>>)
    requires
        8 * a.len() <= usize::MAX,
        8 * m.len() <= usize::MAX,
        be_value(m@) > 1,
    ensures
        match inverse {
            Some(w) => is_inverse(be_value(a@), be_value(w@), be_value(m@)),
            None => forall|w: nat| !#[trigger] is_inverse(be_value(a@), w, be_value(m@)),
        },
{
    let x = Integer::from_digits(a, Order::Msf);
    let y = Integer::from_digits(m, Order::Msf);
    match x.invert(&y) {
        Ok(w) => Some(w.to_digits::<u8>(Order::Msf)),
        Err(_) => None,
    }
}

/// Index of the first byte that is not zero, or the length if there is none.
pub(crate) fn leading_zeros(digits: &[u8]) -> (k: usize)
    ensures
        k <= digits.len(),
        forall|i: int| 0 <= i < k ==> digits@[i] == 0,
        k < digits.len() ==> digits@[k as int] != 0,
{
    let mut k: usize = 0;
    while k < digits.len() && digits[k] == 0
        invariant
            k <= digits.len(),
            forall|i: int| 0 <= i < k ==> digits@[i] == 0,
        decreases digits.len() - k,
    {
        k += 1;
    }
    k
}

impl Big {
    /// The number zero.
    pub fn zero() -> (z: Big)
        ensures
            z@ == 0,
    {
        let z = Big { bytes: [0;66] };
        proof {
            lemma_be_value_all_zero(z.bytes@);
        }
        z
    }

    /// The number `v`.
    pub fn from_u64(v: u64) -> (b: Big)
        ensures
            b@ == v,
    {
        let mut bytes: [u8; 66] = [0;66];
        bytes[58] = (v >> 56) as u8;
        bytes[59] = #[verifier::truncate] ((v >> 48) as u8);
        bytes[60] = #[verifier::truncate] ((v >> 40) as u8);
        bytes[61] = #[verifier::truncate] ((v >> 32) as u8);
        bytes[62] = #[verifier::truncate] ((v >> 24) as u8);
        bytes[63] = #[verifier::truncate] ((v >> 16) as u8);
        bytes[64] = #[verifier::truncate] ((v >> 8) as u8);
        bytes[65] = #[verifier::truncate] (v as u8);
        let b = Big { bytes };
        proof {
            let s = bytes@;
            lemma_be_value_skip_zeros(s, 58);
            let t = s.skip(58);
            assert(t.len() == 8);
            reveal_with_fuel(be_value, 9);
            assert(t.drop_last().drop_last().drop_last().drop_last().drop_last().drop_last()
                .drop_last().drop_last().len() == 0);
            let b0 = t[0];
            let b1 = t[1];
            let b2 = t[2];
            let b3 = t[3];
            let b4 = t[4];
            let b5 = t[5];
            let b6 = t[6];
            let b7 = t[7];
            assert(be_value(t) == 256 * (256 * (256 * (256 * (256 * (256 * (256 * (b0 as nat)
                + b1) + b2) + b3) + b4) + b5) + b6) + b7);
            assert(v == 256 * (256 * (256 * (256 * (256 * (256 * (256 * ((v >> 56) as u8 as nat)
                + ((v >> 48) as u8)) + ((v >> 40) as u8)) + ((v >> 32) as u8)) + ((v >> 24) as u8))
                + ((v >> 16) as u8)) + ((v >> 8) as u8)) + (v as u8)) by (bit_vector);
        }
        b
    }

    /// The number that `digits` denotes, most significant byte first, if it
    /// is below `2^528`.
    pub fn from_be_bytes(digits: &[u8]) -> (b: Option<Big>)
        ensures
            b is Some <==> be_value(digits@) < big_bound(),
            b matches Some(v) ==> v@ == be_value(digits@),
    {
        let k = leading_zeros(digits);
        proof {
            lemma_be_value_skip_zeros(digits@, k as int);
            if k < digits.len() {
                lemma_be_value_lower_bound(digits@.skip(k as int));
                lemma_be_value_bound(digits@.skip(k as int));
                if digits.len() - k > 66 {
                    lemma_pow256_monotonic(66, (digits.len() - k - 1) as nat);
                } else {
                    lemma_pow256_monotonic((digits.len() - k) as nat, 66);
                }
            } else {
                lemma_pow256_monotonic(0, 66);
            }
        }
        let n = digits.len() - k;
        if n > 66 {
            return None;
        }
        let mut bytes: [u8; 66] = [0;66];
        let mut i: usize = 0;
        while i < n
            invariant
                i <= n <= 66,
                n == digits.len() - k,
                forall|j: int| 0 <= j < 66 - n ==> bytes@[j] == 0,
                forall|j: int|
                    66 - n <= j < 66 - n + i ==> bytes@[j] == digits@[j - (66 - n) + k],
            decreases n - i,
        {
            bytes[66 - n + i] = digits[k + i];
            i += 1;
        }
        proof {
            lemma_be_value_skip_zeros(bytes@, 66 - n);
            assert(bytes@.skip(66 - n) =~= digits@.skip(k as int));
        }
        Some(Big { bytes })
    }

    /// The 66 bytes of the number, most significant first.
    pub fn to_be_bytes(&self) -> (digits: Vec<u8>)
        ensures
            digits@ == self.bytes@,
            digits@ == encode66(self@),
            digits@.len() == 66,
            be_value(digits@) == self@,
    {
        proof {
            lemma_encode66(self.bytes@);
        }
        let mut digits: Vec<u8> = Vec::with_capacity(66);
        let mut i: usize = 0;
        while i < 66
            invariant
                i <= 66,
                digits@.len() == i,
                forall|j: int| 0 <= j < i ==> digits@[j] == self.bytes@[j],
            decreases 66 - i,
        {
            digits.push(self.bytes[i]);
            i += 1;
        }
        assert(digits@ =~= self.bytes@);
        digits
    }

    /// How the number stands to `other`.
    pub fn order(&self, other: &Big) -> (o: Order3)
        ensures
            o == order_of(self@, other@),
    {
        let mut o = Order3::Same;
        let mut i: usize = 0;
        assert(self.bytes@.take(0).len() == 0);
        assert(other.bytes@.take(0).len() == 0);
        while i < 66
            invariant
                i <= 66,
                o == order_of(
                    be_value(self.bytes@.take(i as int)),
                    be_value(other.bytes@.take(i as int)),
                ),
            decreases 66 - i,
        {
            proof {
                let a = self.bytes@.take(i + 1);
                let b = other.bytes@.take(i + 1);
                assert(a.drop_last() =~= self.bytes@.take(i as int));
                assert(b.drop_last() =~= other.bytes@.take(i as int));
            }
            if o == Order3::Same {
                if self.bytes[i] < other.bytes[i] {
                    o = Order3::Less;
                } else if self.bytes[i] > other.bytes[i] {
                    o = Order3::Greater;
                }
            }
            i += 1;
        }
        assert(self.bytes@.take(66) =~= self.bytes@);
        assert(other.bytes@.take(66) =~= other.bytes@);
        o
    }

    /// Whether the number equals `other`.
    pub fn equals(&self, other: &Big) -> (same: bool)
        ensures
            same == (self@ == other@),
            same == (self.bytes@ == other.bytes@),
    {
        proof {
            if self@ == other@ {
                lemma_be_value_injective(self.bytes@, other.bytes@);
            }
        }
        self.order(other) == Order3::Same
    }

    /// Whether the number is smaller than `other`.
    pub fn less_than(&self, other: &Big) -> (smaller: bool)
        ensures
            smaller == (self@ < other@),
    {
        self.order(other) == Order3::Less
    }

    /// Whether the number is zero.
    pub fn is_zero(&self) -> (zero: bool)
        ensures
            zero == (self@ == 0),
    {
        let z = Big::zero();
        self.equals(&z)
    }
}

/// The number that `digits` denotes, as a `Big`.
pub(crate) fn fit(digits: &[u8]) -> (b: Big)
    requires
        be_value(digits@) < big_bound(),
    ensures
        b@ == be_value(digits@),
{
    match Big::from_be_bytes(digits) {
        Some(b) => b,
        None => Big::zero(),
    }
}

} // verus!
