//! Arithmetic modulo a positive number on `Big` values.
use crate::big::{
    be_value, digits_add, digits_invert, digits_mul, digits_rem, digits_sub, fit, is_inverse,
    leading_zeros, lemma_be_value_bound, lemma_be_value_lower_bound, lemma_be_value_skip_zeros,
    lemma_pow256_monotonic, pow256, Big,
};
use vstd::arithmetic::div_mod::{
    lemma_mod_bound, lemma_mod_multiples_vanish, lemma_mul_mod_noop_left,
    lemma_mul_mod_noop_right, lemma_small_mod, lemma_sub_mod_noop,
};
use vstd::prelude::*;

verus! {

/// `(a + b) mod m`.
pub open spec fn add_mod(a: nat, b: nat, m: nat) -> nat {
    (a + b) % m
}

/// `(a - b) mod m`, in `0..m`.
pub open spec fn sub_mod(a: nat, b: nat, m: nat) -> nat {
    ((a as int - b as int) % (m as int)) as nat
}

/// `(a * b) mod m`.
pub open spec fn mul_mod(a: nat, b: nat, m: nat) -> nat {
    (a * b) % m
}

/// Whether `a` has an inverse modulo `m`.
pub open spec fn has_inverse(a: nat, m: nat) -> bool {
    exists|w: nat| is_inverse(a, w, m)
}

/// The inverse of `a` modulo `m`, or zero where `a` has none.
pub open spec fn inv_mod(a: nat, m: nat) -> nat {
    if has_inverse(a, m) {
        choose|w: nat| is_inverse(a, w, m)
    } else {
        0
    }
}

/// `256^a * 256^b == 256^(a + b)`.
pub proof fn lemma_pow256_add(a: nat, b: nat)
    ensures
        pow256(a) * pow256(b) == pow256(a + b),
    decreases a,
{
    if a == 0 {
        assert(pow256(0) * pow256(b) == pow256(b)) by (nonlinear_arith)
            requires
                pow256(0) == 1,
        ;
    } else {
        lemma_pow256_add((a - 1) as nat, b);
        let x = pow256((a - 1) as nat);
        let y = pow256(b);
        assert((256 * x) * y == 256 * (x * y)) by (nonlinear_arith);
    }
}

/// A number has at most one inverse modulo `m`.
pub proof fn lemma_inverse_unique(a: nat, w1: nat, w2: nat, m: nat)
    requires
        is_inverse(a, w1, m),
        is_inverse(a, w2, m),
    ensures
        w1 == w2,
{
    let mi = m as int;
    let ai = a as int;
    let x = w1 as int;
    let y = w2 as int;
    assert(m > 0);
    lemma_mul_mod_noop_right(x, ai * y, mi);
    lemma_mul_mod_noop_left(x * ai, y, mi);
    assert(x * (ai * y) == (x * ai) * y) by (nonlinear_arith);
    assert(x * ai == ai * x) by (nonlinear_arith);
    assert(x * 1 == x && 1 * y == y);
    lemma_small_mod(w1, m);
    lemma_small_mod(w2, m);
}

/// What `inv_mod` is where an inverse is known.
pub proof fn lemma_inv_mod_is(a: nat, w: nat, m: nat)
    requires
        is_inverse(a, w, m),
    ensures
        has_inverse(a, m),
        inv_mod(a, m) == w,
{
    let c = choose|c: nat| is_inverse(a, c, m);
    lemma_inverse_unique(a, c, w, m);
}

/// The bytes of `digits` from the first one that is not zero on.
fn trim(digits: &[u8], limit: usize) -> (out: Vec<u8>)
    requires
        be_value(digits@) < pow256(limit as nat),
    ensures
        be_value(out@) == be_value(digits@),
        out@.len() <= limit,
{
    let k = leading_zeros(digits);
    proof {
        lemma_be_value_skip_zeros(digits@, k as int);
        if k < digits.len() {
            lemma_be_value_lower_bound(digits@.skip(k as int));
            if digits.len() - k > limit {
                lemma_pow256_monotonic(limit as nat, (digits.len() - k - 1) as nat);
            }
        }
    }
    let mut out: Vec<u8> = Vec::with_capacity(digits.len() - k);
    let mut i: usize = k;
    while i < digits.len()
        invariant
            k <= i <= digits.len(),
            out@ == digits@.subrange(k as int, i as int),
        decreases digits.len() - i,
    {
        out.push(digits[i]);
        assert(out@ =~= digits@.subrange(k as int, i + 1));
        i += 1;
    }
    assert(out@ =~= digits@.skip(k as int));
    out
}

/// The remainder of the number that `digits` denotes, modulo `m`.
pub fn reduce_bytes(digits: &[u8], m: &Big) -> (r: Big)
    requires
        8 * digits.len() <= usize::MAX,
        m@ > 0,
    ensures
        r@ == be_value(digits@) % m@,
{
    let rem = digits_rem(digits, m.bytes.as_slice());
    proof {
        lemma_mod_bound(be_value(digits@) as int, m@ as int);
        lemma_be_value_bound(m.bytes@);
    }
    fit(rem.as_slice())
}

/// `(a + b) mod m`.
pub fn add_mod_big(a: &Big, b: &Big, m: &Big) -> (r: Big)
    requires
        m@ > 0,
    ensures
        r@ == add_mod(a@, b@, m@),
{
    let sum = digits_add(a.bytes.as_slice(), b.bytes.as_slice());
    proof {
        lemma_be_value_bound(a.bytes@);
        lemma_be_value_bound(b.bytes@);
        assert(pow256(67) == 256 * pow256(66));
    }
    let sum = trim(sum.as_slice(), 67);
    reduce_bytes(sum.as_slice(), m)
}

/// `(a - b) mod m`.
pub fn sub_mod_big(a: &Big, b: &Big, m: &Big) -> (r: Big)
    requires
        m@ > 0,
    ensures
        r@ == sub_mod(a@, b@, m@),
{
    let am = reduce_bytes(a.bytes.as_slice(), m);
    let bm = reduce_bytes(b.bytes.as_slice(), m);
    proof {
        lemma_mod_bound(a@ as int, m@ as int);
        lemma_mod_bound(b@ as int, m@ as int);
        lemma_be_value_bound(m.bytes@);
        assert(pow256(67) == 256 * pow256(66));
    }
    let lifted = digits_add(am.bytes.as_slice(), m.bytes.as_slice());
    let lifted = trim(lifted.as_slice(), 67);
    let diff = digits_sub(lifted.as_slice(), bm.bytes.as_slice());
    let diff = trim(diff.as_slice(), 67);
    let r = reduce_bytes(diff.as_slice(), m);
    proof {
        let mi = m@ as int;
        let x = a@ as int;
        let y = b@ as int;
        lemma_sub_mod_noop(x, y, mi);
        lemma_mod_multiples_vanish(1, x % mi - y % mi, mi);
        assert(mi * 1 + (x % mi - y % mi) == x % mi + mi - y % mi);
    }
    r
}

/// `(a * b) mod m`.
pub fn mul_mod_big(a: &Big, b: &Big, m: &Big) -> (r: Big)
    requires
        m@ > 0,
    ensures
        r@ == mul_mod(a@, b@, m@),
{
    let product = digits_mul(a.bytes.as_slice(), b.bytes.as_slice());
    proof {
        lemma_be_value_bound(a.bytes@);
        lemma_be_value_bound(b.bytes@);
        lemma_pow256_add(66, 66);
        let x = a@;
        let y = b@;
        let bound = pow256(66);
        assert(x * y < bound * bound) by (nonlinear_arith)
            requires
                x < bound,
                y < bound,
        ;
    }
    let product = trim(product.as_slice(), 132);
    reduce_bytes(product.as_slice(), m)
}

/// The inverse of `a` modulo `m`, or zero where `a` has none.
pub fn inv_mod_big(a: &Big, m: &Big) -> (r: Big)
    requires
        m@ > 1,
    ensures
        r@ == inv_mod(a@, m@),
        has_inverse(a@, m@) ==> is_inverse(a@, r@, m@),
{
    match digits_invert(a.bytes.as_slice(), m.bytes.as_slice()) {
        Some(w) => {
            proof {
                lemma_be_value_bound(m.bytes@);
                lemma_inv_mod_is(a@, be_value(w@), m@);
            }
            fit(w.as_slice())
        },
        None => Big::zero(),
    }
}

} // verus!
