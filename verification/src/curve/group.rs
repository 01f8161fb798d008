//! Laws of the addition of points.
//!
//! Commutativity, the neutral element and opposites are proved here.
//! Associativity is not: it is stated as the predicate `associative`, and
//! what follows from it for multiples of a point is proved from it.
use crate::big::is_inverse;
use crate::curve::closure::{lemma_cong_add, lemma_cong_mul, lemma_cong_sub, residue};
use crate::curve::e521::{
    add_points_mod, cross_mod, lemma_add_on_curve, lemma_mul_on_curve, lemma_neutral_on_curve,
    mul_point_mod, neg_point_mod, neutral, on_curve_mod,
};
use crate::modular::{add_mod, has_inverse, inv_mod, lemma_inv_mod_is, mul_mod, sub_mod};
use vstd::arithmetic::div_mod::{
    lemma_mod_bound, lemma_mod_equivalence, lemma_mod_twice, lemma_small_mod,
};
use vstd::prelude::*;

verus! {

/// The product modulo `p` does not depend on the order of its factors.
pub proof fn lemma_mul_mod_commutative(a: nat, b: nat, p: nat)
    ensures
        mul_mod(a, b, p) == mul_mod(b, a, p),
{
    assert(a * b == b * a) by (nonlinear_arith);
}

/// The sum of two points does not depend on their order.
pub proof fn lemma_add_commutative(a: (nat, nat), b: (nat, nat), p: nat, d: nat)
    ensures
        add_points_mod(a, b, p, d) == add_points_mod(b, a, p, d),
{
    lemma_mul_mod_commutative(a.0, b.0, p);
    lemma_mul_mod_commutative(a.1, b.1, p);
    lemma_mul_mod_commutative(a.0, b.1, p);
    lemma_mul_mod_commutative(a.1, b.0, p);
}

/// One is its own inverse.
pub proof fn lemma_inverse_of_one(p: nat)
    requires
        p > 1,
    ensures
        has_inverse(1, p),
        inv_mod(1, p) == 1,
{
    lemma_small_mod(1, p);
    assert(is_inverse(1, 1, p));
    lemma_inv_mod_is(1, 1, p);
}

/// Adding the neutral element changes nothing.
pub proof fn lemma_add_neutral(a: (nat, nat), p: nat, d: nat)
    requires
        p > 1,
        a.0 < p,
        a.1 < p,
    ensures
        add_points_mod(a, neutral(), p, d) == a,
        add_points_mod(neutral(), a, p, d) == a,
{
    lemma_add_commutative(a, neutral(), p, d);
    lemma_inverse_of_one(p);
    lemma_small_mod(0, p);
    lemma_small_mod(1, p);
    lemma_small_mod(a.0, p);
    lemma_small_mod(a.1, p);
    assert(a.0 * 0 == 0 && a.1 * 0 == 0 && d * 0 == 0 && 0 * a.1 == 0) by (nonlinear_arith);
    assert(a.0 * 1 == a.0 && a.1 * 1 == a.1) by (nonlinear_arith);
    assert(cross_mod(a, neutral(), p, d) == 0);
}

/// A point and its opposite add up to the neutral element.
pub proof fn lemma_add_opposite(a: (nat, nat), p: nat, d: nat)
    requires
        p > 1,
        on_curve_mod(a, p, d),
    ensures
        add_points_mod(a, neg_point_mod(a, p), p, d) == neutral(),
{
    let b = neg_point_mod(a, p);
    let t = cross_mod(a, b, p, d);
    let den_x = add_mod(1, t, p);
    let den_y = sub_mod(1, t, p);
    if has_inverse(den_x, p) && has_inverse(den_y, p) {
        let pi = p as int;
        let di = d as int;
        let x = a.0 as int;
        let y = a.1 as int;
        let nx = b.0 as int;
        lemma_mod_bound(0 - x, pi);
        lemma_mod_twice(0 - x, pi);
        lemma_small_mod(0, p);
        lemma_small_mod(1, p);
        // the numerator of x is zero
        let xy = mul_mod(a.0, b.1, p) as int;
        let ynx = mul_mod(a.1, b.0, p) as int;
        lemma_mod_twice(x * y, pi);
        lemma_mod_twice(y * nx, pi);
        lemma_cong_mul(y, y, nx, 0 - x, pi);
        lemma_cong_add(xy, x * y, ynx, y * (0 - x), pi);
        assert(x * y + y * (0 - x) == 0) by (nonlinear_arith);
        let num_x = add_mod(xy as nat, ynx as nat, p);
        lemma_mod_twice(xy + ynx, pi);
        assert(num_x == 0);
        assert(0 * inv_mod(den_x, p) == 0) by (nonlinear_arith);
        // the numerator of y is the denominator of y
        let yy = mul_mod(a.1, b.1, p) as int;
        let xnx = mul_mod(a.0, b.0, p) as int;
        lemma_mod_twice(y * y, pi);
        lemma_mod_twice(x * nx, pi);
        lemma_cong_mul(x, x, nx, 0 - x, pi);
        assert(x * (0 - x) == 0 - x * x) by (nonlinear_arith);
        let num_y = sub_mod(yy as nat, xnx as nat, p);
        lemma_cong_sub(yy, y * y, xnx, 0 - x * x, pi);
        lemma_mod_bound(yy - xnx, pi);
        lemma_mod_twice(yy - xnx, pi);
        assert((num_y as int) % pi == (y * y + x * x) % pi);
        let m3 = mul_mod(xnx as nat, yy as nat, p) as int;
        lemma_mod_twice(xnx * yy, pi);
        lemma_cong_mul(xnx, 0 - x * x, yy, y * y, pi);
        lemma_cong_mul(di, di, m3, (0 - x * x) * (y * y), pi);
        lemma_mod_twice(di * m3, pi);
        assert(di * ((0 - x * x) * (y * y)) == 0 - di * ((x * x) * (y * y))) by (nonlinear_arith);
        lemma_cong_sub(1, 1, t as int, 0 - di * ((x * x) * (y * y)), pi);
        lemma_mod_bound(1 - t, pi);
        lemma_mod_twice(1 - t, pi);
        assert((den_y as int) % pi == (1 + di * ((x * x) * (y * y))) % pi);
        lemma_mod_equivalence(y * y + x * x, 1 + di * ((x * x) * (y * y)), pi);
        assert(y * y + x * x - (1 + di * ((x * x) * (y * y))) == residue(x, y, di));
        lemma_small_mod(num_y, p);
        lemma_small_mod(den_y, p);
        assert(num_y == den_y);
    }
}

/// `k` times a point, by adding it `k` times to the neutral element.
pub open spec fn repeated(k: nat, a: (nat, nat), p: nat, d: nat) -> (nat, nat)
    decreases k,
{
    if k == 0 {
        neutral()
    } else {
        add_points_mod(repeated((k - 1) as nat, a, p, d), a, p, d)
    }
}

/// Associativity of the addition of points of the curve.
pub open spec fn associative(p: nat, d: nat) -> bool {
    forall|a: (nat, nat), b: (nat, nat), c: (nat, nat)|
        on_curve_mod(a, p, d) && on_curve_mod(b, p, d) && on_curve_mod(c, p, d)
            ==> #[trigger] add_points_mod(add_points_mod(a, b, p, d), c, p, d) == add_points_mod(
            a,
            add_points_mod(b, c, p, d),
            p,
            d,
        )
}

/// A point added up `k` times is on the curve.
pub proof fn lemma_repeated_on_curve(k: nat, a: (nat, nat), p: nat, d: nat)
    requires
        p > 1,
        on_curve_mod(a, p, d),
    ensures
        on_curve_mod(repeated(k, a, p, d), p, d),
    decreases k,
{
    if k == 0 {
        lemma_neutral_on_curve(p, d);
    } else {
        lemma_repeated_on_curve((k - 1) as nat, a, p, d);
        lemma_add_on_curve(repeated((k - 1) as nat, a, p, d), a, p, d);
    }
}

/// Given associativity, `(i + j) a = i a + j a`.
pub proof fn lemma_repeated_sum(i: nat, j: nat, a: (nat, nat), p: nat, d: nat)
    requires
        p > 1,
        on_curve_mod(a, p, d),
        associative(p, d),
    ensures
        repeated(i + j, a, p, d) == add_points_mod(repeated(i, a, p, d), repeated(j, a, p, d), p, d),
    decreases j,
{
    lemma_repeated_on_curve(i, a, p, d);
    if j == 0 {
        lemma_add_neutral(repeated(i, a, p, d), p, d);
    } else {
        let jm = (j - 1) as nat;
        lemma_repeated_sum(i, jm, a, p, d);
        lemma_repeated_on_curve(jm, a, p, d);
        assert(repeated(i + j, a, p, d) == add_points_mod(repeated(i + jm, a, p, d), a, p, d));
        assert(add_points_mod(
            add_points_mod(repeated(i, a, p, d), repeated(jm, a, p, d), p, d),
            a,
            p,
            d,
        ) == add_points_mod(
            repeated(i, a, p, d),
            add_points_mod(repeated(jm, a, p, d), a, p, d),
            p,
            d,
        ));
    }
}

/// Given associativity, doubling and adding along the bits of `k` gives
/// the point added up `k` times.
pub proof fn lemma_mul_is_repeated(k: nat, a: (nat, nat), p: nat, d: nat)
    requires
        p > 1,
        on_curve_mod(a, p, d),
        associative(p, d),
    ensures
        mul_point_mod(k, a, p, d) == repeated(k, a, p, d),
    decreases k,
{
    if k > 0 {
        let h = k / 2;
        lemma_mul_is_repeated(h, a, p, d);
        lemma_repeated_sum(h, h, a, p, d);
        if k % 2 == 1 {
            assert(k == h + h + 1);
        } else {
            assert(k == h + h);
        }
    }
}

/// The neutral element added up any number of times is the neutral element.
pub proof fn lemma_repeated_neutral(k: nat, p: nat, d: nat)
    requires
        p > 1,
    ensures
        repeated(k, neutral(), p, d) == neutral(),
    decreases k,
{
    if k > 0 {
        lemma_repeated_neutral((k - 1) as nat, p, d);
        lemma_add_neutral(neutral(), p, d);
    }
}

/// Given associativity, `i (j a) = (i j) a`.
pub proof fn lemma_repeated_repeated(i: nat, j: nat, a: (nat, nat), p: nat, d: nat)
    requires
        p > 1,
        on_curve_mod(a, p, d),
        associative(p, d),
    ensures
        repeated(i, repeated(j, a, p, d), p, d) == repeated(i * j, a, p, d),
    decreases i,
{
    if i == 0 {
        assert(0 * j == 0) by (nonlinear_arith);
    } else {
        let im = (i - 1) as nat;
        lemma_repeated_repeated(im, j, a, p, d);
        lemma_repeated_sum(im * j, j, a, p, d);
        assert(i * j == im * j + j) by (nonlinear_arith)
            requires
                im == i - 1,
        ;
    }
}

/// Given associativity, multiples commute: `i (j a) = j (i a)`.
pub proof fn lemma_multiples_commute(i: nat, j: nat, a: (nat, nat), p: nat, d: nat)
    requires
        p > 1,
        on_curve_mod(a, p, d),
        associative(p, d),
    ensures
        mul_point_mod(i, mul_point_mod(j, a, p, d), p, d) == mul_point_mod(
            j,
            mul_point_mod(i, a, p, d),
            p,
            d,
        ),
{
    lemma_mul_on_curve(i, a, p, d);
    lemma_mul_on_curve(j, a, p, d);
    lemma_mul_is_repeated(i, a, p, d);
    lemma_mul_is_repeated(j, a, p, d);
    lemma_mul_is_repeated(i, mul_point_mod(j, a, p, d), p, d);
    lemma_mul_is_repeated(j, mul_point_mod(i, a, p, d), p, d);
    lemma_repeated_repeated(i, j, a, p, d);
    lemma_repeated_repeated(j, i, a, p, d);
    assert(i * j == j * i) by (nonlinear_arith);
}

/// Given associativity and a point `a` with `r a` neutral, adding a
/// multiple of `r` to a scalar does not change the multiple of `a`.
pub proof fn lemma_repeated_plus_order(k: nat, q: nat, r: nat, a: (nat, nat), p: nat, d: nat)
    requires
        p > 1,
        on_curve_mod(a, p, d),
        associative(p, d),
        repeated(r, a, p, d) == neutral(),
    ensures
        repeated(k + q * r, a, p, d) == repeated(k, a, p, d),
{
    lemma_repeated_sum(k, q * r, a, p, d);
    lemma_repeated_repeated(q, r, a, p, d);
    lemma_repeated_neutral(q, p, d);
    lemma_repeated_on_curve(k, a, p, d);
    lemma_add_neutral(repeated(k, a, p, d), p, d);
}

} // verus!
