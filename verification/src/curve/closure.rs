//! Why the sum of two points of an Edwards curve is again on the curve.
//!
//! The argument is carried out over the integers, for any modulus and any
//! curve constant `d`: a congruence is an equation with a multiple of the
//! modulus on one side.
use vstd::arithmetic::div_mod::{
    lemma_add_mod_noop, lemma_mul_mod_noop_general, lemma_small_mod, lemma_sub_mod_noop,
};
use vstd::prelude::*;

verus! {

/// What is left of the curve equation at `(x, y)`:
/// `x^2 + y^2 - 1 - d x^2 y^2`.
pub open spec fn residue(x: int, y: int, d: int) -> int {
    x * x + y * y - 1 - d * ((x * x) * (y * y))
}

/// Numerator of the x-coordinate of a sum.
pub open spec fn sum_num_x(x1: int, y1: int, x2: int, y2: int) -> int {
    x1 * y2 + y1 * x2
}

/// Numerator of the y-coordinate of a sum.
pub open spec fn sum_num_y(x1: int, y1: int, x2: int, y2: int) -> int {
    y1 * y2 - x1 * x2
}

/// The product `d x1 x2 y1 y2` that both denominators of a sum hold.
pub open spec fn sum_cross(x1: int, y1: int, x2: int, y2: int, d: int) -> int {
    d * ((x1 * x2) * (y1 * y2))
}

/// The curve equation at `(a / (1 + t), b / (1 - t))`, cleared of its
/// denominators.
pub open spec fn cleared(a: int, b: int, t: int, d: int) -> int {
    (a * a) * ((1 - t) * (1 - t)) + (b * b) * ((1 + t) * (1 + t)) - ((1 + t) * (1 + t)) * ((1
        - t) * (1 - t)) - d * ((a * a) * (b * b))
}

/// The cleared equation in terms of `s1 = x1^2 + y1^2`, `s2 = x2^2 + y2^2`,
/// `al = d x1^2 y1^2` and `be = d x2^2 y2^2`.
pub open spec fn cleared_sym(s1: int, s2: int, al: int, be: int) -> int {
    (s1 * s2) * (1 + al * be) - 1 + 2 * (al * be) - (al * be) * (al * be) - al * (s2 * s2) - be
        * (s1 * s1)
}

/// The symmetric form is a combination of `s1 - 1 - al` and `s2 - 1 - be`.
proof fn lemma_cleared_sym_combination(s1: int, s2: int, al: int, be: int) -> (w: (int, int))
    ensures
        cleared_sym(s1, s2, al, be) == (s1 - 1 - al) * w.0 + (s2 - 1 - be) * w.1,
{
    let e1 = s1 - 1 - al;
    let e2 = s2 - 1 - be;
    let t1 = 1 + al;
    let t2 = 1 + be;
    let k = al * be;
    let plus1 = s1 + t1;
    let plus2 = s2 + t2;
    let w0 = s2 * (1 + k) - be * plus1;
    let w1 = t1 * (1 + k) - al * plus2;
    // at s1 = t1, s2 = t2 the form vanishes
    let z = (t1 * t2) * (1 + k) - 1 + 2 * k - k * k - al * (t2 * t2) - be * (t1 * t1);
    assert(z == 0) by (nonlinear_arith)
        requires
            t1 == 1 + al,
            t2 == 1 + be,
            k == al * be,
            z == (t1 * t2) * (1 + k) - 1 + 2 * k - k * k - al * (t2 * t2) - be * (t1 * t1),
    ;
    let full = (s1 * s2) * (1 + k) - 1 + 2 * k - k * k - al * (s2 * s2) - be * (s1 * s1);
    assert(s1 * s2 - t1 * t2 == e1 * s2 + t1 * e2) by (nonlinear_arith)
        requires
            s1 == t1 + e1,
            s2 == t2 + e2,
    ;
    assert(s2 * s2 - t2 * t2 == e2 * plus2) by (nonlinear_arith)
        requires
            s2 == t2 + e2,
            plus2 == s2 + t2,
    ;
    assert(s1 * s1 - t1 * t1 == e1 * plus1) by (nonlinear_arith)
        requires
            s1 == t1 + e1,
            plus1 == s1 + t1,
    ;
    let ds = s1 * s2 - t1 * t2;
    let d2 = s2 * s2 - t2 * t2;
    let d1 = s1 * s1 - t1 * t1;
    assert(full - z == ds * (1 + k) - al * d2 - be * d1) by (nonlinear_arith)
        requires
            full == (s1 * s2) * (1 + k) - 1 + 2 * k - k * k - al * (s2 * s2) - be * (s1 * s1),
            z == (t1 * t2) * (1 + k) - 1 + 2 * k - k * k - al * (t2 * t2) - be * (t1 * t1),
            ds == s1 * s2 - t1 * t2,
            d2 == s2 * s2 - t2 * t2,
            d1 == s1 * s1 - t1 * t1,
    ;
    let kk = 1 + k;
    let q0 = s2 * kk;
    let q1 = t1 * kk;
    let r0 = be * plus1;
    let r1 = al * plus2;
    assert(ds * kk == e1 * q0 + e2 * q1) by (nonlinear_arith)
        requires
            ds == e1 * s2 + t1 * e2,
            q0 == s2 * kk,
            q1 == t1 * kk,
    ;
    assert(al * d2 == e2 * r1) by (nonlinear_arith)
        requires
            d2 == e2 * plus2,
            r1 == al * plus2,
    ;
    assert(be * d1 == e1 * r0) by (nonlinear_arith)
        requires
            d1 == e1 * plus1,
            r0 == be * plus1,
    ;
    assert(e1 * w0 == e1 * q0 - e1 * r0) by (nonlinear_arith)
        requires
            w0 == q0 - r0,
    ;
    assert(e2 * w1 == e2 * q1 - e2 * r1) by (nonlinear_arith)
        requires
            w1 == q1 - r1,
    ;
    (w0, w1)
}

/// The cleared equation of a sum, written in the symmetric form.
proof fn lemma_cleared_is_sym(x1: int, y1: int, x2: int, y2: int, d: int)
    ensures
        cleared(
            sum_num_x(x1, y1, x2, y2),
            sum_num_y(x1, y1, x2, y2),
            sum_cross(x1, y1, x2, y2, d),
            d,
        ) == cleared_sym(
            x1 * x1 + y1 * y1,
            x2 * x2 + y2 * y2,
            d * ((x1 * x1) * (y1 * y1)),
            d * ((x2 * x2) * (y2 * y2)),
        ),
{
    let a = x1 * x1;
    let b = y1 * y1;
    let c = x2 * x2;
    let e = y2 * y2;
    let m = (x1 * x2) * (y1 * y2);
    let u = a * b;
    let v = c * e;
    let s1 = a + b;
    let s2 = c + e;
    let g = a * e + b * c;
    let h = b * e + a * c;
    let w = g - h;
    let na = sum_num_x(x1, y1, x2, y2);
    let nb = sum_num_y(x1, y1, x2, y2);
    let t = sum_cross(x1, y1, x2, y2, d);
    let a2 = na * na;
    let b2 = nb * nb;
    let t2 = t * t;
    let mm = m * m;
    let al = d * u;
    let be = d * v;
    let k = al * be;
    // squares of the numerators
    let p = x1 * y2;
    let q = y1 * x2;
    assert(p * p == a * e) by (nonlinear_arith)
        requires
            p == x1 * y2,
            a == x1 * x1,
            e == y2 * y2,
    ;
    assert(q * q == b * c) by (nonlinear_arith)
        requires
            q == y1 * x2,
            b == y1 * y1,
            c == x2 * x2,
    ;
    assert(p * q == m) by (nonlinear_arith)
        requires
            p == x1 * y2,
            q == y1 * x2,
            m == (x1 * x2) * (y1 * y2),
    ;
    assert((p + q) * (p + q) == p * p + 2 * (p * q) + q * q) by (nonlinear_arith);
    assert(a2 == g + 2 * m);
    let r = y1 * y2;
    let z = x1 * x2;
    assert(r * r == b * e) by (nonlinear_arith)
        requires
            r == y1 * y2,
            b == y1 * y1,
            e == y2 * y2,
    ;
    assert(z * z == a * c) by (nonlinear_arith)
        requires
            z == x1 * x2,
            a == x1 * x1,
            c == x2 * x2,
    ;
    assert(r * z == m) by (nonlinear_arith)
        requires
            m == z * r,
    ;
    assert((r - z) * (r - z) == r * r - 2 * (r * z) + z * z) by (nonlinear_arith);
    assert(b2 == h - 2 * m);
    assert(mm == u * v) by (nonlinear_arith)
        requires
            mm == m * m,
            m == z * r,
            z * z == a * c,
            r * r == b * e,
            u == a * b,
            v == c * e,
    ;
    assert(g + h == s1 * s2) by (nonlinear_arith)
        requires
            g == a * e + b * c,
            h == b * e + a * c,
            s1 == a + b,
            s2 == c + e,
    ;
    let gh = g * h;
    let ae = a * e;
    let bc = b * c;
    let be_ = b * e;
    let ac = a * c;
    let aa = a * a;
    let bb = b * b;
    let cc = c * c;
    let ee = e * e;
    assert(ae * be_ == u * ee) by (nonlinear_arith)
        requires
            ae == a * e,
            be_ == b * e,
            u == a * b,
            ee == e * e,
    ;
    assert(ae * ac == v * aa) by (nonlinear_arith)
        requires
            ae == a * e,
            ac == a * c,
            v == c * e,
            aa == a * a,
    ;
    assert(bc * be_ == v * bb) by (nonlinear_arith)
        requires
            bc == b * c,
            be_ == b * e,
            v == c * e,
            bb == b * b,
    ;
    assert(bc * ac == u * cc) by (nonlinear_arith)
        requires
            bc == b * c,
            ac == a * c,
            u == a * b,
            cc == c * c,
    ;
    assert(gh == ae * be_ + ae * ac + bc * be_ + bc * ac) by (nonlinear_arith)
        requires
            gh == g * h,
            g == ae + bc,
            h == be_ + ac,
    ;
    assert(s2 * s2 == cc + 2 * v + ee) by (nonlinear_arith)
        requires
            s2 == c + e,
            cc == c * c,
            ee == e * e,
            v == c * e,
    ;
    assert(s1 * s1 == aa + 2 * u + bb) by (nonlinear_arith)
        requires
            s1 == a + b,
            aa == a * a,
            bb == b * b,
            u == a * b,
    ;
    assert(u * (s2 * s2) == u * cc + 2 * (u * v) + u * ee) by (nonlinear_arith)
        requires
            s2 * s2 == cc + 2 * v + ee,
    ;
    assert(v * (s1 * s1) == v * aa + 2 * (u * v) + v * bb) by (nonlinear_arith)
        requires
            s1 * s1 == aa + 2 * u + bb,
    ;
    assert(gh == u * (s2 * s2) + v * (s1 * s1) - 4 * (u * v));
    // the four parts of the cleared equation
    let om = (1 - t) * (1 - t);
    let op = (1 + t) * (1 + t);
    assert(a2 * om + b2 * op == (a2 + b2) * (1 + t2) - 2 * (t * (a2 - b2))) by (nonlinear_arith)
        requires
            om == (1 - t) * (1 - t),
            op == (1 + t) * (1 + t),
            t2 == t * t,
    ;
    assert(op * om == 1 - 2 * t2 + t2 * t2) by (nonlinear_arith)
        requires
            om == (1 - t) * (1 - t),
            op == (1 + t) * (1 + t),
            t2 == t * t,
    ;
    let mw = m * w;
    assert(a2 * b2 == gh - 2 * mw - 4 * mm) by (nonlinear_arith)
        requires
            a2 == g + 2 * m,
            b2 == h - 2 * m,
            gh == g * h,
            mw == m * (g - h),
            mm == m * m,
    ;
    assert(t2 == k) by (nonlinear_arith)
        requires
            t2 == t * t,
            t == d * m,
            m * m == u * v,
            k == (d * u) * (d * v),
    ;
    let dmw = d * mw;
    let dmm = d * mm;
    assert(t * (a2 - b2) == dmw + 4 * dmm) by (nonlinear_arith)
        requires
            t == d * m,
            a2 - b2 == w + 4 * m,
            dmw == d * (m * w),
            dmm == d * (m * m),
    ;
    assert(d * (a2 * b2) == d * gh - 2 * dmw - 4 * dmm) by (nonlinear_arith)
        requires
            a2 * b2 == gh - 2 * mw - 4 * mm,
            dmw == d * mw,
            dmm == d * mm,
    ;
    assert(d * gh == al * (s2 * s2) + be * (s1 * s1) - 4 * dmm) by (nonlinear_arith)
        requires
            gh == u * (s2 * s2) + v * (s1 * s1) - 4 * (u * v),
            al == d * u,
            be == d * v,
            dmm == d * mm,
            mm == u * v,
    ;
    assert((a2 + b2) * (1 + t2) == (s1 * s2) * (1 + k));
}

/// Congruent factors give congruent products.
pub proof fn lemma_cong_mul(a: int, b: int, c: int, e: int, p: int)
    requires
        p > 0,
        a % p == b % p,
        c % p == e % p,
    ensures
        (a * c) % p == (b * e) % p,
{
    lemma_mul_mod_noop_general(a, c, p);
    lemma_mul_mod_noop_general(b, e, p);
}

/// Congruent terms give congruent sums.
pub proof fn lemma_cong_add(a: int, b: int, c: int, e: int, p: int)
    requires
        p > 0,
        a % p == b % p,
        c % p == e % p,
    ensures
        (a + c) % p == (b + e) % p,
{
    lemma_add_mod_noop(a, c, p);
    lemma_add_mod_noop(b, e, p);
}

/// Congruent terms give congruent differences.
pub proof fn lemma_cong_sub(a: int, b: int, c: int, e: int, p: int)
    requires
        p > 0,
        a % p == b % p,
        c % p == e % p,
    ensures
        (a - c) % p == (b - e) % p,
{
    lemma_sub_mod_noop(a, c, p);
    lemma_sub_mod_noop(b, e, p);
}

/// A product with a factor that is a multiple of the modulus is one too.
pub proof fn lemma_cong_zero_mul(a: int, c: int, p: int)
    requires
        p > 0,
        a % p == 0,
    ensures
        (a * c) % p == 0,
{
    lemma_small_mod(0, p as nat);
    lemma_cong_mul(a, 0, c, c, p);
    assert(0 * c == 0) by (nonlinear_arith);
}

/// The cleared equation of a sum is a combination of the residues of the two
/// points.
pub proof fn lemma_cleared_vanishes(x1: int, y1: int, x2: int, y2: int, d: int, p: int)
    requires
        p > 0,
        residue(x1, y1, d) % p == 0,
        residue(x2, y2, d) % p == 0,
    ensures
        cleared(
            sum_num_x(x1, y1, x2, y2),
            sum_num_y(x1, y1, x2, y2),
            sum_cross(x1, y1, x2, y2, d),
            d,
        ) % p == 0,
{
    lemma_cleared_is_sym(x1, y1, x2, y2, d);
    let w = lemma_cleared_sym_combination(
        x1 * x1 + y1 * y1,
        x2 * x2 + y2 * y2,
        d * ((x1 * x1) * (y1 * y1)),
        d * ((x2 * x2) * (y2 * y2)),
    );
    let r1 = residue(x1, y1, d);
    let r2 = residue(x2, y2, d);
    lemma_cong_zero_mul(r1, w.0, p);
    lemma_cong_zero_mul(r2, w.1, p);
    lemma_cong_add(r1 * w.0, 0, r2 * w.1, 0, p);
}

/// Closure, over the integers: if `(x1, y1)` and `(x2, y2)` satisfy the
/// curve equation modulo `p`, `i1` and `i2` are inverses of the two
/// denominators, and `x3`, `y3` are congruent to numerator times inverse,
/// then `(x3, y3)` satisfies the curve equation modulo `p`.
pub proof fn lemma_quotients_on_curve(
    x1: int,
    y1: int,
    x2: int,
    y2: int,
    d: int,
    p: int,
    i1: int,
    i2: int,
    x3: int,
    y3: int,
)
    requires
        p > 1,
        residue(x1, y1, d) % p == 0,
        residue(x2, y2, d) % p == 0,
        ((1 + sum_cross(x1, y1, x2, y2, d)) * i1) % p == 1,
        ((1 - sum_cross(x1, y1, x2, y2, d)) * i2) % p == 1,
        x3 % p == (sum_num_x(x1, y1, x2, y2) * i1) % p,
        y3 % p == (sum_num_y(x1, y1, x2, y2) * i2) % p,
    ensures
        residue(x3, y3, d) % p == 0,
{
    let na = sum_num_x(x1, y1, x2, y2);
    let nb = sum_num_y(x1, y1, x2, y2);
    let t = sum_cross(x1, y1, x2, y2, d);
    let d1 = 1 + t;
    let d2 = 1 - t;
    lemma_small_mod(1, p as nat);
    // x3 * d1 is congruent to na, y3 * d2 to nb
    let al = x3 * d1;
    let be = y3 * d2;
    assert(al % p == na % p) by {
        lemma_cong_mul(x3, na * i1, d1, d1, p);
        assert((na * i1) * d1 == na * (d1 * i1)) by (nonlinear_arith);
        lemma_cong_mul(na, na, d1 * i1, 1, p);
        assert(na * 1 == na);
    }
    assert(be % p == nb % p) by {
        lemma_cong_mul(y3, nb * i2, d2, d2, p);
        assert((nb * i2) * d2 == nb * (d2 * i2)) by (nonlinear_arith);
        lemma_cong_mul(nb, nb, d2 * i2, 1, p);
        assert(nb * 1 == nb);
    }
    // the cleared equation at (al, be) is congruent to the one at (na, nb)
    let om = d2 * d2;
    let op = d1 * d1;
    lemma_cong_mul(al, na, al, na, p);
    lemma_cong_mul(be, nb, be, nb, p);
    lemma_cong_mul(al * al, na * na, om, om, p);
    lemma_cong_mul(be * be, nb * nb, op, op, p);
    lemma_cong_mul(al * al, na * na, be * be, nb * nb, p);
    lemma_cong_mul(d, d, (al * al) * (be * be), (na * na) * (nb * nb), p);
    lemma_cong_add((al * al) * om, (na * na) * om, (be * be) * op, (nb * nb) * op, p);
    lemma_cong_sub(
        (al * al) * om + (be * be) * op,
        (na * na) * om + (nb * nb) * op,
        op * om,
        op * om,
        p,
    );
    lemma_cong_sub(
        (al * al) * om + (be * be) * op - op * om,
        (na * na) * om + (nb * nb) * op - op * om,
        d * ((al * al) * (be * be)),
        d * ((na * na) * (nb * nb)),
        p,
    );
    lemma_cleared_vanishes(x1, y1, x2, y2, d, p);
    let qa = (al * al) * om + (be * be) * op - op * om - d * ((al * al) * (be * be));
    assert(qa % p == 0);
    // qa is the residue at (x3, y3) times the squares of the denominators
    let res = residue(x3, y3, d);
    let n = op * om;
    let xx = x3 * x3;
    let yy = y3 * y3;
    assert(al * al == xx * op) by (nonlinear_arith)
        requires
            al == x3 * d1,
            xx == x3 * x3,
            op == d1 * d1,
    ;
    assert(be * be == yy * om) by (nonlinear_arith)
        requires
            be == y3 * d2,
            yy == y3 * y3,
            om == d2 * d2,
    ;
    assert((xx * op) * om == xx * n) by (nonlinear_arith)
        requires
            n == op * om,
    ;
    assert((yy * om) * op == yy * n) by (nonlinear_arith)
        requires
            n == op * om,
    ;
    assert((xx * op) * (yy * om) == (xx * yy) * n) by (nonlinear_arith)
        requires
            n == op * om,
    ;
    assert(d * ((xx * yy) * n) == (d * (xx * yy)) * n) by (nonlinear_arith);
    assert(res * n == xx * n + yy * n - n - (d * (xx * yy)) * n) by (nonlinear_arith)
        requires
            res == xx + yy - 1 - d * (xx * yy),
    ;
    assert(qa == res * n);
    // n has an inverse, the square of i1 * i2
    let j = i1 * i2;
    let f = (d1 * i1) * (d2 * i2);
    lemma_cong_mul(d1 * i1, 1, d2 * i2, 1, p);
    lemma_cong_mul(f, 1, f, 1, p);
    assert(f * f == n * (j * j)) by (nonlinear_arith)
        requires
            f == (d1 * i1) * (d2 * i2),
            n == (d1 * d1) * (d2 * d2),
            j == i1 * i2,
    ;
    assert((n * (j * j)) % p == 1);
    lemma_cong_mul(res, res, n * (j * j), 1, p);
    assert(res * 1 == res);
    assert(res * (n * (j * j)) == (res * n) * (j * j)) by (nonlinear_arith);
    lemma_cong_zero_mul(res * n, j * j, p);
}

} // verus!
