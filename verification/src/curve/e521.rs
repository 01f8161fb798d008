//! Points of E521 and their arithmetic.
//!
//! A point is a pair `(x, y)` of residues modulo `p` with
//! `x^2 + y^2 = 1 + d x^2 y^2`. The neutral element is `(0, 1)`.
//!
//! The sum of `(x1, y1)` and `(x2, y2)` is
//! `((x1 y2 + y1 x2) / (1 + t), (y1 y2 - x1 x2) / (1 - t))` with
//! `t = d x1 x2 y1 y2`. On E521 neither denominator of two points of the
//! curve is zero, because `d` is not a square modulo `p`. That fact is not
//! proved here, so the sum is defined for every pair of pairs: where a
//! denominator has no inverse, it is the neutral element.
use crate::big::{be_value, is_inverse, Big};
use crate::curve::closure::{
    lemma_cong_add, lemma_cong_mul, lemma_cong_sub, lemma_quotients_on_curve, residue,
    sum_cross, sum_num_x, sum_num_y,
};
use crate::curve::params::{
    curve_constant, curve_d, field_prime, generator_x, generator_x_coordinate, generator_y,
    generator_y_coordinate, number_of_points, order_r, p521, point_count, subgroup_order,
};
use crate::curve::params::lemma_be_value_take_next;
use crate::modular::{
    add_mod, add_mod_big, has_inverse, inv_mod, inv_mod_big, mul_mod, mul_mod_big, reduce_bytes,
    sub_mod, sub_mod_big,
};
use crate::CryptoError;
use crate::E521;
use vstd::arithmetic::div_mod::{
    lemma_mod_bound, lemma_mod_equivalence, lemma_mod_multiples_vanish, lemma_mod_twice,
    lemma_small_mod,
};
use vstd::prelude::*;

verus! {

/// Whether `(x, y)` is a point of the curve with constant `d` over the
/// integers modulo `p`.
pub open spec fn on_curve_mod(a: (nat, nat), p: nat, d: nat) -> bool {
    a.0 < p && a.1 < p && residue(a.0 as int, a.1 as int, d as int) % (p as int) == 0
}

/// The neutral element `(0, 1)`.
pub open spec fn neutral() -> (nat, nat) {
    (0, 1)
}

/// The product `d x1 x2 y1 y2` modulo `p`.
pub open spec fn cross_mod(a: (nat, nat), b: (nat, nat), p: nat, d: nat) -> nat {
    mul_mod(d, mul_mod(mul_mod(a.0, b.0, p), mul_mod(a.1, b.1, p), p), p)
}

/// The sum of two points on the curve with constant `d` modulo `p`.
pub open spec fn add_points_mod(a: (nat, nat), b: (nat, nat), p: nat, d: nat) -> (nat, nat) {
    let t = cross_mod(a, b, p, d);
    let den_x = add_mod(1, t, p);
    let den_y = sub_mod(1, t, p);
    if has_inverse(den_x, p) && has_inverse(den_y, p) {
        (
            mul_mod(
                add_mod(mul_mod(a.0, b.1, p), mul_mod(a.1, b.0, p), p),
                inv_mod(den_x, p),
                p,
            ),
            mul_mod(
                sub_mod(mul_mod(a.1, b.1, p), mul_mod(a.0, b.0, p), p),
                inv_mod(den_y, p),
                p,
            ),
        )
    } else {
        neutral()
    }
}

/// The opposite of a point: the x-coordinate changes its sign.
pub open spec fn neg_point_mod(a: (nat, nat), p: nat) -> (nat, nat) {
    (sub_mod(0, a.0, p), a.1)
}

/// `k` times a point, by doubling and adding along the bits of `k` from the
/// most significant one down.
pub open spec fn mul_point_mod(k: nat, a: (nat, nat), p: nat, d: nat) -> (nat, nat)
    decreases k,
{
    if k == 0 {
        neutral()
    } else {
        let half = mul_point_mod(k / 2, a, p, d);
        let doubled = add_points_mod(half, half, p, d);
        if k % 2 == 1 {
            add_points_mod(doubled, a, p, d)
        } else {
            doubled
        }
    }
}

/// Whether `a` is a point of E521.
pub open spec fn on_curve(a: (nat, nat)) -> bool {
    on_curve_mod(a, p521(), curve_d())
}

/// The sum of two points of E521.
pub open spec fn edwards_add(a: (nat, nat), b: (nat, nat)) -> (nat, nat) {
    add_points_mod(a, b, p521(), curve_d())
}

/// The opposite of a point of E521.
pub open spec fn edwards_neg(a: (nat, nat)) -> (nat, nat) {
    neg_point_mod(a, p521())
}

/// `k` times a point of E521. The scalar is first reduced modulo the order
/// `r` of the generator.
pub open spec fn scalar_mul(k: nat, a: (nat, nat)) -> (nat, nat) {
    mul_point_mod(k % order_r(), a, p521(), curve_d())
}

/// A pair with both coordinates reduced modulo `p`.
pub open spec fn reduced(a: (nat, nat)) -> (nat, nat) {
    (a.0 % p521(), a.1 % p521())
}

/// The generator of E521.
pub open spec fn generator() -> (nat, nat) {
    (generator_x(), generator_y())
}

/// The neutral element is on the curve.
pub proof fn lemma_neutral_on_curve(p: nat, d: nat)
    requires
        p > 1,
    ensures
        on_curve_mod(neutral(), p, d),
{
    assert(residue(0, 1, d as int) == 0) by (nonlinear_arith);
    lemma_small_mod(0, p);
}

/// Closure: the sum of two points of the curve is a point of the curve.
pub proof fn lemma_add_on_curve(a: (nat, nat), b: (nat, nat), p: nat, d: nat)
    requires
        p > 1,
        on_curve_mod(a, p, d),
        on_curve_mod(b, p, d),
    ensures
        on_curve_mod(add_points_mod(a, b, p, d), p, d),
{
    let t = cross_mod(a, b, p, d);
    let den_x = add_mod(1, t, p);
    let den_y = sub_mod(1, t, p);
    if has_inverse(den_x, p) && has_inverse(den_y, p) {
        let pi = p as int;
        let di = d as int;
        let x1 = a.0 as int;
        let y1 = a.1 as int;
        let x2 = b.0 as int;
        let y2 = b.1 as int;
        let i1 = inv_mod(den_x, p);
        let i2 = inv_mod(den_y, p);
        assert(is_inverse(den_x, i1, p));
        assert(is_inverse(den_y, i2, p));
        let ti = sum_cross(x1, y1, x2, y2, di);
        let na = sum_num_x(x1, y1, x2, y2);
        let nb = sum_num_y(x1, y1, x2, y2);
        let xx = mul_mod(a.0, b.0, p) as int;
        let yy = mul_mod(a.1, b.1, p) as int;
        let xy = mul_mod(a.0, b.1, p) as int;
        let yx = mul_mod(a.1, b.0, p) as int;
        lemma_mod_twice(x1 * x2, pi);
        lemma_mod_twice(y1 * y2, pi);
        lemma_mod_twice(x1 * y2, pi);
        lemma_mod_twice(y1 * x2, pi);
        // the cross term
        let m3 = mul_mod(xx as nat, yy as nat, p) as int;
        lemma_mod_twice(xx * yy, pi);
        lemma_cong_mul(xx, x1 * x2, yy, y1 * y2, pi);
        lemma_cong_mul(di, di, m3, (x1 * x2) * (y1 * y2), pi);
        lemma_mod_twice(di * m3, pi);
        assert((t as int) % pi == ti % pi);
        // the denominators
        lemma_cong_add(1, 1, t as int, ti, pi);
        lemma_mod_twice(1 + (t as int), pi);
        lemma_cong_sub(1, 1, t as int, ti, pi);
        lemma_mod_bound(1 - t, pi);
        lemma_mod_twice(1 - t, pi);
        lemma_cong_mul(den_x as int, 1 + ti, i1 as int, i1 as int, pi);
        lemma_cong_mul(den_y as int, 1 - ti, i2 as int, i2 as int, pi);
        // the numerators
        let fa = add_mod(xy as nat, yx as nat, p) as int;
        lemma_cong_add(xy, x1 * y2, yx, y1 * x2, pi);
        lemma_mod_twice(xy + yx, pi);
        let fb = sub_mod(yy as nat, xx as nat, p) as int;
        lemma_cong_sub(yy, y1 * y2, xx, x1 * x2, pi);
        lemma_mod_bound(yy - xx, pi);
        lemma_mod_twice(yy - xx, pi);
        // the coordinates of the sum
        let x3 = mul_mod(fa as nat, i1, p) as int;
        let y3 = mul_mod(fb as nat, i2, p) as int;
        lemma_mod_twice(fa * i1, pi);
        lemma_mod_twice(fb * i2, pi);
        lemma_cong_mul(fa, na, i1 as int, i1 as int, pi);
        lemma_cong_mul(fb, nb, i2 as int, i2 as int, pi);
        lemma_mod_bound(fa * i1, pi);
        lemma_mod_bound(fb * i2, pi);
        lemma_quotients_on_curve(x1, y1, x2, y2, di, pi, i1 as int, i2 as int, x3, y3);
    } else {
        lemma_neutral_on_curve(p, d);
    }
}

/// Any multiple of a point of the curve is a point of the curve.
pub proof fn lemma_mul_on_curve(k: nat, a: (nat, nat), p: nat, d: nat)
    requires
        p > 1,
        on_curve_mod(a, p, d),
    ensures
        on_curve_mod(mul_point_mod(k, a, p, d), p, d),
    decreases k,
{
    if k == 0 {
        lemma_neutral_on_curve(p, d);
    } else {
        lemma_mul_on_curve(k / 2, a, p, d);
        let half = mul_point_mod(k / 2, a, p, d);
        lemma_add_on_curve(half, half, p, d);
        lemma_add_on_curve(add_points_mod(half, half, p, d), a, p, d);
    }
}

/// The opposite of a point of the curve is a point of the curve.
pub proof fn lemma_neg_on_curve(a: (nat, nat), p: nat, d: nat)
    requires
        p > 1,
        on_curve_mod(a, p, d),
    ensures
        on_curve_mod(neg_point_mod(a, p), p, d),
{
    let pi = p as int;
    let di = d as int;
    let x = a.0 as int;
    let y = a.1 as int;
    let nx = sub_mod(0, a.0, p) as int;
    lemma_mod_bound(0 - x, pi);
    lemma_mod_twice(0 - x, pi);
    lemma_cong_mul(nx, 0 - x, nx, 0 - x, pi);
    assert((0 - x) * (0 - x) == x * x) by (nonlinear_arith);
    // nx * nx is congruent to x * x, so the residue is the same modulo p
    let yy = y * y;
    lemma_cong_add(nx * nx, x * x, yy, yy, pi);
    lemma_cong_mul(nx * nx, x * x, yy, yy, pi);
    lemma_cong_mul(di, di, (nx * nx) * yy, (x * x) * yy, pi);
    lemma_cong_sub(nx * nx + yy, x * x + yy, 1, 1, pi);
    lemma_cong_sub(
        nx * nx + yy - 1,
        x * x + yy - 1,
        di * ((nx * nx) * yy),
        di * ((x * x) * yy),
        pi,
    );
}

/// Multiples of points of E521 are on the curve, and so are their sums;
/// zero times a point and `r` times a point are the neutral element.
pub proof fn lemma_curve_closure(a: nat, b: nat, p: (nat, nat), q: (nat, nat))
    requires
        on_curve(p),
        on_curve(q),
    ensures
        on_curve(scalar_mul(a, p)),
        on_curve(edwards_add(scalar_mul(a, p), scalar_mul(b, q))),
        scalar_mul(0, p) == neutral(),
        scalar_mul(order_r(), p) == neutral(),
{
    lemma_mul_on_curve(a % order_r(), p, p521(), curve_d());
    lemma_mul_on_curve(b % order_r(), q, p521(), curve_d());
    lemma_add_on_curve(scalar_mul(a, p), scalar_mul(b, q), p521(), curve_d());
}

/// Bit `i` of a byte, bit 0 being the least significant.
pub open spec fn bit_of(byte: u8, i: nat) -> nat {
    ((byte >> i) & 1) as nat
}

/// The number `base` followed by the `j` most significant bits of `byte`.
pub open spec fn with_bits(base: nat, byte: u8, j: nat) -> nat
    decreases j,
{
    if j == 0 {
        base
    } else {
        2 * with_bits(base, byte, (j - 1) as nat) + bit_of(byte, (8 - j) as nat)
    }
}

/// A number followed by all eight bits of a byte.
pub proof fn lemma_with_bits_all(base: nat, byte: u8)
    ensures
        with_bits(base, byte, 8) == 256 * base + byte,
{
    reveal_with_fuel(with_bits, 9);
    assert(byte == 128 * ((byte >> 7) & 1) + 64 * ((byte >> 6) & 1) + 32 * ((byte >> 5) & 1) + 16
        * ((byte >> 4) & 1) + 8 * ((byte >> 3) & 1) + 4 * ((byte >> 2) & 1) + 2 * ((byte >> 1)
        & 1) + ((byte >> 0) & 1)) by (bit_vector);
}

impl View for E521 {
    type V = (nat, nat);

    open spec fn view(&self) -> (nat, nat) {
        (self.x@, self.y@)
    }
}

/// Whether `(x, y)` satisfies the equation of the curve with constant `d`
/// modulo `p`, both coordinates being below `p`.
pub fn satisfies_curve(x: &Big, y: &Big, p: &Big, d: &Big) -> (ok: bool)
    requires
        p@ > 1,
    ensures
        ok == on_curve_mod((x@, y@), p@, d@),
{
    if !x.less_than(p) || !y.less_than(p) {
        return false;
    }
    let xx = mul_mod_big(x, x, p);
    let yy = mul_mod_big(y, y, p);
    let lhs = add_mod_big(&xx, &yy, p);
    let one = Big::from_u64(1);
    let xxyy = mul_mod_big(&xx, &yy, p);
    let dxxyy = mul_mod_big(d, &xxyy, p);
    let rhs = add_mod_big(&one, &dxxyy, p);
    proof {
        let pi = p@ as int;
        let xi = x@ as int;
        let yi = y@ as int;
        let di = d@ as int;
        lemma_mod_twice(xi * xi, pi);
        lemma_mod_twice(yi * yi, pi);
        lemma_cong_add(xx@ as int, xi * xi, yy@ as int, yi * yi, pi);
        lemma_mod_twice((xx@ + yy@) as int, pi);
        lemma_cong_mul(xx@ as int, xi * xi, yy@ as int, yi * yi, pi);
        lemma_mod_twice((xx@ * yy@) as int, pi);
        lemma_cong_mul(di, di, xxyy@ as int, (xi * xi) * (yi * yi), pi);
        lemma_mod_twice(di * (xxyy@ as int), pi);
        lemma_cong_add(1, 1, dxxyy@ as int, di * ((xi * xi) * (yi * yi)), pi);
        lemma_mod_twice((1 + dxxyy@) as int, pi);
        lemma_mod_equivalence(xi * xi + yi * yi, 1 + di * ((xi * xi) * (yi * yi)), pi);
        lemma_mod_bound((xx@ + yy@) as int, pi);
        lemma_mod_bound((1 + dxxyy@) as int, pi);
        lemma_small_mod(lhs@, p@);
        lemma_small_mod(rhs@, p@);
    }
    lhs.equals(&rhs)
}

/// The point with the given coordinates, if it is on the curve.
pub fn get_e521_point(x: Big, y: Big) -> (point: Result<E521, CryptoError>)
    ensures
        point is Ok <==> on_curve((x@, y@)),
        point matches Ok(pt) ==> pt.wf() && pt@ == (x@, y@),
        point matches Err(e) ==> e == CryptoError::MalformedPoint,
{
    let p = field_prime();
    let d = curve_constant();
    if satisfies_curve(&x, &y, &p, &d) {
        Ok(E521 { x, y, p, d, r: subgroup_order(), n: number_of_points() })
    } else {
        Err(CryptoError::MalformedPoint)
    }
}

/// The neutral element `(0, 1)`.
pub fn get_e521_id_point() -> (point: E521)
    ensures
        point.wf(),
        point@ == neutral(),
{
    proof {
        lemma_neutral_on_curve(p521(), curve_d());
    }
    E521 {
        x: Big::zero(),
        y: Big::from_u64(1),
        p: field_prime(),
        d: curve_constant(),
        r: subgroup_order(),
        n: number_of_points(),
    }
}

impl E521 {
    /// The coordinates are those of a point of E521 and the parameters are
    /// those of E521.
    pub open spec fn wf(&self) -> bool {
        &&& self.p@ == p521()
        &&& self.d@ == curve_d()
        &&& self.r@ == order_r()
        &&& self.n@ == point_count()
        &&& on_curve(self@)
    }

    /// Whether the value holds the parameters of E521 and a point of the
    /// curve.
    pub fn is_valid(&self) -> (ok: bool)
        ensures
            ok == self.wf(),
    {
        let p = field_prime();
        let d = curve_constant();
        let r = subgroup_order();
        let n = number_of_points();
        self.p.equals(&p) && self.d.equals(&d) && self.r.equals(&r) && self.n.equals(&n)
            && satisfies_curve(&self.x, &self.y, &p, &d)
    }

    /// Whether two points have the same coordinates modulo `p`.
    pub fn equals(&self, other: &E521) -> (same: bool)
        ensures
            same == (reduced(self@) == reduced(other@)),
            self.wf() && other.wf() ==> same == (self@ == other@),
    {
        let p = field_prime();
        let x1 = reduce_bytes(self.x.bytes.as_slice(), &p);
        let y1 = reduce_bytes(self.y.bytes.as_slice(), &p);
        let x2 = reduce_bytes(other.x.bytes.as_slice(), &p);
        let y2 = reduce_bytes(other.y.bytes.as_slice(), &p);
        proof {
            if self.wf() && other.wf() {
                lemma_small_mod(self.x@, p521());
                lemma_small_mod(self.y@, p521());
                lemma_small_mod(other.x@, p521());
                lemma_small_mod(other.y@, p521());
            }
        }
        x1.equals(&x2) && y1.equals(&y2)
    }

    /// The sum of two points.
    pub fn add_point(&self, other: &E521) -> (sum: E521)
        requires
            self.wf(),
            other.wf(),
        ensures
            sum.wf(),
            sum@ == edwards_add(self@, other@),
    {
        let p = &self.p;
        let x1x2 = mul_mod_big(&self.x, &other.x, p);
        let y1y2 = mul_mod_big(&self.y, &other.y, p);
        let x1y2 = mul_mod_big(&self.x, &other.y, p);
        let y1x2 = mul_mod_big(&self.y, &other.x, p);
        let cross = mul_mod_big(&x1x2, &y1y2, p);
        let t = mul_mod_big(&self.d, &cross, p);
        let one = Big::from_u64(1);
        let den_x = add_mod_big(&one, &t, p);
        let den_y = sub_mod_big(&one, &t, p);
        let inv_x = inv_mod_big(&den_x, p);
        let inv_y = inv_mod_big(&den_y, p);
        proof {
            lemma_add_on_curve(self@, other@, p521(), curve_d());
        }
        if inv_x.is_zero() || inv_y.is_zero() {
            let id = get_e521_id_point();
            return id;
        }
        let num_x = add_mod_big(&x1y2, &y1x2, p);
        let num_y = sub_mod_big(&y1y2, &x1x2, p);
        E521 {
            x: mul_mod_big(&num_x, &inv_x, p),
            y: mul_mod_big(&num_y, &inv_y, p),
            p: self.p,
            d: self.d,
            r: self.r,
            n: self.n,
        }
    }

    /// Twice the point.
    pub fn double_point(&self) -> (twice: E521)
        requires
            self.wf(),
        ensures
            twice.wf(),
            twice@ == edwards_add(self@, self@),
    {
        self.add_point(self)
    }

    /// The opposite of the point.
    pub fn negate(&self) -> (opposite: E521)
        requires
            self.wf(),
        ensures
            opposite.wf(),
            opposite@ == edwards_neg(self@),
    {
        let zero = Big::zero();
        proof {
            lemma_neg_on_curve(self@, p521(), curve_d());
        }
        E521 {
            x: sub_mod_big(&zero, &self.x, &self.p),
            y: self.y,
            p: self.p,
            d: self.d,
            r: self.r,
            n: self.n,
        }
    }

    /// `k` times the point. The scalar is reduced modulo `r` first; its bits
    /// are then scanned from the most significant one down, doubling at
    /// every bit and adding the point at every set bit.
    pub fn mul_scalar(&self, k: &Big) -> (product: E521)
        requires
            self.wf(),
        ensures
            product.wf(),
            product@ == scalar_mul(k@, self@),
    {
        let kr = reduce_bytes(k.bytes.as_slice(), &self.r);
        let mut acc = get_e521_id_point();
        let mut started = false;
        let mut i: usize = 0;
        assert(kr.bytes@.take(0).len() == 0);
        while i < 66
            invariant
                i <= 66,
                self.wf(),
                acc.wf(),
                started == (be_value(kr.bytes@.take(i as int)) > 0),
                acc@ == mul_point_mod(
                    be_value(kr.bytes@.take(i as int)),
                    self@,
                    p521(),
                    curve_d(),
                ),
            decreases 66 - i,
        {
            let byte = kr.bytes[i];
            let ghost base = be_value(kr.bytes@.take(i as int));
            let mut j: u8 = 0;
            while j < 8
                invariant
                    j <= 8,
                    self.wf(),
                    acc.wf(),
                    started == (with_bits(base, byte, j as nat) > 0),
                    acc@ == mul_point_mod(with_bits(base, byte, j as nat), self@, p521(), curve_d()),
                decreases 8 - j,
            {
                let shift: u8 = 7 - j;
                let bit = (byte >> shift) & 1;
                assert(bit == 0 || bit == 1) by (bit_vector)
                    requires
                        bit == (byte >> shift) & 1,
                ;
                assert(bit == bit_of(byte, (8 - (j + 1)) as nat));
                if started || bit == 1 {
                    acc = acc.double_point();
                    if bit == 1 {
                        acc = acc.add_point(self);
                    }
                    started = true;
                }
                j += 1;
            }
            proof {
                lemma_with_bits_all(base, byte);
                lemma_be_value_take_next(kr.bytes@, i as int);
            }
            i += 1;
        }
        assert(kr.bytes@.take(66) =~= kr.bytes@);
        acc
    }
}

/// The generator of E521.
pub fn get_e521_gen_point() -> (point: E521)
    ensures
        point.wf(),
        point@ == generator(),
{
    let x = generator_x_coordinate();
    let y = generator_y_coordinate();
    proof {
        lemma_generator_on_curve();
    }
    E521 {
        x,
        y,
        p: field_prime(),
        d: curve_constant(),
        r: subgroup_order(),
        n: number_of_points(),
    }
}

/// The generator is a point of E521.
pub proof fn lemma_generator_on_curve()
    ensures
        on_curve(generator()),
{
    let p = p521() as int;
    let d = curve_d() as int;
    let x = generator_x() as int;
    let xx = x * x;
    assert(xx == 0x35a1e4aad8f6b0c5d13340c9cba119c13b884ce17269ccd27c643c80e89d6a0fe293620a343d7b73a70d85fad7557f87091dbe52a651d604aa83e119957a98a20e6d57eba1db00c1c95257ecf48743cda4fc85df56cdf97f3a63eafac40588022deb257e6ec1af2b465c912e6e641699c4ebacdbdde0f717b8a721a9e57998d91d90int) by (nonlinear_arith)
        requires
            xx == x * x,
            x == 0x752cb45c48648b189df90cb2296b2878a3bfd9f42fc6c818ec8bf3c9c0c6203913f6ecc5ccc72434b1ae949d568fc99c6059d0fb13364838aa302a940a2f19ba6cint,
    ;
    let yy: int = 144;
    assert(12int * 12int == yy);
    let xxyy = xx * yy;
    let dxxyy = d * xxyy;
    assert(dxxyy == 0x3c562140341586de8b59a8e305153cf962f9567da0b7066ccbf0c41105b11751dee5ce4b7ac52ae21bef36ba32402f77ea41761cfb1c10c53fd45d3cc829eb0938e2da624b4efabf7e13a83a37a54316bf324bf0aa694da568ea6846e8f84357c32524dcb72639ee2cfe02d7e0d78c6a5aa3041ea79f27a5ed8a55e7270a046e029fcc056f6842c4baa37f906a38c58639bc93b5fc112ab29a15fb71c8a046ebe5012b908d41020d8c19fa32de527379804e3c5dcedff8d948daa5dc58b7bb37a461d100int) by (nonlinear_arith)
        requires
            dxxyy == d * xxyy,
            d == 0x1fffffffffffffffffffffffffffffffffffffffffffffffffffffffffffffffffffffffffffffffffffffffffffffffffffffffffffffffffffffffffffffa4331int,
            xxyy == 0x1e2b10a01a0ac36f45acd471828a9e7cb17cab3ed05b833665f8620882d88ba8ef72e725bd6295710df79b5d192017bbf520bb0e7d8e08629fea2e9e6414f5db281d81748b0b306d013e5175498c1623acce0b4da0d3dc5790d8342d0e431c8139d445171e4cf288579411aa1e184cb67ec4913bacce8afd57de02ef911465fa20a100int,
    ;
    let q = 0x1e2b10a01a0ac36f45acd471828a9e7cb17cab3ed05b833665f8620882d88ba8ef72e725bd6295710df79b5d192017bbf520bb0e7d8e08629fea2e9e6414f5849c8067e8835f16461e49c1edb42f010a11114689ce2c1b5f693ef2225a7d19a301025a983d6cb423114c29b2dbfaea964b888dddfbe507ae3d12cac8f22a41f4774d1fint;
    assert(p * q == dxxyy + 1 - xx - yy) by (nonlinear_arith)
        requires
            p == 0x1ffffffffffffffffffffffffffffffffffffffffffffffffffffffffffffffffffffffffffffffffffffffffffffffffffffffffffffffffffffffffffffffffffint,
            q == 0x1e2b10a01a0ac36f45acd471828a9e7cb17cab3ed05b833665f8620882d88ba8ef72e725bd6295710df79b5d192017bbf520bb0e7d8e08629fea2e9e6414f5849c8067e8835f16461e49c1edb42f010a11114689ce2c1b5f693ef2225a7d19a301025a983d6cb423114c29b2dbfaea964b888dddfbe507ae3d12cac8f22a41f4774d1fint,
            dxxyy + 1 - xx - yy == 0x3c562140341586de8b59a8e305153cf962f9567da0b7066ccbf0c41105b11751dee5ce4b7ac52ae21bef36ba32402f77ea41761cfb1c10c53fd45d3cc829eb0938e2a4c066a421c8cd4dd706f6db7775a57110685d87db3b9c17ebe2ac775aba59154249551c05b0b18a5bca5adcb514db1bfb00e94c81541785ab6345f06ef369fdbd98177ca0e9b9e1b63e124bd0fef5eeeeb97631d3e4a096c10ddda582e65cfefda567c2934bdceeb3d64d24051569b4777222041af851c2ed35370dd5be0b88b2e1int,
    ;
    assert(residue(x, 12, d) == p * (-q) + 0) by (nonlinear_arith)
        requires
            residue(x, 12, d) == xx + yy - 1 - dxxyy,
            p * q == dxxyy + 1 - xx - yy,
    ;
    lemma_mod_multiples_vanish(-q, 0, p);
    lemma_small_mod(0, p521());
}

} // verus!
