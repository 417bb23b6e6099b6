//! Three-component fixed-point vector algebra.
//!
//! `Vec3` doubles as a geometric point, a direction and a color. Every
//! executable operation carries an exact contract over the mathematical
//! mirror type [`GV`], whose components are unbounded integers.

use vstd::prelude::*;

use crate::common::{
    abs_i, div_fp, div_trunc, is_isqrt, isqrt_u128, lemma_sqrt_exists, lemma_sqrt_unique,
    lemma_tdiv_abs_le, mul_fp, mul_raw, sqrt_floor, tdiv, Sampler, FP_ONE, PROD_MAX,
};

verus! {

/// The mathematical mirror of a `Vec3`: an integer triple.
pub ghost struct GV {
    pub x: int,
    pub y: int,
    pub z: int,
}

/// A fixed-point three-vector; each component is a 64.16 scalar.
#[derive(Clone, Copy, PartialEq, Eq, Structural, Debug)]
pub struct Vec3 {
    pub x: i128,
    pub y: i128,
    pub z: i128,
}

/// A point in space.
pub type Point3 = Vec3;

/// A color triple (linear, fixed-point; 0 is black, `FP_ONE` is full).
pub type Color = Vec3;

/// Component-wise sum.
pub open spec fn gadd(a: GV, b: GV) -> GV {
    GV { x: a.x + b.x, y: a.y + b.y, z: a.z + b.z }
}

/// Component-wise difference.
pub open spec fn gsub(a: GV, b: GV) -> GV {
    GV { x: a.x - b.x, y: a.y - b.y, z: a.z - b.z }
}

/// Component-wise negation.
pub open spec fn gneg(a: GV) -> GV {
    GV { x: -a.x, y: -a.y, z: -a.z }
}

/// Raw dot product (carries the product of the two operands' scales).
pub open spec fn gdot(a: GV, b: GV) -> int {
    a.x * b.x + a.y * b.y + a.z * b.z
}

/// Raw squared length.
pub open spec fn glen2(a: GV) -> int {
    gdot(a, a)
}

/// Scaling by a fixed-point factor, truncated per component.
pub open spec fn gscale(a: GV, k: int) -> GV {
    GV {
        x: tdiv(a.x * k, FP_ONE as int),
        y: tdiv(a.y * k, FP_ONE as int),
        z: tdiv(a.z * k, FP_ONE as int),
    }
}

/// Division by a fixed-point scalar, truncated per component.
pub open spec fn gdiv(a: GV, k: int) -> GV {
    GV {
        x: tdiv(a.x * FP_ONE as int, k),
        y: tdiv(a.y * FP_ONE as int, k),
        z: tdiv(a.z * FP_ONE as int, k),
    }
}

/// Component-wise fixed-point product (color blending).
pub open spec fn gmul(a: GV, b: GV) -> GV {
    GV {
        x: tdiv(a.x * b.x, FP_ONE as int),
        y: tdiv(a.y * b.y, FP_ONE as int),
        z: tdiv(a.z * b.z, FP_ONE as int),
    }
}

/// Fixed-point cross product.
pub open spec fn gcross(a: GV, b: GV) -> GV {
    GV {
        x: tdiv(a.y * b.z - a.z * b.y, FP_ONE as int),
        y: tdiv(a.z * b.x - a.x * b.z, FP_ONE as int),
        z: tdiv(a.x * b.y - a.y * b.x, FP_ONE as int),
    }
}

/// The unit vector of `a`: each component is scaled by `FP_ONE` and
/// divided by the floor square root of the raw squared length.
pub open spec fn gunit(a: GV) -> GV {
    let l = sqrt_floor(glen2(a));
    GV {
        x: tdiv(a.x * FP_ONE as int, l),
        y: tdiv(a.y * FP_ONE as int, l),
        z: tdiv(a.z * FP_ONE as int, l),
    }
}

/// Mirror of the executable reflection: `v - 2*dot(v,n)*n` with
/// fixed-point truncation.
pub open spec fn greflect(v: GV, n: GV) -> GV {
    let d = tdiv(gdot(v, n), FP_ONE as int);
    gsub(v, gscale(n, 2 * d))
}

/// Every component magnitude of `a` is at most `b`.
pub open spec fn fits3(a: GV, b: int) -> bool {
    abs_i(a.x) <= b && abs_i(a.y) <= b && abs_i(a.z) <= b
}

impl Vec3 {
    /// The mathematical value of this vector.
    pub open spec fn gv(self) -> GV {
        GV { x: self.x as int, y: self.y as int, z: self.z as int }
    }

    /// Build a vector from raw fixed-point components.
    pub fn new(x: i128, y: i128, z: i128) -> (r: Vec3)
        ensures
            r.gv() == (GV { x: x as int, y: y as int, z: z as int }),
    {
        Vec3 { x, y, z }
    }

    /// Component-wise sum.
    pub fn add(self, o: Vec3) -> (r: Vec3)
        requires
            fits3(self.gv(), PROD_MAX as int),
            fits3(o.gv(), PROD_MAX as int),
        ensures
            r.gv() == gadd(self.gv(), o.gv()),
    {
        Vec3 { x: self.x + o.x, y: self.y + o.y, z: self.z + o.z }
    }

    /// Component-wise difference.
    pub fn sub(self, o: Vec3) -> (r: Vec3)
        requires
            fits3(self.gv(), PROD_MAX as int),
            fits3(o.gv(), PROD_MAX as int),
        ensures
            r.gv() == gsub(self.gv(), o.gv()),
    {
        Vec3 { x: self.x - o.x, y: self.y - o.y, z: self.z - o.z }
    }

    /// Component-wise negation.
    pub fn neg(self) -> (r: Vec3)
        requires
            fits3(self.gv(), PROD_MAX as int),
        ensures
            r.gv() == gneg(self.gv()),
    {
        Vec3 { x: -self.x, y: -self.y, z: -self.z }
    }

    /// Scale by a fixed-point factor.
    pub fn scale(self, k: i128) -> (r: Vec3)
        requires
            fits3(self.gv(), PROD_MAX as int),
            abs_i(k as int) <= PROD_MAX,
        ensures
            r.gv() == gscale(self.gv(), k as int),
    {
        Vec3 { x: mul_fp(self.x, k), y: mul_fp(self.y, k), z: mul_fp(self.z, k) }
    }

    /// Divide by a fixed-point scalar.
    pub fn div(self, k: i128) -> (r: Vec3)
        requires
            k != 0,
            fits3(self.gv(), PROD_MAX as int),
            abs_i(k as int) <= PROD_MAX,
        ensures
            r.gv() == gdiv(self.gv(), k as int),
    {
        Vec3 { x: div_fp(self.x, k), y: div_fp(self.y, k), z: div_fp(self.z, k) }
    }

    /// Component-wise fixed-point product (color blending).
    pub fn mul(self, o: Vec3) -> (r: Vec3)
        requires
            fits3(self.gv(), PROD_MAX as int),
            fits3(o.gv(), PROD_MAX as int),
        ensures
            r.gv() == gmul(self.gv(), o.gv()),
    {
        Vec3 { x: mul_fp(self.x, o.x), y: mul_fp(self.y, o.y), z: mul_fp(self.z, o.z) }
    }

    /// Raw squared length (scale is the square of the component scale).
    pub fn length_squared(self) -> (r: i128)
        requires
            fits3(self.gv(), PROD_MAX as int),
        ensures
            r as int == glen2(self.gv()),
    {
        dot(self, self)
    }

    /// Fixed-point Euclidean length: the floor square root of the raw
    /// squared length.
    pub fn length(self) -> (r: i128)
        requires
            fits3(self.gv(), PROD_MAX as int),
        ensures
            r as int == sqrt_floor(glen2(self.gv())),
            is_isqrt(glen2(self.gv()), r as int),
    {
        let l2 = self.length_squared();
        proof {
            lemma_len2_nonneg(self.gv());
        }
        let r = isqrt_u128(l2 as u128);
        proof {
            lemma_sqrt_exists(glen2(self.gv()));
            lemma_sqrt_unique(glen2(self.gv()), r as int, sqrt_floor(glen2(self.gv())));
            assert(r as int <= 18446744073709551616int) by (nonlinear_arith)
                requires
                    0 <= r as int,
                    r as int * r as int <= l2 as int,
                    l2 as int <= 170141183460469231731687303715884105727int,
            ;
        }
        r as i128
    }

    /// True exactly when every component is zero (the fixed-point
    /// analogue of the near-zero test on degenerate scatter directions).
    pub fn near_zero(self) -> (r: bool)
        ensures
            r == (self.gv() == (GV { x: 0, y: 0, z: 0 })),
    {
        self.x == 0 && self.y == 0 && self.z == 0
    }
}

/// A raw squared length is nonnegative.
pub proof fn lemma_len2_nonneg(a: GV)
    ensures
        glen2(a) >= 0,
        glen2(a) >= a.x * a.x,
        glen2(a) >= a.y * a.y,
        glen2(a) >= a.z * a.z,
{
    assert(a.x * a.x >= 0 && a.y * a.y >= 0 && a.z * a.z >= 0) by (nonlinear_arith);
}

/// A dot product of component-bounded vectors is bounded by three times
/// the product of the bounds.
pub proof fn lemma_dot_bound(a: GV, b: GV, xa: int, xb: int)
    requires
        fits3(a, xa),
        fits3(b, xb),
        0 <= xa,
        0 <= xb,
    ensures
        abs_i(gdot(a, b)) <= 3 * (xa * xb),
{
    assert(abs_i(a.x * b.x) <= xa * xb && abs_i(a.y * b.y) <= xa * xb && abs_i(a.z * b.z) <= xa
        * xb) by (nonlinear_arith)
        requires
            fits3(a, xa),
            fits3(b, xb),
            0 <= xa,
            0 <= xb,
    ;
}

/// Raw dot product.
pub fn dot(a: Vec3, b: Vec3) -> (r: i128)
    requires
        fits3(a.gv(), PROD_MAX as int),
        fits3(b.gv(), PROD_MAX as int),
    ensures
        r as int == gdot(a.gv(), b.gv()),
{
    let px = mul_raw(a.x, b.x);
    let py = mul_raw(a.y, b.y);
    let pz = mul_raw(a.z, b.z);
    proof {
        assert(abs_i(a.x as int * b.x as int) <= PROD_MAX as int * PROD_MAX as int
            && abs_i(a.y as int * b.y as int) <= PROD_MAX as int * PROD_MAX as int
            && abs_i(a.z as int * b.z as int) <= PROD_MAX as int * PROD_MAX as int)
            by (nonlinear_arith)
            requires
                abs_i(a.x as int) <= PROD_MAX as int,
                abs_i(b.x as int) <= PROD_MAX as int,
                abs_i(a.y as int) <= PROD_MAX as int,
                abs_i(b.y as int) <= PROD_MAX as int,
                abs_i(a.z as int) <= PROD_MAX as int,
                abs_i(b.z as int) <= PROD_MAX as int,
        ;
    }
    px + py + pz
}

/// Fixed-point cross product.
pub fn cross(a: Vec3, b: Vec3) -> (r: Vec3)
    requires
        fits3(a.gv(), PROD_MAX as int),
        fits3(b.gv(), PROD_MAX as int),
    ensures
        r.gv() == gcross(a.gv(), b.gv()),
{
    proof {
        lemma_prod_pair_fits(a.gv(), b.gv());
    }
    let xx = div_trunc(mul_raw(a.y, b.z) - mul_raw(a.z, b.y), FP_ONE);
    let yy = div_trunc(mul_raw(a.z, b.x) - mul_raw(a.x, b.z), FP_ONE);
    let zz = div_trunc(mul_raw(a.x, b.y) - mul_raw(a.y, b.x), FP_ONE);
    Vec3 { x: xx, y: yy, z: zz }
}

/// Differences of pairwise products of bounded components stay inside
/// `i128`.
proof fn lemma_prod_pair_fits(a: GV, b: GV)
    requires
        fits3(a, PROD_MAX as int),
        fits3(b, PROD_MAX as int),
    ensures
        abs_i(a.y * b.z - a.z * b.y) <= 2 * PROD_MAX * PROD_MAX,
        abs_i(a.z * b.x - a.x * b.z) <= 2 * PROD_MAX * PROD_MAX,
        abs_i(a.x * b.y - a.y * b.x) <= 2 * PROD_MAX * PROD_MAX,
{
    assert(abs_i(a.y * b.z) <= PROD_MAX as int * PROD_MAX as int
        && abs_i(a.z * b.y) <= PROD_MAX as int * PROD_MAX as int
        && abs_i(a.z * b.x) <= PROD_MAX as int * PROD_MAX as int
        && abs_i(a.x * b.z) <= PROD_MAX as int * PROD_MAX as int
        && abs_i(a.x * b.y) <= PROD_MAX as int * PROD_MAX as int
        && abs_i(a.y * b.x) <= PROD_MAX as int * PROD_MAX as int) by (nonlinear_arith)
        requires
            fits3(a, PROD_MAX as int),
            fits3(b, PROD_MAX as int),
    ;
}

/// A cross product of component-bounded vectors is bounded: if the
/// factors are within `xa` and `xb` and `2*xa*xb <= x*FP_ONE`, each
/// component of the cross product is within `x`.
pub proof fn lemma_cross_bound(a: GV, b: GV, xa: int, xb: int, x: int)
    requires
        fits3(a, xa),
        fits3(b, xb),
        0 <= xa,
        0 <= xb,
        2 * (xa * xb) <= x * FP_ONE as int,
    ensures
        fits3(gcross(a, b), x),
{
    crate::common::lemma_abs_mul_le(a.y, b.z, xa, xb);
    crate::common::lemma_abs_mul_le(a.z, b.y, xa, xb);
    crate::common::lemma_abs_mul_le(a.z, b.x, xa, xb);
    crate::common::lemma_abs_mul_le(a.x, b.z, xa, xb);
    crate::common::lemma_abs_mul_le(a.x, b.y, xa, xb);
    crate::common::lemma_abs_mul_le(a.y, b.x, xa, xb);
    lemma_tdiv_abs_le(a.y * b.z - a.z * b.y, FP_ONE as int, x);
    lemma_tdiv_abs_le(a.z * b.x - a.x * b.z, FP_ONE as int, x);
    lemma_tdiv_abs_le(a.x * b.y - a.y * b.x, FP_ONE as int, x);
}

/// The unit vector in the direction of `v`.
pub fn unit_vector(v: Vec3) -> (r: Vec3)
    requires
        fits3(v.gv(), PROD_MAX as int),
        glen2(v.gv()) >= 1,
    ensures
        r.gv() == gunit(v.gv()),
        fits3(r.gv(), FP_ONE as int),
        r.x as int * v.x as int >= 0,
        r.y as int * v.y as int >= 0,
        r.z as int * v.z as int >= 0,
{
    let l = v.length();
    let ghost g = v.gv();
    let ghost l2 = glen2(g);
    proof {
        // Each |component| is at most the floor square root of the squared length.
        lemma_len2_nonneg(g);
        assert(l >= 1);
        lemma_comp_le_sqrt(g.x, l2, l as int);
        lemma_comp_le_sqrt(g.y, l2, l as int);
        lemma_comp_le_sqrt(g.z, l2, l as int);
        assert(abs_i(g.x * FP_ONE as int) <= FP_ONE as int * (l as int)) by (nonlinear_arith)
            requires
                abs_i(g.x) <= l as int,
                FP_ONE as int > 0,
        ;
        assert(abs_i(g.y * FP_ONE as int) <= FP_ONE as int * (l as int)) by (nonlinear_arith)
            requires
                abs_i(g.y) <= l as int,
                FP_ONE as int > 0,
        ;
        assert(abs_i(g.z * FP_ONE as int) <= FP_ONE as int * (l as int)) by (nonlinear_arith)
            requires
                abs_i(g.z) <= l as int,
                FP_ONE as int > 0,
        ;
        lemma_tdiv_abs_le(g.x * FP_ONE as int, l as int, FP_ONE as int);
        lemma_tdiv_abs_le(g.y * FP_ONE as int, l as int, FP_ONE as int);
        lemma_tdiv_abs_le(g.z * FP_ONE as int, l as int, FP_ONE as int);
    }
    let rx = div_trunc(v.x * FP_ONE, l);
    let ry = div_trunc(v.y * FP_ONE, l);
    let rz = div_trunc(v.z * FP_ONE, l);
    proof {
        assert(rx as int * g.x >= 0) by (nonlinear_arith)
            requires
                tdiv(g.x * FP_ONE as int, l as int) * (g.x * FP_ONE as int) >= 0,
                rx as int == tdiv(g.x * FP_ONE as int, l as int),
                FP_ONE as int > 0,
        ;
        assert(ry as int * g.y >= 0) by (nonlinear_arith)
            requires
                tdiv(g.y * FP_ONE as int, l as int) * (g.y * FP_ONE as int) >= 0,
                ry as int == tdiv(g.y * FP_ONE as int, l as int),
                FP_ONE as int > 0,
        ;
        assert(rz as int * g.z >= 0) by (nonlinear_arith)
            requires
                tdiv(g.z * FP_ONE as int, l as int) * (g.z * FP_ONE as int) >= 0,
                rz as int == tdiv(g.z * FP_ONE as int, l as int),
                FP_ONE as int > 0,
        ;
    }
    Vec3 { x: rx, y: ry, z: rz }
}

/// A component's magnitude is at most the floor square root of the
/// squared length.
proof fn lemma_comp_le_sqrt(c: int, l2: int, l: int)
    requires
        c * c <= l2,
        is_isqrt(l2, l),
    ensures
        abs_i(c) <= l,
{
    if abs_i(c) > l {
        assert(c * c >= (l + 1) * (l + 1)) by (nonlinear_arith)
            requires
                abs_i(c) >= l + 1,
                l >= 0,
        ;
    }
}

/// The six fixed-point axis unit vectors normalize to themselves.
pub proof fn lemma_unit_axis()
    ensures
        gunit(GV { x: 0, y: 0, z: 65536 }) == (GV { x: 0, y: 0, z: 65536 }),
        gunit(GV { x: 0, y: 0, z: -65536 }) == (GV { x: 0, y: 0, z: -65536 }),
        gunit(GV { x: 0, y: 65536, z: 0 }) == (GV { x: 0, y: 65536, z: 0 }),
        gunit(GV { x: 0, y: -65536, z: 0 }) == (GV { x: 0, y: -65536, z: 0 }),
        gunit(GV { x: 65536, y: 0, z: 0 }) == (GV { x: 65536, y: 0, z: 0 }),
        gunit(GV { x: -65536, y: 0, z: 0 }) == (GV { x: -65536, y: 0, z: 0 }),
{
    assert(is_isqrt(4294967296, 65536)) by (nonlinear_arith);
    lemma_sqrt_exists(4294967296);
    lemma_sqrt_unique(4294967296, 65536, sqrt_floor(4294967296));
    assert(glen2(GV { x: 0, y: 0, z: 65536 }) == 4294967296) by (nonlinear_arith);
    assert(glen2(GV { x: 0, y: 0, z: -65536 }) == 4294967296) by (nonlinear_arith);
    assert(glen2(GV { x: 0, y: 65536, z: 0 }) == 4294967296) by (nonlinear_arith);
    assert(glen2(GV { x: 0, y: -65536, z: 0 }) == 4294967296) by (nonlinear_arith);
    assert(glen2(GV { x: 65536, y: 0, z: 0 }) == 4294967296) by (nonlinear_arith);
    assert(glen2(GV { x: -65536, y: 0, z: 0 }) == 4294967296) by (nonlinear_arith);
    assert(tdiv(0int, 65536int) == 0);
    assert(tdiv(65536int * 65536int, 65536int) == 65536);
    assert(tdiv((-65536int) * 65536int, 65536int) == -65536);
}

/// Reflection of `v` about the normal `n`: `v - 2*dot(v,n)*n`.
pub fn reflect(v: Vec3, n: Vec3) -> (r: Vec3)
    requires
        fits3(v.gv(), 1073741824),
        fits3(n.gv(), 1073741824),
    ensures
        r.gv() == greflect(v.gv(), n.gv()),
{
    let raw = dot(v, n);
    proof {
        // |dot| <= 3*2^60, so |d| <= 3*2^44 and 2*d fits every product bound.
        assert(abs_i(gdot(v.gv(), n.gv())) <= 3 * 1073741824int * 1073741824int)
            by (nonlinear_arith)
            requires
                fits3(v.gv(), 1073741824int),
                fits3(n.gv(), 1073741824int),
        ;
        lemma_tdiv_abs_le(
            gdot(v.gv(), n.gv()),
            FP_ONE as int,
            3 * 1073741824int * 1073741824int / 65536,
        );
    }
    let d = div_trunc(raw, FP_ONE);
    let s = n.scale(2 * d);
    proof {
        let k = 2 * d as int;
        assert(abs_i(n.gv().x * k) <= PROD_MAX as int * FP_ONE as int
            && abs_i(n.gv().y * k) <= PROD_MAX as int * FP_ONE as int
            && abs_i(n.gv().z * k) <= PROD_MAX as int * FP_ONE as int) by (nonlinear_arith)
            requires
                fits3(n.gv(), 1073741824int),
                abs_i(k) <= 2 * (3 * 1073741824int * 1073741824int / 65536),
                PROD_MAX == 2305843009213693952i128,
                FP_ONE == 65536i128,
        ;
        lemma_tdiv_abs_le(n.gv().x * k, FP_ONE as int, PROD_MAX as int);
        lemma_tdiv_abs_le(n.gv().y * k, FP_ONE as int, PROD_MAX as int);
        lemma_tdiv_abs_le(n.gv().z * k, FP_ONE as int, PROD_MAX as int);
    }
    v.sub(s)
}

/// Reflection preserves squared length in exact arithmetic: for any
/// integer vectors `v` and `n`, if the raw squared length of `n` is `u`,
/// then the exact mirrored vector `u*v - 2*dot(v,n)*n` has raw squared
/// length `u*u` times that of `v`. At a unit normal (`u == FP_ONE^2`)
/// this is magnitude preservation; the executable `reflect` computes the
/// same vector up to fixed-point truncation.
/// One component of the exact mirrored vector, squared and expanded.
proof fn lemma_refl_sq(u: int, x: int, d: int, m: int)
    ensures
        (u * x - 2 * d * m) * (u * x - 2 * d * m) == u * u * (x * x) - 4 * d * u * (x * m) + 4 * (
        d * d) * (m * m),
{
    let a = u * x;
    let b = 2 * d * m;
    assert((a - b) * (a - b) == a * a - 2 * (a * b) + b * b) by (nonlinear_arith);
    assert(a * a == u * u * (x * x)) by (nonlinear_arith)
        requires
            a == u * x,
    ;
    assert(2 * (a * b) == 4 * d * u * (x * m)) by (nonlinear_arith)
        requires
            a == u * x,
            b == 2 * d * m,
    ;
    assert(b * b == 4 * (d * d) * (m * m)) by (nonlinear_arith)
        requires
            b == 2 * d * m,
    ;
}

/// Reflection preserves squared length in exact arithmetic: for any
/// integer vectors `v` and `n`, if the raw squared length of `n` is `u`,
/// then the exact mirrored vector `u*v - 2*dot(v,n)*n` has raw squared
/// length `u*u` times that of `v`. At a unit normal (`u == FP_ONE^2`)
/// this is magnitude preservation; the executable `reflect` computes the
/// same vector up to fixed-point truncation.
pub proof fn lemma_reflect_preserves_length(v: GV, n: GV, u: int)
    requires
        glen2(n) == u,
    ensures
        glen2(
            GV {
                x: u * v.x - 2 * gdot(v, n) * n.x,
                y: u * v.y - 2 * gdot(v, n) * n.y,
                z: u * v.z - 2 * gdot(v, n) * n.z,
            },
        ) == u * u * glen2(v),
{
    let d = gdot(v, n);
    let rx = u * v.x - 2 * d * n.x;
    let ry = u * v.y - 2 * d * n.y;
    let rz = u * v.z - 2 * d * n.z;
    lemma_refl_sq(u, v.x, d, n.x);
    lemma_refl_sq(u, v.y, d, n.y);
    lemma_refl_sq(u, v.z, d, n.z);
    assert(4 * d * u * (v.x * n.x) + 4 * d * u * (v.y * n.y) + 4 * d * u * (v.z * n.z) == 4 * (d
        * d) * u) by (nonlinear_arith)
        requires
            d == v.x * n.x + v.y * n.y + v.z * n.z,
    ;
    assert(4 * (d * d) * (n.x * n.x) + 4 * (d * d) * (n.y * n.y) + 4 * (d * d) * (n.z * n.z) == 4
        * (d * d) * u) by (nonlinear_arith)
        requires
            n.x * n.x + n.y * n.y + n.z * n.z == u,
    ;
    assert(u * u * (v.x * v.x) + u * u * (v.y * v.y) + u * u * (v.z * v.z) == u * u * glen2(v))
        by (nonlinear_arith);
    assert(glen2(GV { x: rx, y: ry, z: rz }) == rx * rx + ry * ry + rz * rz);
}

/// Mirror of the executable refraction (Snell's law): the incident
/// direction and normal are unit fixed-point vectors, `ratio` the
/// quotient of refractive indices.
pub open spec fn grefract(uv: GV, n: GV, ratio: int) -> GV {
    let c = tdiv(gdot(gneg(uv), n), FP_ONE as int);
    let cos = if c > FP_ONE as int {
        FP_ONE as int
    } else {
        c
    };
    let perp = gscale(gadd(uv, gscale(n, cos)), ratio);
    let k = FP_ONE as int * FP_ONE as int - glen2(perp);
    let par = sqrt_floor(
        if k >= 0 {
            k
        } else {
            0
        },
    );
    gsub(perp, gscale(n, par))
}

/// Refraction by Snell's law: given the unit incident vector, the unit
/// normal and the ratio of refractive indices, the transmitted
/// direction. The caller handles total internal reflection; here a
/// negative radicand is clamped to zero.
pub fn refract(uv: Vec3, n: Vec3, etai_over_etat: i128) -> (r: Vec3)
    requires
        fits3(uv.gv(), 2 * FP_ONE as int),
        fits3(n.gv(), FP_ONE as int),
        0 <= etai_over_etat <= 1048576,
    ensures
        r.gv() == grefract(uv.gv(), n.gv(), etai_over_etat as int),
        fits3(r.gv(), 16777216),
{
    let craw = dot(uv.neg(), n);
    proof {
        lemma_dot_bound(gneg(uv.gv()), n.gv(), 2 * FP_ONE as int, FP_ONE as int);
        lemma_tdiv_abs_le(gdot(gneg(uv.gv()), n.gv()), FP_ONE as int, 6 * FP_ONE as int);
    }
    let c = div_trunc(craw, FP_ONE);
    let cos = if c > FP_ONE {
        FP_ONE
    } else {
        c
    };
    proof {
        lemma_scale_fits(n.gv(), cos as int, FP_ONE as int, 6 * FP_ONE as int);
        lemma_scale_fits(gadd(uv.gv(), gscale(n.gv(), cos as int)), etai_over_etat as int,
            8 * FP_ONE as int, 8388608);
    }
    let perp = uv.add(n.scale(cos)).scale(etai_over_etat);
    let l2 = perp.length_squared();
    proof {
        lemma_dot_bound(perp.gv(), perp.gv(), 8388608, 8388608);
        lemma_len2_nonneg(perp.gv());
    }
    let k = FP_ONE * FP_ONE - l2;
    let kc = if k < 0 {
        0
    } else {
        k
    };
    let par = isqrt_u128(kc as u128);
    proof {
        if par as int > 65536 {
            assert(par as int * par as int > 4294967296int) by (nonlinear_arith)
                requires
                    par as int > 65536,
            ;
        }
        lemma_scale_fits(n.gv(), par as int, FP_ONE as int, FP_ONE as int);
    }
    perp.sub(n.scale(par as i128))
}

/// Fixed-point scaling of a component-bounded vector: if each component
/// is within `b` and `|k| * b <= x * FP_ONE`, the scaled components are
/// within `x`.
pub proof fn lemma_scale_fits(a: GV, k: int, b: int, x: int)
    requires
        fits3(a, b),
        0 <= b,
        abs_i(k) * b <= x * FP_ONE as int,
    ensures
        fits3(gscale(a, k), x),
{
    assert(abs_i(a.x * k) <= x * FP_ONE as int && abs_i(a.y * k) <= x * FP_ONE as int && abs_i(
        a.z * k,
    ) <= x * FP_ONE as int) by (nonlinear_arith)
        requires
            fits3(a, b),
            0 <= b,
            abs_i(k) * b <= x * FP_ONE as int,
    ;
    lemma_tdiv_abs_le(a.x * k, FP_ONE as int, x);
    lemma_tdiv_abs_le(a.y * k, FP_ONE as int, x);
    lemma_tdiv_abs_le(a.z * k, FP_ONE as int, x);
}

/// A uniform random point inside the unit sphere, by rejection sampling.
pub fn random_in_unit_sphere(s: &mut Sampler) -> (r: Vec3)
    ensures
        fits3(r.gv(), FP_ONE as int),
        glen2(r.gv()) < FP_ONE as int * FP_ONE as int,
{
    let mut i: u32 = 0;
    while i < 64
        invariant
            i <= 64,
        decreases 64 - i,
    {
        let v = Vec3 {
            x: s.next_range(-FP_ONE, FP_ONE),
            y: s.next_range(-FP_ONE, FP_ONE),
            z: s.next_range(-FP_ONE, FP_ONE),
        };
        let l2 = v.length_squared();
        if l2 < FP_ONE * FP_ONE {
            return v;
        }
        i = i + 1;
    }
    Vec3 { x: 0, y: 0, z: 0 }
}

/// A uniform random unit vector (a point on the unit sphere), by
/// rejection sampling followed by normalization; after too many
/// rejections a fixed axis is returned.
pub fn random_unit_vector(s: &mut Sampler) -> (r: Vec3)
    ensures
        fits3(r.gv(), FP_ONE as int),
        ((exists|v: GV|
            fits3(v, FP_ONE as int) && 1 <= #[trigger] glen2(v) < FP_ONE as int * FP_ONE as int
                && r.gv() == gunit(v)) || r.gv() == (GV { x: FP_ONE as int, y: 0, z: 0 })),
{
    let mut i: u32 = 0;
    while i < 64
        invariant
            i <= 64,
        decreases 64 - i,
    {
        let v = Vec3 {
            x: s.next_range(-FP_ONE, FP_ONE),
            y: s.next_range(-FP_ONE, FP_ONE),
            z: s.next_range(-FP_ONE, FP_ONE),
        };
        let l2 = v.length_squared();
        if 1 <= l2 && l2 < FP_ONE * FP_ONE {
            let u = unit_vector(v);
            proof {
                assert(fits3(v.gv(), FP_ONE as int) && 1 <= glen2(v.gv()) < FP_ONE as int
                    * FP_ONE as int && u.gv() == gunit(v.gv()));
            }
            return u;
        }
        i = i + 1;
    }
    Vec3 { x: FP_ONE, y: 0, z: 0 }
}

/// A uniform random point inside the unit disk in the xy-plane, by
/// rejection sampling.
pub fn random_in_unit_disk(s: &mut Sampler) -> (r: Vec3)
    ensures
        fits3(r.gv(), FP_ONE as int),
        r.z == 0,
        glen2(r.gv()) < FP_ONE as int * FP_ONE as int,
{
    let mut i: u32 = 0;
    while i < 64
        invariant
            i <= 64,
        decreases 64 - i,
    {
        let v = Vec3 { x: s.next_range(-FP_ONE, FP_ONE), y: s.next_range(-FP_ONE, FP_ONE), z: 0 };
        let l2 = v.length_squared();
        if l2 < FP_ONE * FP_ONE {
            return v;
        }
        i = i + 1;
    }
    Vec3 { x: 0, y: 0, z: 0 }
}

} // verus!
