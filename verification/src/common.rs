//! Fixed-point scalar kernel and the random sampler.
//!
//! Scalars are signed 64.16 fixed-point numbers held in `i128`: the value
//! `x` represents the real number `x / FP_ONE`. All executable arithmetic
//! is specified exactly over `int`, with truncating (round-toward-zero)
//! division mirrored by the spec function [`tdiv`].

use vstd::prelude::*;

verus! {

/// The fixed-point scale: 2^16. A scalar `x: i128` stands for `x / FP_ONE`.
pub const FP_ONE: i128 = 65536;

/// Largest coordinate magnitude the geometry accepts (2^32 raw, 65536 units).
pub const COORD_MAX: i128 = 4294967296;

/// Largest ray-direction component magnitude (2^27 raw, 2048 units).
pub const DIR_MAX: i128 = 134217728;

/// Largest ray-parameter magnitude accepted by intersection tests (2^48 raw).
pub const T_MAX: i128 = 281474976710656;

/// Lower ray-parameter cutoff used by the integrator to avoid shadow acne
/// (about 0.001 in fixed point).
pub const T_EPS: i128 = 66;

/// Magnitude of a mathematical integer.
pub open spec fn abs_i(a: int) -> int {
    if a >= 0 { a } else { -a }
}

/// Truncating (round-toward-zero) division, the meaning of the executable
/// division helpers. Matches Rust's `/` on signed integers.
pub open spec fn tdiv(a: int, b: int) -> int
    recommends
        b != 0,
{
    if (a >= 0) == (b >= 0) {
        abs_i(a) / abs_i(b)
    } else {
        -(abs_i(a) / abs_i(b))
    }
}

/// `r` is the floor of the square root of `n`.
pub open spec fn is_isqrt(n: int, r: int) -> bool {
    0 <= r && r * r <= n && n < (r + 1) * (r + 1)
}

/// The floor of the square root of a nonnegative integer.
pub open spec fn sqrt_floor(n: int) -> int {
    choose|r: int| is_isqrt(n, r)
}

/// A floor square root exists for every nonnegative integer.
pub proof fn lemma_sqrt_exists(n: int)
    requires
        n >= 0,
    ensures
        is_isqrt(n, sqrt_floor(n)),
    decreases n,
{
    if n == 0 {
        assert(is_isqrt(0, 0));
    } else {
        lemma_sqrt_exists(n - 1);
        let r = sqrt_floor(n - 1);
        assert(is_isqrt(n - 1, r));
        if (r + 1) * (r + 1) <= n {
            assert(n - 1 < (r + 1) * (r + 1));
            assert(n == (r + 1) * (r + 1));
            assert((r + 2) * (r + 2) > n) by (nonlinear_arith)
                requires
                    r >= 0,
                    n == (r + 1) * (r + 1),
            ;
            assert(is_isqrt(n, r + 1));
        } else {
            assert(is_isqrt(n, r));
        }
    }
    assert(exists|r: int| is_isqrt(n, r));
    assert(is_isqrt(n, sqrt_floor(n)));
}

/// The floor square root is unique.
pub proof fn lemma_sqrt_unique(n: int, a: int, b: int)
    requires
        is_isqrt(n, a),
        is_isqrt(n, b),
    ensures
        a == b,
{
    if a < b {
        assert((a + 1) * (a + 1) <= b * b) by (nonlinear_arith)
            requires
                0 <= a,
                a + 1 <= b,
        ;
    }
    if b < a {
        assert((b + 1) * (b + 1) <= a * a) by (nonlinear_arith)
            requires
                0 <= b,
                b + 1 <= a,
        ;
    }
}

/// Floor square root of a `u128`, by binary search.
pub fn isqrt_u128(n: u128) -> (r: u128)
    ensures
        is_isqrt(n as int, r as int),
        r as int == sqrt_floor(n as int),
{
    let mut lo: u128 = 0;
    let mut hi: u128 = 18446744073709551616;
    assert(n < hi as int * hi as int) by (nonlinear_arith)
        requires
            hi == 18446744073709551616u128,
            n <= 340282366920938463463374607431768211455u128,
    ;
    while hi - lo > 1
        invariant
            lo < hi,
            hi <= 18446744073709551616,
            lo as int * lo as int <= n as int,
            (n as int) < hi as int * hi as int,
        decreases hi - lo,
    {
        let mid: u128 = lo + (hi - lo) / 2;
        assert(lo < mid < hi);
        assert(mid as int * mid as int <= 340282366920938463463374607431768211455int) by (nonlinear_arith)
            requires
                0 <= mid as int,
                mid as int <= 18446744073709551615int,
        ;
        if mid * mid <= n {
            lo = mid;
        } else {
            hi = mid;
        }
    }
    assert(hi == lo + 1);
    proof {
        lemma_sqrt_exists(n as int);
        lemma_sqrt_unique(n as int, lo as int, sqrt_floor(n as int));
    }
    lo
}

/// Truncating division on `i128`, computed through unsigned division.
pub fn div_trunc(a: i128, b: i128) -> (q: i128)
    requires
        b != 0,
        a != i128::MIN,
        b != i128::MIN,
    ensures
        q as int == tdiv(a as int, b as int),
{
    let neg: bool = (a < 0) != (b < 0);
    let ua: u128 = if a < 0 { (-a) as u128 } else { a as u128 };
    let ub: u128 = if b < 0 { (-b) as u128 } else { b as u128 };
    assert(ua as int == abs_i(a as int));
    assert(ub as int == abs_i(b as int));
    let uq: u128 = ua / ub;
    assert(uq as int <= ua as int) by (nonlinear_arith)
        requires
            uq as int == ua as int / ub as int,
            ub as int >= 1,
            ua as int >= 0,
    ;
    if neg {
        -(uq as i128)
    } else {
        uq as i128
    }
}

/// Bound on each factor of a raw product so that sums of three products
/// stay inside `i128` (2^61).
pub const PROD_MAX: i128 = 2305843009213693952;

/// Division by a positive number cannot exceed a bound whose multiple
/// bounds the dividend.
pub proof fn lemma_div_le(n: int, d: int, x: int)
    requires
        0 <= n,
        1 <= d,
        n <= x * d,
    ensures
        n / d <= x,
{
    vstd::arithmetic::div_mod::lemma_fundamental_div_mod(n, d);
    vstd::arithmetic::div_mod::lemma_mod_bound(n, d);
    assert(d * (n / d) <= x * d);
    assert(n / d <= x) by (nonlinear_arith)
        requires
            d * (n / d) <= x * d,
            1 <= d,
    ;
}

/// Division by a positive number is at least any bound whose multiple
/// is below the dividend.
pub proof fn lemma_div_ge(n: int, d: int, x: int)
    requires
        0 <= n,
        1 <= d,
        x * d <= n,
    ensures
        x <= n / d,
{
    vstd::arithmetic::div_mod::lemma_fundamental_div_mod(n, d);
    vstd::arithmetic::div_mod::lemma_mod_bound(n, d);
    assert(x * d <= d * (n / d) + (d - 1));
    assert(x <= n / d) by (nonlinear_arith)
        requires
            x * d <= d * (n / d) + (d - 1),
            1 <= d,
    ;
}

/// Division of a nonnegative number by a positive one is nonnegative.
pub proof fn lemma_div_nonneg(n: int, d: int)
    requires
        0 <= n,
        1 <= d,
    ensures
        0 <= n / d,
{
    lemma_div_ge(n, d, 0);
}

/// The magnitude of a truncating quotient is bounded by any `x` with
/// `|a| <= x * b`.
pub proof fn lemma_tdiv_abs_le(a: int, b: int, x: int)
    requires
        1 <= b,
        abs_i(a) <= x * b,
    ensures
        abs_i(tdiv(a, b)) <= x,
        tdiv(a, b) * a >= 0,
{
    lemma_div_le(abs_i(a), b, x);
    lemma_div_nonneg(abs_i(a), b);
    assert(abs_i(tdiv(a, b)) == abs_i(a) / b);
    assert(tdiv(a, b) * a >= 0) by (nonlinear_arith)
        requires
            (a >= 0 && tdiv(a, b) >= 0) || (a <= 0 && tdiv(a, b) <= 0),
    ;
}

/// Bound on the magnitude of a raw product held in `i128` (2^124).
pub const PROD_WIDE: i128 = 21267647932558653966460912964485513216;

/// A product of bounded factors is bounded by the product of the bounds.
pub proof fn lemma_abs_mul_le(a: int, b: int, xa: int, xb: int)
    requires
        abs_i(a) <= xa,
        abs_i(b) <= xb,
    ensures
        abs_i(a * b) <= xa * xb,
        abs_i(a) * abs_i(b) <= xa * xb,
        abs_i(a * b) == abs_i(a) * abs_i(b),
{
    assert(abs_i(a * b) == abs_i(a) * abs_i(b) && abs_i(a) * abs_i(b) <= xa * xb)
        by (nonlinear_arith)
        requires
            abs_i(a) <= xa,
            abs_i(b) <= xb,
    ;
}

/// Truncating division is monotone in the dividend.
pub proof fn lemma_tdiv_mono(x: int, y: int, d: int)
    requires
        x <= y,
        1 <= d,
    ensures
        tdiv(x, d) <= tdiv(y, d),
{
    if 0 <= x {
        vstd::arithmetic::div_mod::lemma_div_is_ordered(x, y, d);
    } else if y < 0 {
        vstd::arithmetic::div_mod::lemma_div_is_ordered(-y, -x, d);
    } else {
        lemma_div_nonneg(abs_i(y), d);
        lemma_div_nonneg(abs_i(x), d);
    }
}

/// Exact product of two scalars whose magnitudes multiply to at most
/// `PROD_WIDE`.
pub fn mul_big(a: i128, b: i128) -> (r: i128)
    requires
        abs_i(a as int) * abs_i(b as int) <= PROD_WIDE,
    ensures
        r as int == a as int * b as int,
{
    proof {
        assert(abs_i(a as int * b as int) == abs_i(a as int) * abs_i(b as int))
            by (nonlinear_arith);
    }
    a * b
}

/// Exact product of two bounded scalars.
pub fn mul_raw(a: i128, b: i128) -> (r: i128)
    requires
        abs_i(a as int) <= PROD_MAX,
        abs_i(b as int) <= PROD_MAX,
    ensures
        r as int == a as int * b as int,
{
    proof {
        assert(abs_i(a as int * b as int) <= PROD_MAX as int * PROD_MAX as int) by (nonlinear_arith)
            requires
                abs_i(a as int) <= PROD_MAX as int,
                abs_i(b as int) <= PROD_MAX as int,
        ;
    }
    a * b
}

/// Fixed-point product: the real product of the two represented values,
/// truncated toward zero.
pub fn mul_fp(a: i128, b: i128) -> (r: i128)
    requires
        abs_i(a as int) <= PROD_MAX,
        abs_i(b as int) <= PROD_MAX,
    ensures
        r as int == tdiv(a as int * b as int, FP_ONE as int),
{
    let p = mul_raw(a, b);
    proof {
        assert(abs_i(a as int * b as int) <= PROD_MAX as int * PROD_MAX as int) by (nonlinear_arith)
            requires
                abs_i(a as int) <= PROD_MAX as int,
                abs_i(b as int) <= PROD_MAX as int,
        ;
    }
    div_trunc(p, FP_ONE)
}

/// Fixed-point quotient: the real quotient of the two represented values,
/// truncated toward zero.
pub fn div_fp(a: i128, b: i128) -> (r: i128)
    requires
        b != 0,
        abs_i(a as int) <= PROD_MAX,
        abs_i(b as int) <= PROD_MAX,
    ensures
        r as int == tdiv(a as int * FP_ONE as int, b as int),
{
    let p = mul_raw(a, FP_ONE);
    proof {
        assert(abs_i(a as int * FP_ONE as int) <= PROD_MAX as int * PROD_MAX as int) by (nonlinear_arith)
            requires
                abs_i(a as int) <= PROD_MAX as int,
                FP_ONE == 65536i128,
                PROD_MAX == 2305843009213693952i128,
        ;
    }
    div_trunc(p, b)
}

/// The clamped value of `x` within `[min, max]`.
pub open spec fn clamp_spec(x: int, min: int, max: int) -> int {
    if x < min {
        min
    } else if x > max {
        max
    } else {
        x
    }
}

/// Clamp `x` to the interval `[min, max]`.
pub fn clamp(x: i128, min: i128, max: i128) -> (r: i128)
    ensures
        r as int == clamp_spec(x as int, min as int, max as int),
{
    if x < min {
        return min;
    }
    if x > max {
        return max;
    }
    x
}

/// An opaque pseudo-random generator; the outside generator state.
#[verifier::external_type_specification]
#[verifier::external_body]
pub struct ExStdRng(rand::rngs::StdRng);

/// Relies on rand's `StdRng::seed_from_u64`: builds a deterministic
/// generator from a 64-bit seed.
#[verifier::external_body]
fn rng_from_seed(seed: u64) -> (r: rand::rngs::StdRng) {
    rand::SeedableRng::seed_from_u64(seed)
}

/// Relies on rand's `RngCore::next_u64`: yields the generator's next 64
/// random bits; every value is a possible outcome.
#[verifier::external_body]
fn rng_next_u64(rng: &mut rand::rngs::StdRng) -> (r: u64) {
    rand::RngCore::next_u64(rng)
}

/// A pseudo-random sample source. Each rendering task owns its own
/// `Sampler`, seeded explicitly, so sampling is contention-free and
/// reproducible per stream.
pub struct Sampler {
    rng: rand::rngs::StdRng,
}

impl Sampler {
    /// A sampler seeded deterministically from `seed`.
    pub fn new(seed: u64) -> Sampler {
        Sampler { rng: rng_from_seed(seed) }
    }

    /// A fixed-point sample in `[0, 1)`, i.e. a raw value in `[0, FP_ONE)`.
    pub fn next_unit(&mut self) -> (r: i128)
        ensures
            0 <= r < FP_ONE,
    {
        let bits = rng_next_u64(&mut self.rng);
        (bits % 65536) as i128
    }

    /// A fixed-point sample in `[min, max)` (returns `min` when the
    /// interval is empty).
    pub fn next_range(&mut self, min: i128, max: i128) -> (r: i128)
        requires
            min <= max,
            -COORD_MAX <= min,
            max <= COORD_MAX,
        ensures
            min <= r <= max,
            min < max ==> r < max,
    {
        let f = self.next_unit();
        let span = max - min;
        proof {
            assert(0 <= span * f <= 562949953421312int) by (nonlinear_arith)
                requires
                    0 <= span <= 8589934592int,
                    0 <= f < 65536,
            ;
        }
        let step = div_trunc(span * f, FP_ONE);
        proof {
            assert(0 <= span * f && span * f <= span * (FP_ONE - 1)) by (nonlinear_arith)
                requires
                    0 <= span,
                    0 <= f,
                    f <= FP_ONE - 1,
            ;
            assert(tdiv(span * f, FP_ONE as int) == (span * f) / (FP_ONE as int));
            assert(0 <= (span * f) / (FP_ONE as int)) by (nonlinear_arith)
                requires
                    0 <= span * f,
            ;
            if span > 0 {
                assert((span * f) / (FP_ONE as int) < span) by (nonlinear_arith)
                    requires
                        0 <= span * f,
                        span * f <= span * (FP_ONE - 1),
                        FP_ONE == 65536,
                        span > 0,
                ;
            } else {
                assert(span * f == 0);
            }
        }
        min + step
    }
}

} // verus!
