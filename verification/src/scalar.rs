//! Saturating fixed-point numbers.
//!
//! A [`Scalar`] stores a real quantity as a whole number of millionths in an
//! `i64`. Every operation computes the exact mathematical result, rounds it
//! down to the next representable value and clamps it to the range of `i64`.
//! The largest value doubles as positive infinity.

use vstd::arithmetic::div_mod::lemma_fundamental_div_mod;
use vstd::arithmetic::div_mod::lemma_fundamental_div_mod_converse;
use vstd::prelude::*;

verus! {

/// Number of raw units that make up the value one.
pub const SCALE: i64 = 1_000_000;

/// Raw value of the positive-infinity sentinel.
pub const INFINITY_RAW: i64 = 0x7fff_ffff_ffff_ffff;

/// Raw value of the self-intersection bias, one thousandth.
pub const EPSILON_RAW: i64 = 1_000;

/// A fixed-point number with six decimal places.
#[derive(Clone, Copy, Debug, PartialEq, Eq, Structural)]
pub struct Scalar {
    /// The value in millionths.
    pub raw: i64,
}

/// Clamps an integer to the range of `i64`.
pub open spec fn saturate(v: int) -> int {
    if v < i64::MIN {
        i64::MIN as int
    } else if v > i64::MAX {
        i64::MAX as int
    } else {
        v
    }
}

/// The quotient `n / d` rounded towards negative infinity, for `d != 0`.
pub open spec fn floor_div(n: int, d: int) -> int {
    if d > 0 {
        n / d
    } else {
        (-n) / (-d)
    }
}

/// The scalar whose raw value is `v` clamped to the range of `i64`.
pub open spec fn scalar_of(v: int) -> Scalar {
    Scalar { raw: saturate(v) as i64 }
}

/// `floor_div(n, d)` is the largest integer `q` with `q * d <= n` when `d` is
/// positive, and with `q * d >= n` when `d` is negative.
pub proof fn lemma_floor_div_bounds(n: int, d: int)
    requires
        d != 0,
    ensures
        d > 0 ==> floor_div(n, d) * d <= n < (floor_div(n, d) + 1) * d,
        d < 0 ==> floor_div(n, d) * d >= n > (floor_div(n, d) + 1) * d,
{
    if d > 0 {
        lemma_fundamental_div_mod(n, d);
        assert(d * (n / d) == (n / d) * d) by (nonlinear_arith);
        assert(((n / d) + 1) * d == (n / d) * d + d) by (nonlinear_arith);
    } else {
        let q = (-n) / (-d);
        lemma_fundamental_div_mod(-n, -d);
        assert((-d) * q == -(q * d)) by (nonlinear_arith);
        assert((q + 1) * d == q * d + d) by (nonlinear_arith);
    }
}

/// `s` is the square root of `n` rounded down.
pub open spec fn is_floor_sqrt(n: int, s: int) -> bool {
    0 <= s && s * s <= n && n < (s + 1) * (s + 1)
}

/// The square root of `n` rounded down, for `n >= 0`.
pub open spec fn floor_sqrt(n: int) -> int {
    choose|s: int| is_floor_sqrt(n, s)
}

/// A number has at most one rounded-down square root, so any `s` with
/// `is_floor_sqrt(n, s)` is `floor_sqrt(n)`.
pub proof fn lemma_floor_sqrt_unique(n: int, s: int)
    requires
        is_floor_sqrt(n, s),
    ensures
        floor_sqrt(n) == s,
{
    let t = floor_sqrt(n);
    assert(is_floor_sqrt(n, t));
    assert(t == s) by (nonlinear_arith)
        requires
            0 <= s,
            s * s <= n,
            n < (s + 1) * (s + 1),
            0 <= t,
            t * t <= n,
            n < (t + 1) * (t + 1),
    ;
}

fn clamp_to_i64(v: i128) -> (r: i64)
    ensures
        r == saturate(v as int),
{
    if v < i64::MIN as i128 {
        i64::MIN
    } else if v > i64::MAX as i128 {
        i64::MAX
    } else {
        v as i64
    }
}

fn floor_div_i128(n: i128, d: i128) -> (q: i128)
    requires
        d != 0,
        -0x4000_0000_0000_0000_0000_0000_0000_0000 <= n <= 0x4000_0000_0000_0000_0000_0000_0000_0000,
        -0x4000_0000_0000_0000_0000_0000_0000_0000 <= d <= 0x4000_0000_0000_0000_0000_0000_0000_0000,
    ensures
        q == floor_div(n as int, d as int),
{
    let (num, den): (i128, i128) = if d < 0 {
        (-n, -d)
    } else {
        (n, d)
    };
    if num >= 0 {
        num / den
    } else {
        let pos: i128 = -num;
        let q: i128 = pos / den;
        let r: i128 = pos % den;
        proof {
            lemma_fundamental_div_mod(pos as int, den as int);
            assert(den * q == q * den) by (nonlinear_arith);
            if r == 0 {
                assert(num == (-q) * den + 0) by (nonlinear_arith)
                    requires
                        pos == q * den,
                        num == -pos,
                ;
                lemma_fundamental_div_mod_converse(num as int, den as int, -q as int, 0);
            } else {
                assert(num == (-q - 1) * den + (den - r)) by (nonlinear_arith)
                    requires
                        pos == q * den + r,
                        num == -pos,
                ;
                lemma_fundamental_div_mod_converse(
                    num as int,
                    den as int,
                    (-q - 1) as int,
                    (den - r) as int,
                );
            }
            assert(0 <= q <= pos) by (nonlinear_arith)
                requires
                    pos == q * den + r,
                    0 <= r < den,
                    pos >= 0,
                    q == pos / den,
                    den > 0,
            ;
        }
        if r == 0 {
            -q
        } else {
            -q - 1
        }
    }
}

fn floor_sqrt_u128(n: u128) -> (s: u128)
    ensures
        is_floor_sqrt(n as int, s as int),
        s == floor_sqrt(n as int),
{
    let mut lo: u128 = 0;
    let mut hi: u128 = 0x1_0000_0000_0000_0000;
    while hi - lo > 1
        invariant
            lo < hi <= 0x1_0000_0000_0000_0000,
            lo * lo <= n,
            n < hi * hi,
        decreases hi - lo,
    {
        let mid: u128 = lo + (hi - lo) / 2;
        assert(mid * mid <= 0xffff_ffff_ffff_ffff * 0xffff_ffff_ffff_ffff) by (nonlinear_arith)
            requires
                0 <= mid <= 0xffff_ffff_ffff_ffff,
        ;
        if mid * mid <= n {
            lo = mid;
        } else {
            hi = mid;
        }
    }
    proof {
        lemma_floor_sqrt_unique(n as int, lo as int);
    }
    lo
}

impl Scalar {
    /// The value zero.
    pub open spec fn spec_zero() -> Scalar {
        Scalar { raw: 0 }
    }

    /// The value one.
    pub open spec fn spec_one() -> Scalar {
        Scalar { raw: SCALE }
    }

    /// The positive-infinity sentinel, the largest representable value.
    pub open spec fn spec_infinity() -> Scalar {
        Scalar { raw: INFINITY_RAW }
    }

    /// The self-intersection bias, one thousandth.
    pub open spec fn spec_epsilon() -> Scalar {
        Scalar { raw: EPSILON_RAW }
    }

    /// The whole number `n`.
    pub open spec fn spec_from_int(n: int) -> Scalar {
        scalar_of(n * SCALE)
    }

    /// The saturated sum.
    pub open spec fn spec_add(self, rhs: Scalar) -> Scalar {
        scalar_of(self.raw + rhs.raw)
    }

    /// The saturated difference.
    pub open spec fn spec_sub(self, rhs: Scalar) -> Scalar {
        scalar_of(self.raw - rhs.raw)
    }

    /// The saturated negation.
    pub open spec fn spec_neg(self) -> Scalar {
        scalar_of(-self.raw)
    }

    /// The product, rounded down and saturated.
    #[verifier::opaque]
    pub open spec fn spec_mul(self, rhs: Scalar) -> Scalar {
        scalar_of((self.raw * rhs.raw) / (SCALE as int))
    }

    /// The quotient, rounded down and saturated. Dividing by zero gives the
    /// extreme value with the sign of the dividend, and zero for `0 / 0`.
    #[verifier::opaque]
    pub open spec fn spec_div(self, rhs: Scalar) -> Scalar {
        if rhs.raw == 0 {
            if self.raw > 0 {
                Scalar { raw: i64::MAX }
            } else if self.raw < 0 {
                Scalar { raw: i64::MIN }
            } else {
                Scalar { raw: 0 }
            }
        } else {
            scalar_of(floor_div(self.raw * SCALE, rhs.raw as int))
        }
    }

    /// The square root, rounded down; zero for a negative value.
    #[verifier::opaque]
    pub open spec fn spec_sqrt(self) -> Scalar {
        if self.raw <= 0 {
            Scalar { raw: 0 }
        } else {
            Scalar { raw: floor_sqrt(self.raw * SCALE) as i64 }
        }
    }

    /// The `n`-th power by square-and-multiply, each product rounded down
    /// and saturated.
    pub open spec fn spec_pow(self, n: nat) -> Scalar
        decreases n,
    {
        if n == 0 {
            Scalar::spec_one()
        } else {
            let half = self.spec_pow(n / 2);
            let square = half.spec_mul(half);
            if n % 2 == 0 {
                square
            } else {
                square.spec_mul(self)
            }
        }
    }

    /// The power with a signed exponent: the reciprocal of the positive
    /// power when `n` is negative.
    pub open spec fn spec_powi(self, n: int) -> Scalar {
        if n >= 0 {
            self.spec_pow(n as nat)
        } else {
            Scalar::spec_one().spec_div(self.spec_pow((-n) as nat))
        }
    }

    /// The value zero.
    pub fn zero() -> (r: Scalar)
        ensures
            r == Scalar::spec_zero(),
    {
        Scalar { raw: 0 }
    }

    /// The value one.
    pub fn one() -> (r: Scalar)
        ensures
            r == Scalar::spec_one(),
    {
        Scalar { raw: SCALE }
    }

    /// The positive-infinity sentinel.
    pub fn infinity() -> (r: Scalar)
        ensures
            r == Scalar::spec_infinity(),
    {
        Scalar { raw: INFINITY_RAW }
    }

    /// The self-intersection bias, one thousandth.
    pub fn epsilon() -> (r: Scalar)
        ensures
            r == Scalar::spec_epsilon(),
    {
        Scalar { raw: EPSILON_RAW }
    }

    /// Converts a whole number; the result is exact.
    pub fn from_int(n: i32) -> (r: Scalar)
        ensures
            r == Scalar::spec_from_int(n as int),
            r.raw == n * SCALE,
    {
        Scalar { raw: (n as i64) * SCALE }
    }

    /// Converts an unsigned whole number; the result is exact.
    pub fn from_u32(n: u32) -> (r: Scalar)
        ensures
            r == Scalar::spec_from_int(n as int),
            r.raw == n * SCALE,
    {
        Scalar { raw: (n as i64) * SCALE }
    }

    /// Adds, saturating at the ends of the range.
    pub fn add(self, rhs: Scalar) -> (r: Scalar)
        ensures
            r == self.spec_add(rhs),
    {
        Scalar { raw: clamp_to_i64(self.raw as i128 + rhs.raw as i128) }
    }

    /// Subtracts, saturating at the ends of the range.
    pub fn sub(self, rhs: Scalar) -> (r: Scalar)
        ensures
            r == self.spec_sub(rhs),
    {
        Scalar { raw: clamp_to_i64(self.raw as i128 - rhs.raw as i128) }
    }

    /// Negates; the lowest value becomes the highest.
    pub fn neg(self) -> (r: Scalar)
        ensures
            r == self.spec_neg(),
    {
        Scalar { raw: clamp_to_i64(-(self.raw as i128)) }
    }

    /// Multiplies, rounding down and saturating.
    pub fn mul(self, rhs: Scalar) -> (r: Scalar)
        ensures
            r == self.spec_mul(rhs),
    {
        proof {
            reveal(Scalar::spec_mul);
        }
        let a: i128 = self.raw as i128;
        let b: i128 = rhs.raw as i128;
        assert(-0x4000_0000_0000_0000_0000_0000_0000_0000 <= a * b
            <= 0x4000_0000_0000_0000_0000_0000_0000_0000) by (nonlinear_arith)
            requires
                -0x8000_0000_0000_0000 <= a <= 0x8000_0000_0000_0000,
                -0x8000_0000_0000_0000 <= b <= 0x8000_0000_0000_0000,
        ;
        Scalar { raw: clamp_to_i64(floor_div_i128(a * b, SCALE as i128)) }
    }

    /// Divides, rounding down and saturating. A zero divisor gives the extreme
    /// value with the sign of the dividend, and zero for `0 / 0`.
    pub fn div(self, rhs: Scalar) -> (r: Scalar)
        ensures
            r == self.spec_div(rhs),
    {
        proof {
            reveal(Scalar::spec_div);
        }
        if rhs.raw == 0 {
            if self.raw > 0 {
                Scalar { raw: i64::MAX }
            } else if self.raw < 0 {
                Scalar { raw: i64::MIN }
            } else {
                Scalar { raw: 0 }
            }
        } else {
            let a: i128 = self.raw as i128;
            let n: i128 = a * 1_000_000;
            Scalar { raw: clamp_to_i64(floor_div_i128(n, rhs.raw as i128)) }
        }
    }

    /// Takes the square root, rounding down. A negative value gives zero.
    pub fn sqrt(self) -> (r: Scalar)
        ensures
            r == self.spec_sqrt(),
    {
        proof {
            reveal(Scalar::spec_sqrt);
        }
        if self.raw <= 0 {
            Scalar { raw: 0 }
        } else {
            let a: u128 = self.raw as u128;
            let n: u128 = a * 1_000_000;
            let s: u128 = floor_sqrt_u128(n);
            assert(s < 0x400_0000_0000) by (nonlinear_arith)
                requires
                    0 <= s,
                    s * s <= n,
                    n < 0x8_0000_0000_0000_0000_0000,
            ;
            Scalar { raw: s as i64 }
        }
    }

    /// Raises to the `n`-th power by square-and-multiply.
    pub fn pow(self, n: u32) -> (r: Scalar)
        ensures
            r == self.spec_pow(n as nat),
        decreases n,
    {
        if n == 0 {
            Scalar::one()
        } else {
            let half = self.pow(n / 2);
            let square = half.mul(half);
            if n % 2 == 0 {
                square
            } else {
                square.mul(self)
            }
        }
    }

    /// Raises to a signed power; a negative exponent gives the reciprocal of
    /// the positive power.
    pub fn powi(self, n: i32) -> (r: Scalar)
        ensures
            r == self.spec_powi(n as int),
    {
        if n >= 0 {
            self.pow(n as u32)
        } else {
            let m: i64 = -(n as i64);
            Scalar::one().div(self.pow(m as u32))
        }
    }
}

/// A product that does not saturate is the exact product rounded down to
/// the next millionth.
pub proof fn lemma_mul_rounds_down(x: Scalar, y: Scalar)
    ensures
        ({
            let r = x.spec_mul(y).raw;
            i64::MIN < r < i64::MAX ==> r * SCALE <= x.raw * y.raw < (r + 1) * SCALE
        }),
{
    reveal(Scalar::spec_mul);
    lemma_floor_div_bounds(x.raw * y.raw, SCALE as int);
}

/// A quotient that does not saturate is the exact quotient rounded down to
/// the next millionth.
pub proof fn lemma_div_rounds_down(x: Scalar, y: Scalar)
    requires
        y.raw != 0,
    ensures
        ({
            let r = x.spec_div(y).raw;
            i64::MIN < r < i64::MAX ==> {
                &&& y.raw > 0 ==> r * y.raw <= x.raw * SCALE < (r + 1) * y.raw
                &&& y.raw < 0 ==> r * y.raw >= x.raw * SCALE > (r + 1) * y.raw
            }
        }),
{
    reveal(Scalar::spec_div);
    lemma_floor_div_bounds(x.raw * SCALE, y.raw as int);
}

/// The square root of a positive value is the exact root rounded down to
/// the next millionth.
pub proof fn lemma_sqrt_rounds_down(x: Scalar)
    requires
        x.raw > 0,
    ensures
        ({
            let r = x.spec_sqrt().raw;
            0 <= r && r * r <= x.raw * SCALE < (r + 1) * (r + 1)
        }),
{
    reveal(Scalar::spec_sqrt);
    let n = x.raw * SCALE;
    lemma_floor_sqrt_exists(n);
    let s = floor_sqrt(n);
    assert(s < 0x400_0000_0000) by (nonlinear_arith)
        requires
            0 <= s,
            s * s <= n,
            n < 0x8_0000_0000_0000_0000_0000,
    ;
}

/// Multiplying by one changes nothing.
pub proof fn lemma_mul_one(x: Scalar)
    ensures
        x.spec_mul(Scalar::spec_one()) == x,
{
    reveal(Scalar::spec_mul);
    let v = x.raw as int;
    assert((v * 1_000_000) / 1_000_000 == v) by (nonlinear_arith);
}

/// Multiplying by zero gives zero.
pub proof fn lemma_mul_zero(x: Scalar)
    ensures
        x.spec_mul(Scalar::spec_zero()) == Scalar::spec_zero(),
{
    reveal(Scalar::spec_mul);
    let v = x.raw as int;
    assert(v * 0 == 0) by (nonlinear_arith);
}

/// The product of two values that are not negative is not negative.
pub proof fn lemma_mul_nonnegative(x: Scalar, y: Scalar)
    requires
        x.raw >= 0,
        y.raw >= 0,
    ensures
        x.spec_mul(y).raw >= 0,
{
    reveal(Scalar::spec_mul);
    let a = x.raw as int;
    let b = y.raw as int;
    assert((a * b) / 1_000_000 >= 0) by (nonlinear_arith)
        requires
            a >= 0,
            b >= 0,
    ;
}

/// The quotient of two values that are not negative is not negative,
/// also where the divisor is zero.
pub proof fn lemma_div_nonnegative(x: Scalar, y: Scalar)
    requires
        x.raw >= 0,
        y.raw >= 0,
    ensures
        x.spec_div(y).raw >= 0,
{
    reveal(Scalar::spec_div);
    let a = x.raw as int;
    let b = y.raw as int;
    if b > 0 {
        assert((a * 1_000_000) / b >= 0) by (nonlinear_arith)
            requires
                a >= 0,
                b > 0,
        ;
    }
}

/// Every number that is not negative has a rounded-down square root, and
/// `floor_sqrt` is it.
pub proof fn lemma_floor_sqrt_exists(n: int)
    requires
        n >= 0,
    ensures
        is_floor_sqrt(n, floor_sqrt(n)),
    decreases n,
{
    if n == 0 {
        assert(is_floor_sqrt(0, 0));
    } else {
        lemma_floor_sqrt_exists(n - 1);
        let s = floor_sqrt(n - 1);
        if (s + 1) * (s + 1) <= n {
            assert(is_floor_sqrt(n, s + 1)) by (nonlinear_arith)
                requires
                    0 <= s,
                    n - 1 < (s + 1) * (s + 1),
                    (s + 1) * (s + 1) <= n,
            ;
        } else {
            assert(is_floor_sqrt(n, s)) by (nonlinear_arith)
                requires
                    0 <= s,
                    s * s <= n - 1,
                    n < (s + 1) * (s + 1),
            ;
        }
    }
}

/// A square root is never negative.
pub proof fn lemma_sqrt_nonnegative(x: Scalar)
    ensures
        x.spec_sqrt().raw >= 0,
{
    if x.raw > 0 {
        lemma_sqrt_rounds_down(x);
    } else {
        reveal(Scalar::spec_sqrt);
    }
}

/// A power of a value that is not negative is not negative, whatever the
/// sign of the exponent.
pub proof fn lemma_powi_nonnegative(x: Scalar, n: int)
    requires
        x.raw >= 0,
    ensures
        x.spec_powi(n).raw >= 0,
{
    if n >= 0 {
        lemma_pow_nonnegative(x, n as nat);
    } else {
        lemma_pow_nonnegative(x, (-n) as nat);
        lemma_div_nonnegative(Scalar::spec_one(), x.spec_pow((-n) as nat));
    }
}

/// A power of a value that is not negative is not negative.
pub proof fn lemma_pow_nonnegative(x: Scalar, n: nat)
    requires
        x.raw >= 0,
    ensures
        x.spec_pow(n).raw >= 0,
    decreases n,
{
    if n > 0 {
        lemma_pow_nonnegative(x, n / 2);
        let half = x.spec_pow(n / 2);
        lemma_mul_nonnegative(half, half);
        lemma_mul_nonnegative(half.spec_mul(half), x);
    }
}

/// Multiplying by a whole number is exact up to saturation.
pub proof fn lemma_mul_whole(k: int, x: Scalar)
    requires
        -0x8000_0000 <= k < 0x8000_0000,
    ensures
        Scalar::spec_from_int(k).spec_mul(x) == scalar_of(k * x.raw),
{
    reveal(Scalar::spec_mul);
    let v = x.raw as int;
    assert(((k * 1_000_000) * v) / 1_000_000 == k * v) by (nonlinear_arith);
}

} // verus!
