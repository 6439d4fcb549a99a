//! What holds of the roots of the intersection quadratic.
//!
//! The two roots lie symmetrically about `-b / (2 * a)`, and a ray aimed
//! at the centre of a sphere from outside meets it twice, in front of the
//! origin. The proofs bound every intermediate value, so that nothing
//! saturates, and then follow the roots through the rounding.

use crate::scalar::is_floor_sqrt;
use crate::scalar::floor_sqrt;
use crate::scalar::lemma_floor_sqrt_exists;
use crate::scalar::lemma_mul_whole;
use crate::scalar::lemma_sqrt_nonnegative;
use crate::scalar::Scalar;
use crate::structs::Sphere;
use crate::tracer::discriminant;
use crate::tracer::quadratic_a;
use crate::tracer::quadratic_b;
use crate::tracer::quadratic_c;
use crate::tracer::quadratic_roots;
use crate::tracer::spec_intersect_ray_sphere;
use crate::vector::spec_dot;
use crate::vector::Vector;
use vstd::arithmetic::div_mod::lemma_fundamental_div_mod;
use vstd::arithmetic::div_mod::lemma_fundamental_div_mod_converse;
use vstd::prelude::*;

verus! {

/// Largest coordinate, 250 units, for which the roots of a ray aimed at a
/// centre are known not to saturate.
pub const COORDINATE_LIMIT: i64 = 250_000_000;

/// No coordinate of the vector exceeds `COORDINATE_LIMIT` in magnitude.
pub open spec fn within_limit(v: Vector) -> bool {
    &&& -COORDINATE_LIMIT <= v.x.raw <= COORDINATE_LIMIT
    &&& -COORDINATE_LIMIT <= v.y.raw <= COORDINATE_LIMIT
    &&& -COORDINATE_LIMIT <= v.z.raw <= COORDINATE_LIMIT
}

proof fn lemma_opposite_products(p: Scalar, q: Scalar)
    requires
        -500_000_000 <= q.raw <= 500_000_000,
        p.raw == -q.raw,
    ensures
        0 <= q.spec_mul(q).raw <= 250_000_000_000,
        p.spec_mul(p) == q.spec_mul(q),
        -q.spec_mul(q).raw - 1 <= p.spec_mul(q).raw <= -q.spec_mul(q).raw,
{
    reveal(Scalar::spec_mul);
    let d = q.raw as int;
    let sq = d * d;
    assert(0 <= sq <= 250_000_000_000_000_000) by (nonlinear_arith)
        requires
            sq == d * d,
            -500_000_000 <= d <= 500_000_000,
    ;
    assert((-d) * (-d) == sq && (-d) * d == -sq) by (nonlinear_arith)
        requires
            sq == d * d,
    ;
}

proof fn lemma_central_coefficients(origin: Vector, center: Vector)
    requires
        within_limit(origin),
        within_limit(center),
    ensures
        ({
            let direction = center.spec_sub(origin);
            let co = origin.spec_sub(center);
            let a = spec_dot(direction, direction);
            &&& 0 <= a.raw <= 750_000_000_000
            &&& spec_dot(co, co) == a
            &&& -a.raw - 3 <= spec_dot(co, direction).raw <= -a.raw
        }),
{
    let direction = center.spec_sub(origin);
    let co = origin.spec_sub(center);
    lemma_opposite_products(co.x, direction.x);
    lemma_opposite_products(co.y, direction.y);
    lemma_opposite_products(co.z, direction.z);
}

proof fn lemma_quotients_of_sum(x: int, y: int, d: int)
    requires
        d > 0,
    ensures
        x / d + y / d <= (x + y) / d <= x / d + y / d + 1,
{
    lemma_fundamental_div_mod(x, d);
    lemma_fundamental_div_mod(y, d);
    let q = x / d + y / d;
    let r = x % d + y % d;
    assert(x + y == q * d + r) by (nonlinear_arith)
        requires
            x == d * (x / d) + x % d,
            y == d * (y / d) + y % d,
            q == x / d + y / d,
            r == x % d + y % d,
    ;
    if r < d {
        lemma_fundamental_div_mod_converse(x + y, d, q, r);
    } else {
        assert(x + y == (q + 1) * d + (r - d)) by (nonlinear_arith)
            requires
                x + y == q * d + r,
        ;
        lemma_fundamental_div_mod_converse(x + y, d, q + 1, r - d);
    }
}

proof fn lemma_halved_quotient(n: int, a: int)
    requires
        a > 0,
    ensures
        (2 * n) / (2 * a) == n / a,
{
    lemma_fundamental_div_mod(n, a);
    let q = n / a;
    let r = n % a;
    assert(2 * n == q * (2 * a) + 2 * r) by (nonlinear_arith)
        requires
            n == a * q + r,
    ;
    lemma_fundamental_div_mod_converse(2 * n, 2 * a, q, 2 * r);
}

/// Largest magnitude of the coefficients `a` and `b`, six million units,
/// for which the roots are known not to saturate.
pub const COEFFICIENT_LIMIT: i64 = 6_000_000_000_000;

/// The two roots are symmetric about `-b / (2 * a)`, and the second is the
/// smaller.
///
/// For a positive `a`, a discriminant `d` that is not negative, and
/// coefficients within `COEFFICIENT_LIMIT`, the second root is at most the
/// first, and the sum of the roots is `-b / a`, which is twice the
/// midpoint, or one unit of rounding less.
pub proof fn lemma_roots_symmetric(a: Scalar, b: Scalar, d: Scalar)
    requires
        0 < a.raw <= COEFFICIENT_LIMIT,
        -COEFFICIENT_LIMIT <= b.raw <= COEFFICIENT_LIMIT,
        d.raw >= 0,
    ensures
        ({
            let roots = quadratic_roots(a, b, d);
            let twice_mid = b.spec_neg().spec_div(a);
            &&& roots.1.raw <= roots.0.raw
            &&& twice_mid.raw - 1 <= roots.0.raw + roots.1.raw <= twice_mid.raw
        }),
{
    reveal(Scalar::spec_div);
    let av = a.raw as int;
    let bv = b.raw as int;
    let s = d.spec_sqrt().raw as int;
    lemma_sqrt_nonnegative(d);
    assert(s <= 3_037_000_499_976) by {
        reveal(Scalar::spec_sqrt);
        if d.raw > 0 {
            let n = d.raw * 1_000_000;
            lemma_floor_sqrt_exists(n);
            let t = floor_sqrt(n);
            assert(t <= 3_037_000_499_976) by (nonlinear_arith)
                requires
                    0 <= t,
                    t * t <= n,
                    n <= 0x7fff_ffff_ffff_ffff * 1_000_000,
            ;
        }
    }
    lemma_mul_whole(2, a);
    let n1 = -bv + s;
    let n2 = -bv - s;
    let den = 2 * av;
    assert(b.spec_neg().spec_add(d.spec_sqrt()).raw == n1);
    assert(b.spec_neg().spec_sub(d.spec_sqrt()).raw == n2);
    let x = n1 * 1_000_000;
    let y = n2 * 1_000_000;
    let nb = -bv * 1_000_000;
    lemma_fundamental_div_mod(x, den);
    lemma_fundamental_div_mod(y, den);
    lemma_fundamental_div_mod(nb, av);
    assert(y / den <= x / den && -9_100_000_000_000_000_000 <= y / den && x / den
        <= 9_100_000_000_000_000_000) by (nonlinear_arith)
        requires
            y <= x,
            -9_100_000_000_000_000_000 <= y,
            x <= 9_100_000_000_000_000_000,
            den >= 2,
            x == den * (x / den) + x % den,
            y == den * (y / den) + y % den,
            0 <= x % den < den,
            0 <= y % den < den,
    ;
    assert(-6_000_000_000_000_000_000 <= nb / av <= 6_000_000_000_000_000_000)
        by (nonlinear_arith)
        requires
            -6_000_000_000_000_000_000 <= nb <= 6_000_000_000_000_000_000,
            av >= 1,
            nb == av * (nb / av) + nb % av,
            0 <= nb % av < av,
    ;
    lemma_quotients_of_sum(x, y, den);
    lemma_halved_quotient(nb, av);
    assert(x + y == 2 * nb);
}

/// A ray from outside a sphere, aimed at its centre, meets the sphere at
/// two real roots in front of the origin, and the smaller one, the entry
/// point, is the second.
///
/// The origin and the centre lie within `COORDINATE_LIMIT`, the origin lies
/// outside the sphere (`c > 0`), and the direction is the offset of the
/// centre from the origin. Then the discriminant is not negative, both
/// roots are finite and not negative, the second is the smaller, and the
/// coefficients are within `COEFFICIENT_LIMIT`, so that the roots are
/// symmetric.
pub proof fn lemma_central_ray_roots(origin: Vector, sphere: Sphere)
    requires
        within_limit(origin),
        within_limit(sphere.center),
        quadratic_c(origin, sphere).raw > 0,
    ensures
        ({
            let direction = sphere.center.spec_sub(origin);
            let a = quadratic_a(direction);
            let b = quadratic_b(origin, direction, sphere);
            let c = quadratic_c(origin, sphere);
            let roots = spec_intersect_ray_sphere(origin, direction, sphere);
            let twice_mid = b.spec_neg().spec_div(a);
            &&& 0 < a.raw <= COEFFICIENT_LIMIT
            &&& -COEFFICIENT_LIMIT <= b.raw <= 0
            &&& discriminant(a, b, c).raw >= 0
            &&& roots == quadratic_roots(a, b, discriminant(a, b, c))
            &&& 0 <= roots.1.raw <= roots.0.raw < Scalar::spec_infinity().raw
            &&& twice_mid.raw - 1 <= roots.0.raw + roots.1.raw <= twice_mid.raw
        }),
{
    let direction = sphere.center.spec_sub(origin);
    let co = origin.spec_sub(sphere.center);
    let a = quadratic_a(direction);
    let b = quadratic_b(origin, direction, sphere);
    let c = quadratic_c(origin, sphere);
    let d = discriminant(a, b, c);
    lemma_central_coefficients(origin, sphere.center);
    reveal(Scalar::spec_mul);
    reveal(Scalar::spec_div);
    reveal(Scalar::spec_sqrt);

    let av = a.raw as int;
    let cd = spec_dot(co, direction).raw as int;
    let bv = b.raw as int;
    let cv = c.raw as int;
    lemma_mul_whole(2, spec_dot(co, direction));
    lemma_mul_whole(4, a);
    lemma_mul_whole(2, a);
    assert(bv == 2 * cd);
    assert(-2 * av - 6 <= bv <= -2 * av);
    let r2 = sphere.radius.spec_mul(sphere.radius).raw as int;
    assert(r2 >= 0) by (nonlinear_arith)
        requires
            r2 == crate::scalar::saturate(
                (sphere.radius.raw * sphere.radius.raw) / 1_000_000,
            ),
    ;
    assert(cv == av - r2);
    assert(1 <= cv <= av);

    // b * b and 4 * a * c
    let bb = (bv * bv) / 1_000_000;
    let four_a = Scalar::spec_from_int(4).spec_mul(a).raw as int;
    assert(four_a == 4 * av);
    let fac = (four_a * cv) / 1_000_000;
    assert(0 <= four_a * cv <= bv * bv <= 2_250_000_000_018_000_000_000_036) by (nonlinear_arith)
        requires
            four_a == 4 * av,
            1 <= cv <= av,
            av <= 750_000_000_000,
            -2 * av - 6 <= bv <= -2 * av,
    ;
    assert(0 <= fac <= bb <= 2_250_000_000_018_000_000);
    let dv = d.raw as int;
    assert(dv == bb - fac);
    assert(0 <= dv <= bb);

    // the square root of the discriminant is at most -b
    let s = d.spec_sqrt().raw as int;
    assert(0 <= s <= -bv) by {
        if dv > 0 {
            lemma_floor_sqrt_exists(dv * 1_000_000);
            let t = floor_sqrt(dv * 1_000_000);
            assert(is_floor_sqrt(dv * 1_000_000, t));
            assert(t <= -bv) by (nonlinear_arith)
                requires
                    0 <= t,
                    t * t <= dv * 1_000_000,
                    dv <= bb,
                    bb * 1_000_000 <= bv * bv,
                    bv <= 0,
            ;
        }
    }

    // both roots lie between zero and the first numerator
    let n1 = -bv + s;
    let n2 = -bv - s;
    let den = 2 * av;
    assert(b.spec_neg().spec_add(d.spec_sqrt()).raw == n1);
    assert(b.spec_neg().spec_sub(d.spec_sqrt()).raw == n2);
    let x = n1 * 1_000_000;
    let y = n2 * 1_000_000;
    lemma_fundamental_div_mod(x, den);
    lemma_fundamental_div_mod(y, den);
    assert(0 <= y / den && x / den <= x) by (nonlinear_arith)
        requires
            0 <= y <= x,
            den >= 2,
            x == den * (x / den) + x % den,
            y == den * (y / den) + y % den,
            0 <= x % den < den,
            0 <= y % den < den,
    ;
    lemma_roots_symmetric(a, b, d);
}

} // verus!
