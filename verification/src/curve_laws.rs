//! What holds of the addition of curve points: infinity is its identity, a
//! point and its mirror image sum to infinity, and over a prime field every
//! sum of two points of a curve exists and lies on that curve.

use crate::curve::{on_curve, slope, third_x, third_y, Coordinates, CurvePoint};
use crate::error::EccError;
use crate::field_laws::lemma_additive_inverse;
use crate::modular::{
    div_mod, inv_mod, lemma_add_mod_reduced, lemma_mod_of_reduced, lemma_mul_mod_reduced,
    lemma_sub_mod_reduced,
};
use crate::primes::{is_prime, lemma_inverse, lemma_prime_divides_product};
use vstd::arithmetic::div_mod::{
    lemma_fundamental_div_mod, lemma_mod_bound, lemma_mod_equivalence, lemma_mod_multiples_basic,
};
use vstd::prelude::*;

verus! {

/// The identity law: infinity added to a point, on either side, is that point.
pub proof fn lemma_add_identity(p: CurvePoint)
    requires
        p.wf(),
    ensures
        p.identity().add(p) == Ok::<CurvePoint, EccError>(p),
        p.add(p.identity()) == Ok::<CurvePoint, EccError>(p),
{
}

/// The mirror image of a point of a curve is a point of that curve.
pub proof fn lemma_negate_wf(p: CurvePoint)
    requires
        p.wf(),
    ensures
        p.negate().wf(),
        p.negate().a == p.a,
        p.negate().b == p.b,
{
    if let Coordinates::Affine { x, y } = p.at {
        let m = x.prime;
        lemma_mod_bound(m - y.value, m);
        // (m - y)^2 == y^2 + m * (m - 2y)
        lemma_mul_mod_reduced(m - y.value, m - y.value, m);
        assert((m - y.value) * (m - y.value) - y.value * y.value == (m - 2 * y.value) * m)
            by (nonlinear_arith);
        lemma_mod_multiples_basic(m - 2 * y.value, m);
        lemma_mod_equivalence((m - y.value) * (m - y.value), y.value * y.value, m);
    }
}

/// The inverse law: a point and its mirror image `(x, -y)` sum to infinity.
pub proof fn lemma_add_inverse(p: CurvePoint)
    requires
        p.wf(),
    ensures
        p.add(p.negate()) == Ok::<CurvePoint, EccError>(p.identity()),
        p.negate().add(p) == Ok::<CurvePoint, EccError>(p.identity()),
{
    if let Coordinates::Affine { x, y } = p.at {
        lemma_additive_inverse(y);
    }
}

/// Doubling a point whose `y` is zero gives infinity.
pub proof fn lemma_double_at_zero(p: CurvePoint)
    requires
        p.wf(),
        p.at matches Coordinates::Affine { x, y } && y.value == 0,
    ensures
        p.add(p) == Ok::<CurvePoint, EccError>(p.identity()),
{
    if let Coordinates::Affine { x, y } = p.at {
        lemma_mod_of_reduced(0, x.prime);
    }
}

/// A multiple of `m` stays one when a multiple of another is added to it.
proof fn lemma_mod_combination(u: int, v: int, w: int, m: int)
    requires
        m > 0,
        u % m == 0,
        v % m == 0,
    ensures
        (u + w * v) % m == 0,
{
    lemma_fundamental_div_mod(u, m);
    lemma_fundamental_div_mod(v, m);
    let ku = u / m;
    let kv = v / m;
    assert(u + w * v == (ku + w * kv) * m) by (nonlinear_arith)
        requires
            u == m * ku,
            v == m * kv,
    ;
    lemma_mod_multiples_basic(ku + w * kv, m);
}

/// The right side of the curve's equation does not change modulo `m` when
/// `x` is reduced first.
proof fn lemma_cubic_reduced(a: int, b: int, x: int, m: int)
    requires
        m > 0,
    ensures
        ((x % m) * ((x % m) * (x % m)) + a * (x % m) + b) % m == (x * (x * x) + a * x + b) % m,
{
    let r = x % m;
    lemma_mul_mod_reduced(x, x, m);
    lemma_mul_mod_reduced(x, x * x, m);
    lemma_mul_mod_reduced(r, r * r, m);
    assert((r * (r * r)) % m == (x * (x * x)) % m);
    lemma_mul_mod_reduced(a, x, m);
    lemma_add_mod_reduced(r * (r * r), a * r, m);
    lemma_add_mod_reduced(x * (x * x), a * x, m);
    lemma_add_mod_reduced(r * (r * r) + a * r, b, m);
    lemma_add_mod_reduced(x * (x * x) + a * x, b, m);
}

/// The quotient `n / d` of the field of a prime `m`, times `d`, is `n` again.
proof fn lemma_quotient_times_divisor(n: int, d: int, m: int)
    requires
        is_prime(m),
        d % m != 0,
    ensures
        (div_mod(n, d, m) * d) % m == n % m,
{
    let i = inv_mod(d, m);
    lemma_inverse(d, m);
    lemma_mul_mod_reduced(n * i, d, m);
    assert((n * i) * d == n * (i * d)) by (nonlinear_arith);
    lemma_mul_mod_reduced(n, i * d, m);
    assert(n * 1 == n);
}

/// `x^3 - y^3 == (x - y) * (x^2 + x*y + y^2)`.
proof fn lemma_difference_of_cubes(x: int, y: int)
    by (nonlinear_arith)
    ensures
        x * (x * x) - y * (y * y) == (x - y) * (x * x + x * y + y * y),
{
}

/// The square of the height `s*e + y` of a line, less `y^2`, is a multiple of the run `e`.
proof fn lemma_line_square(s: int, e: int, y: int)
    by (nonlinear_arith)
    ensures
        (s * e + y) * (s * e + y) - y * y == e * ((s * s) * e + 2 * (s * y)),
{
}

/// Three multiples of `e` are a multiple of `e`.
proof fn lemma_collect(e: int, u: int, a: int, v: int)
    by (nonlinear_arith)
    ensures
        e * u + a * e - e * v == e * (u + a - v),
{
}

/// The cubic `f(x) = x^3 + a*x + b - (s*(x - x1) + y1)^2`, whose roots are
/// the points where the line of slope `s` through `(x1, y1)` meets the
/// curve: `f(x) - f(x1)` is `x - x1` times the value that [`chord_factor`]
/// names.
proof fn lemma_cubic_difference(a: int, b: int, s: int, x1: int, y1: int, x: int)
    ensures
        x * (x * x) + a * x + b - (s * (x - x1) + y1) * (s * (x - x1) + y1) == (x1 * (x1 * x1) + a
            * x1 + b - y1 * y1) + (x - x1) * chord_factor(a, s, x1, y1, x),
{
    let e = x - x1;
    lemma_difference_of_cubes(x, x1);
    lemma_line_square(s, e, y1);
    assert(a * x - a * x1 == a * e) by (nonlinear_arith)
        requires
            e == x - x1,
    ;
    lemma_collect(e, x * x + x * x1 + x1 * x1, a, (s * s) * e + 2 * (s * y1));
}

/// The quotient of `f(x) - f(x1)` by `x - x1`, for the cubic `f` of
/// [`lemma_cubic_difference`].
spec fn chord_factor(a: int, s: int, x1: int, y1: int, x: int) -> int {
    x * x + x * x1 + x1 * x1 + a - ((s * s) * (x - x1) + 2 * (s * y1))
}

/// The chord factor is the same at `x2` and at `x3` when `x1 + x2 + x3 == s^2`.
proof fn lemma_chord_factor_at_third(a: int, s: int, x1: int, y1: int, x2: int, x3: int)
    requires
        x1 + x2 + x3 == s * s,
    ensures
        chord_factor(a, s, x1, y1, x3) == chord_factor(a, s, x1, y1, x2),
{
    let ss = s * s;
    assert((x3 * x3 + x3 * x1 - ss * (x3 - x1)) - (x2 * x2 + x2 * x1 - ss * (x2 - x1)) == (x3 - x2)
        * (x3 + x2 + x1 - ss)) by (nonlinear_arith);
    assert((x3 - x2) * (x3 + x2 + x1 - ss) == 0) by (nonlinear_arith)
        requires
            x3 + x2 + x1 - ss == 0,
    ;
}

/// The line of slope `s` through `(x1, y1)` meets the curve a third time at
/// `x3 = s^2 - x1 - x2`, provided that it meets it at `x1` and at `x2`, which
/// is what the chord factor being zero modulo `m` says. The mirror image of
/// the third point is then on the curve.
proof fn lemma_third_point_on_curve(a: int, b: int, s: int, x1: int, y1: int, x2: int, m: int)
    requires
        m > 0,
        on_curve(a, b, x1, y1, m),
        chord_factor(a, s, x1, y1, x2) % m == 0,
    ensures
        on_curve(a, b, third_x(s, x1, x2, m), third_y(s, x1, y1, third_x(s, x1, x2, m), m), m),
{
    let f1 = x1 * (x1 * x1) + a * x1 + b - y1 * y1;
    let xx = s * s - x1 - x2;
    let q = chord_factor(a, s, x1, y1, x2);
    let line = s * (xx - x1) + y1;
    let yy = s * (x1 - xx) - y1;
    let cubic = xx * (xx * xx) + a * xx + b;
    // the curve's equation at (x1, y1)
    assert(f1 % m == 0) by {
        lemma_mod_equivalence(x1 * (x1 * x1) + a * x1 + b, y1 * y1, m);
    }
    // f(xx) == f(x1) + (xx - x1) * q, so f(xx) is zero modulo m
    assert(cubic - line * line == f1 + (xx - x1) * q) by {
        lemma_cubic_difference(a, b, s, x1, y1, xx);
        lemma_chord_factor_at_third(a, s, x1, y1, x2, xx);
    }
    lemma_mod_combination(f1, q, xx - x1, m);
    assert(yy * yy == line * line) by (nonlinear_arith)
        requires
            line == s * (xx - x1) + y1,
            yy == s * (x1 - xx) - y1,
    ;
    assert((yy * yy) % m == cubic % m) by {
        lemma_mod_equivalence(cubic, yy * yy, m);
    }
    // the same holds of the reduced coordinates
    let x3 = third_x(s, x1, x2, m);
    let y3 = third_y(s, x1, y1, x3, m);
    assert(x3 == xx % m);
    lemma_cubic_reduced(a, b, xx, m);
    assert(y3 == yy % m) by {
        lemma_sub_mod_reduced(x1, xx, m);
        lemma_mul_mod_reduced(s, x1 - x3, m);
        lemma_mul_mod_reduced(s, x1 - xx, m);
        lemma_sub_mod_reduced(s * (x1 - x3), y1, m);
        lemma_sub_mod_reduced(s * (x1 - xx), y1, m);
    }
    lemma_mul_mod_reduced(yy, yy, m);
}

/// Two points of one curve over a prime field with the same `x` have the
/// same `y` or opposite ones.
proof fn lemma_same_x(a: int, b: int, x: int, y1: int, y2: int, m: int)
    requires
        is_prime(m),
        on_curve(a, b, x, y1, m),
        on_curve(a, b, x, y2, m),
        0 <= y1 < m,
        0 <= y2 < m,
    ensures
        y1 == y2 || (y1 + y2) % m == 0,
{
    lemma_mod_equivalence(y1 * y1, y2 * y2, m);
    assert(y1 * y1 - y2 * y2 == (y1 - y2) * (y1 + y2)) by (nonlinear_arith);
    lemma_prime_divides_product(m, y1 - y2, y1 + y2);
    if (y1 - y2) % m == 0 {
        lemma_mod_equivalence(y1, y2, m);
        lemma_mod_of_reduced(y1, m);
        lemma_mod_of_reduced(y2, m);
    }
}

/// Over a prime field the tangent at a point whose `y` is not its own
/// opposite has a slope, and the sum that this slope gives is on the curve.
proof fn lemma_tangent_sum_on_curve(a: int, b: int, x1: int, y1: int, m: int)
    requires
        is_prime(m),
        on_curve(a, b, x1, y1, m),
        (y1 + y1) % m != 0,
    ensures
        slope(a, x1, y1, x1, y1, m) matches Ok(s) && on_curve(
            a,
            b,
            third_x(s, x1, x1, m),
            third_y(s, x1, y1, third_x(s, x1, x1, m), m),
            m,
        ),
{
    let n = 3 * (x1 * x1) + a;
    let d = 2 * y1;
    assert(d == y1 + y1);
    let s = div_mod(n, d, m);
    lemma_quotient_times_divisor(n, d, m);
    lemma_mod_equivalence(n, s * d, m);
    // at x2 == x1 the chord factor is the tangent condition 3*x1^2 + a - 2*s*y1
    assert(chord_factor(a, s, x1, y1, x1) == n - s * d) by {
        assert((s * s) * (x1 - x1) == 0);
        assert(s * (2 * y1) == 2 * (s * y1)) by (nonlinear_arith);
    }
    lemma_third_point_on_curve(a, b, s, x1, y1, x1, m);
}

/// Over a prime field the chord through two points of a curve with
/// different `x` has a slope, and the sum that this slope gives is on the curve.
proof fn lemma_chord_sum_on_curve(a: int, b: int, x1: int, y1: int, x2: int, y2: int, m: int)
    requires
        is_prime(m),
        on_curve(a, b, x1, y1, m),
        on_curve(a, b, x2, y2, m),
        0 <= x1 < m,
        0 <= x2 < m,
        x1 != x2,
    ensures
        slope(a, x1, y1, x2, y2, m) matches Ok(s) && on_curve(
            a,
            b,
            third_x(s, x1, x2, m),
            third_y(s, x1, y1, third_x(s, x1, x2, m), m),
            m,
        ),
{
    let n = y2 - y1;
    let d = x2 - x1;
    assert(d % m != 0) by {
        if d % m == 0 {
            lemma_mod_equivalence(x2, x1, m);
            lemma_mod_of_reduced(x1, m);
            lemma_mod_of_reduced(x2, m);
        }
    }
    let s = div_mod(n, d, m);
    lemma_quotient_times_divisor(n, d, m);
    // the line meets the curve at x2: its height there is congruent to y2
    let line2 = s * d + y1;
    assert((line2 - y2) % m == 0) by {
        lemma_mod_equivalence(s * d, n, m);
        assert(line2 - y2 == s * d - n);
    }
    let f1 = x1 * (x1 * x1) + a * x1 + b - y1 * y1;
    let f2 = x2 * (x2 * x2) + a * x2 + b - line2 * line2;
    let g2 = x2 * (x2 * x2) + a * x2 + b - y2 * y2;
    assert(f1 % m == 0) by {
        lemma_mod_equivalence(x1 * (x1 * x1) + a * x1 + b, y1 * y1, m);
    }
    assert(g2 % m == 0) by {
        lemma_mod_equivalence(x2 * (x2 * x2) + a * x2 + b, y2 * y2, m);
    }
    assert(f2 % m == 0) by {
        assert(f2 == g2 + (-(line2 + y2)) * (line2 - y2)) by (nonlinear_arith)
            requires
                f2 == x2 * (x2 * x2) + a * x2 + b - line2 * line2,
                g2 == x2 * (x2 * x2) + a * x2 + b - y2 * y2,
        ;
        lemma_mod_combination(g2, line2 - y2, -(line2 + y2), m);
    }
    let q = chord_factor(a, s, x1, y1, x2);
    // f(x2) - f(x1) == (x2 - x1) * q
    assert(d * q == f2 + (-1) * f1) by {
        lemma_cubic_difference(a, b, s, x1, y1, x2);
    }
    lemma_mod_combination(f2, f1, -1, m);
    lemma_prime_divides_product(m, d, q);
    lemma_third_point_on_curve(a, b, s, x1, y1, x2, m);
}

/// Closure: over a prime field the sum of two points of one curve exists
/// and is a point of that curve.
pub proof fn lemma_add_closed(p: CurvePoint, q: CurvePoint)
    requires
        p.wf(),
        q.wf(),
        p.a == q.a,
        p.b == q.b,
        is_prime(p.a.prime),
    ensures
        p.add(q) matches Ok(sum) && sum.wf() && sum.a == p.a && sum.b == p.b,
{
    if let Coordinates::Affine { x: x1, y: y1 } = p.at {
        if let Coordinates::Affine { x: x2, y: y2 } = q.at {
            let m = x1.prime;
            let a = p.a.value;
            let b = p.b.value;
            if !(x1.value == x2.value && (y1.value + y2.value) % m == 0) {
                if x1.value == x2.value {
                    lemma_same_x(a, b, x1.value, y1.value, y2.value, m);
                    lemma_tangent_sum_on_curve(a, b, x1.value, y1.value, m);
                } else {
                    lemma_chord_sum_on_curve(a, b, x1.value, y1.value, x2.value, y2.value, m);
                }
                let s = slope(a, x1.value, y1.value, x2.value, y2.value, m)->Ok_0;
                let x3 = third_x(s, x1.value, x2.value, m);
                lemma_mod_bound(s * s - x1.value - x2.value, m);
                lemma_mod_bound(s * (x1.value - x3) - y1.value, m);
            }
        }
    }
}

/// A scalar multiple by zero is infinity, by one is the point itself, and
/// each further one adds the point once more.
pub proof fn lemma_scalar_multiply_unfold(p: CurvePoint, k: nat)
    requires
        p.wf(),
    ensures
        p.scalar_multiply(0) == Ok::<CurvePoint, EccError>(p.identity()),
        p.scalar_multiply(1) == Ok::<CurvePoint, EccError>(p),
        p.scalar_multiply(k + 1) == match p.scalar_multiply(k) {
            Ok(partial) => partial.add(p),
            Err(e) => Err(e),
        },
{
    reveal_with_fuel(CurvePoint::scalar_multiply, 2);
}

/// Over a prime field every scalar multiple of a point of a curve exists
/// and is a point of that curve.
pub proof fn lemma_scalar_multiply_closed(p: CurvePoint, k: nat)
    requires
        p.wf(),
        is_prime(p.a.prime),
    ensures
        p.scalar_multiply(k) matches Ok(r) && r.wf() && r.a == p.a && r.b == p.b,
    decreases k,
{
    if k > 0 {
        lemma_scalar_multiply_closed(p, (k - 1) as nat);
        lemma_add_closed(p.scalar_multiply((k - 1) as nat)->Ok_0, p);
    }
}

/// Associativity where infinity takes part: three points of one curve over
/// a prime field, at least one of them at infinity, sum to the same point
/// however the sum is bracketed.
pub proof fn lemma_add_associative_with_infinity(p: CurvePoint, q: CurvePoint, r: CurvePoint)
    requires
        p.wf(),
        q.wf(),
        r.wf(),
        p.a == q.a && q.a == r.a,
        p.b == q.b && q.b == r.b,
        is_prime(p.a.prime),
        p.at is Infinity || q.at is Infinity || r.at is Infinity,
    ensures
        p.add(q) matches Ok(pq) && q.add(r) matches Ok(qr) && pq.add(r) == p.add(qr),
{
    lemma_add_closed(p, q);
    lemma_add_closed(q, r);
}

} // verus!
