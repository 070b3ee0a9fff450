//! Where a ray that is aimed at the center of a sphere enters it.

use crate::basis::cross_exact;
use crate::ray::Ray;
use crate::scalar::{
    abs, floor_sqrt, lemma_floor_sqrt_is_floor_sqrt, lemma_product_bound, lemma_quot_bounds,
    lemma_quot_rest, lemma_quot_size, lemma_square_le, lemma_square_lt, quot, Scalar, SCALE,
};
use crate::sphere::{Sphere, AXIS_RADIUS};
use crate::surface::{is_in_reach, Surface};
use crate::vector::Vector;
use vstd::prelude::*;

verus! {

/// The largest size of a coordinate, in steps, of the way to a center of
/// which `lemma_aimed_at_the_center` speaks.
pub const AIM_RANGE: i64 = 0x400_0000_0000;

/// The largest size of a coordinate, in steps, of the start of a ray and
/// of the center of a sphere of which `lemma_aimed_normal` speaks.
pub const PLACE_RANGE: i64 = 0x2000_0000_0000_0000;

/// The squared length of a vector of length one, rounded to steps, is one
/// but for eight steps below and two above.
proof fn lemma_unit_squared(e: Vector)
    requires
        SCALE - 4 <= e.length_exact() <= SCALE,
    ensures
        SCALE - 8 <= e.length_squared_spec()@ <= SCALE + 2,
{
    let k: int = SCALE as int;
    let n: int = e.norm_sq_exact();
    e.lemma_coordinates_within_length();
    lemma_floor_sqrt_is_floor_sqrt(n as nat);
    let root: int = e.length_exact();
    lemma_square_le(k - 4, root);
    lemma_square_le(root + 1, k + 1);
    lemma_quot_bounds(n, k);
    let q: int = quot(n, k);
    assert((k - 4) * (k - 4) == 999_999_992_000_000_016 && (k + 1) * (k + 1)
        == 1_000_000_002_000_000_001) by (nonlinear_arith)
        requires
            k == 1_000_000_000,
    ;
    assert(q >= 0 && q * k <= n < q * k + k);
    assert(k - 8 <= q <= k + 2) by (nonlinear_arith)
        requires
            q * k <= n < q * k + k,
            999_999_992_000_000_016 <= n < 1_000_000_002_000_000_001,
            k == 1_000_000_000,
    ;
}

/// The radius `r` against the spread of the two crossings, which is the
/// root of the discriminant: for a direction with the squared length `dd`
/// and nothing between the line of the ray and the center, the spread is
/// the radius but for a few steps and a few billionths of the radius.
proof fn lemma_spread(r: int, dd: int) -> (spread: int)
    requires
        SCALE <= r <= AXIS_RADIUS,
        SCALE - 8 <= dd <= SCALE + 2,
    ensures
        spread == floor_sqrt((quot(dd * quot(r * r, SCALE as int), SCALE as int) * SCALE) as nat),
        0 <= quot(r * r, SCALE as int) <= i64::MAX,
        0 <= quot(dd * quot(r * r, SCALE as int), SCALE as int) <= i64::MAX,
        r - 4 * (r / SCALE as int) - 8 <= spread <= r + r / SCALE as int + 1,
{
    let k: int = SCALE as int;
    let rho: int = r / k;
    let r2: int = quot(r * r, k);
    assert(r * r >= 0 && r * r <= AXIS_RADIUS * AXIS_RADIUS) by (nonlinear_arith)
        requires
            0 <= r <= AXIS_RADIUS,
    ;
    lemma_quot_bounds(r * r, k);
    // the squared radius in steps
    assert(r == rho * k + r % k && 0 <= r % k < k);
    assert(r * r < (r * (rho + 1)) * k) by (nonlinear_arith)
        requires
            r < (rho + 1) * k,
            r >= 1,
            k >= 1,
    ;
    assert(r2 < r * (rho + 1)) by (nonlinear_arith)
        requires
            r2 * k <= r * r,
            r * r < (r * (rho + 1)) * k,
            k >= 1,
    ;
    assert(r * (rho + 1) <= AXIS_RADIUS * 70369) by (nonlinear_arith)
        requires
            0 <= r <= AXIS_RADIUS,
            0 <= rho + 1 <= 70369,
    ;
    // the discriminant
    let det: int = quot(dd * r2, k);
    assert(0 <= dd * r2 <= (k + 2) * r2 && (k - 8) * r2 <= dd * r2) by (nonlinear_arith)
        requires
            k - 8 <= dd <= k + 2,
            k >= 9,
            r2 >= 0,
    ;
    lemma_quot_bounds(dd * r2, k);
    assert((k + 2) * r2 == k * r2 + 2 * r2 && (k - 8) * r2 == k * r2 - 8 * r2 && k * r2 == r2 * k)
        by (nonlinear_arith);
    let spread: int = floor_sqrt((det * k) as nat) as int;
    assert(det * k >= 0) by (nonlinear_arith)
        requires
            det >= 0,
            k >= 1,
    ;
    lemma_floor_sqrt_is_floor_sqrt((det * k) as nat);
    // from above
    let top: int = r + rho + 1;
    assert(top * top == r * r + 2 * (r * (rho + 1)) + (rho + 1) * (rho + 1) && (rho + 1) * (rho
        + 1) >= 0) by (nonlinear_arith)
        requires
            top == r + rho + 1,
    ;
    if spread > top {
        lemma_square_le(top + 1, spread);
        lemma_square_lt(top, top + 1);
    }
    // from below
    let a: int = 4 * rho + 7;
    let low: int = r - a;
    assert(low * low == r * r - 8 * (r * rho) - 14 * r + a * a && r * (rho + 1) == r * rho + r)
        by (nonlinear_arith)
        requires
            low == r - a,
            a == 4 * rho + 7,
    ;
    assert(a * a + 2 * k <= 6 * r) by (nonlinear_arith)
        requires
            a == 4 * rho + 7,
            1 <= rho <= 70368,
            r >= rho * k,
            k == 1_000_000_000,
    ;
    if spread + 1 < low {
        lemma_square_le(spread + 1, low);
    }
    spread
}

/// One part of the cross product of a vector and its direction: for the
/// coordinates `p` and `q` of the vector, magnified `m` times and divided
/// by the length `f` into `u` and `v`, with `s` and `t` left over.
proof fn lemma_aim_cross(p: int, q: int, u: int, v: int, s: int, t: int, m: int, f: int, k: int)
    requires
        f >= 1,
        f * u == (m * p) * k - s,
        f * v == (m * q) * k - t,
        abs(s) <= f,
        abs(t) <= f,
    ensures
        abs(p * v - q * u) <= abs(p) + abs(q),
{
    let x: int = p * v - q * u;
    assert(f * x == p * (f * v) - q * (f * u)) by (nonlinear_arith)
        requires
            x == p * v - q * u,
    ;
    let (a, b) = ((m * q) * k, (m * p) * k);
    assert(p * (a - t) == p * a - p * t && q * (b - s) == q * b - q * s) by (nonlinear_arith);
    assert(p * a == q * b) by (nonlinear_arith)
        requires
            a == (m * q) * k,
            b == (m * p) * k,
    ;
    assert(p * ((m * q) * k - t) - q * ((m * p) * k - s) == q * s - p * t);
    lemma_product_bound(q, s, abs(q), f);
    lemma_product_bound(p, t, abs(p), f);
    let size: int = abs(p) + abs(q);
    assert(abs(q) * f + abs(p) * f == f * size) by (nonlinear_arith)
        requires
            size == abs(p) + abs(q),
    ;
    assert(abs(f * x) <= f * size);
    assert(abs(x) <= size) by (nonlinear_arith)
        requires
            abs(f * x) <= f * size,
            f >= 1,
    ;
}

/// The dot product of a vector with its direction is its length: for the
/// sum `t` of the products, with the squared length `s`, the length `d`
/// rounded down, the magnified length `f` and the sum `rest` of what the
/// divisions left over.
proof fn lemma_aim_dot(t: int, s: int, d: int, m: int, f: int, k: int, rest: int)
    requires
        d >= 1,
        m >= 1,
        k >= 1,
        d * d <= s < (d + 1) * (d + 1),
        m * d <= f < m * (d + 1),
        f * t == (m * k) * s - rest,
        abs(rest) <= 3 * (f * d),
    ensures
        k * (d - 1) - 3 * d <= t <= k * (d + 3) + 3 * d,
{
    let mk: int = m * k;
    assert(mk >= 1 && f >= 1) by (nonlinear_arith)
        requires
            mk == m * k,
            m >= 1,
            k >= 1,
            f >= m * d,
            d >= 1,
    ;
    // from above
    assert((d + 1) * (d + 1) == d * d + 2 * d + 1 && d * (d + 3) == d * d + 3 * d)
        by (nonlinear_arith);
    assert(mk * s <= mk * (d * (d + 3))) by (nonlinear_arith)
        requires
            s <= d * (d + 3),
            mk >= 1,
    ;
    assert(mk * (d * (d + 3)) == (m * d) * (k * (d + 3))) by (nonlinear_arith)
        requires
            mk == m * k,
    ;
    assert((m * d) * (k * (d + 3)) <= f * (k * (d + 3))) by (nonlinear_arith)
        requires
            m * d <= f,
            k >= 1,
            d >= 1,
    ;
    let high: int = k * (d + 3) + 3 * d;
    assert(f * high == f * (k * (d + 3)) + 3 * (f * d)) by (nonlinear_arith)
        requires
            high == k * (d + 3) + 3 * d,
    ;
    assert(f * t <= f * high);
    assert(t <= high) by (nonlinear_arith)
        requires
            f * t <= f * high,
            f >= 1,
    ;
    // from below
    assert(mk * (d * d) <= mk * s) by (nonlinear_arith)
        requires
            d * d <= s,
            mk >= 1,
    ;
    assert(f * (k * (d - 1)) <= (m * (d + 1)) * (k * (d - 1))) by (nonlinear_arith)
        requires
            f <= m * (d + 1),
            k >= 1,
            d >= 1,
    ;
    assert((m * (d + 1)) * (k * (d - 1)) == mk * (d * d) - mk) by (nonlinear_arith)
        requires
            mk == m * k,
    ;
    let low: int = k * (d - 1) - 3 * d;
    assert(f * low == f * (k * (d - 1)) - 3 * (f * d)) by (nonlinear_arith)
        requires
            low == k * (d - 1) - 3 * d,
    ;
    assert(f * low <= f * t);
    assert(low <= t) by (nonlinear_arith)
        requires
            f * low <= f * t,
            f >= 1,
    ;
}

/// A vector `c` against its direction: each part of the exact cross
/// product of the two is no larger than twice the length of `c`, and the
/// exact dot product of the two is the length of `c`, in squared steps,
/// but for three units and three times the length.
pub proof fn lemma_aim(c: Vector)
    requires
        c != Vector::zero_spec(),
    ensures
        c.normalized_spec() is Some,
        abs(cross_exact(c, c.normalized_spec()->0).0) <= 2 * c.length_exact(),
        abs(cross_exact(c, c.normalized_spec()->0).1) <= 2 * c.length_exact(),
        abs(cross_exact(c, c.normalized_spec()->0).2) <= 2 * c.length_exact(),
        SCALE * (c.length_exact() - 1) - 3 * c.length_exact() <= c.dot_exact(
            c.normalized_spec()->0,
        ) <= SCALE * (c.length_exact() + 3) + 3 * c.length_exact(),
{
    let k: int = SCALE as int;
    c.lemma_no_direction_iff_zero();
    c.lemma_magnified();
    c.lemma_coordinates_within_length();
    let large: Vector = c.magnified();
    large.lemma_coordinates_within_length();
    let (m, f, d, s) = (c.magnifier(), large.length_exact(), c.length_exact(), c.norm_sq_exact());
    lemma_floor_sqrt_is_floor_sqrt(s as nat);
    Vector::lemma_unit_coordinate(large.x@, f);
    Vector::lemma_unit_coordinate(large.y@, f);
    Vector::lemma_unit_coordinate(large.z@, f);
    let e: Vector = c.normalized_spec()->0;
    lemma_quot_rest(large.x@ * k, f);
    lemma_quot_rest(large.y@ * k, f);
    lemma_quot_rest(large.z@ * k, f);
    let (sx, sy, sz) = (
        (m * c.x@) * k - f * e.x@,
        (m * c.y@) * k - f * e.y@,
        (m * c.z@) * k - f * e.z@,
    );
    assert(large.x@ == m * c.x@ && large.y@ == m * c.y@ && large.z@ == m * c.z@ && e.x@ * f == f
        * e.x@ && e.y@ * f == f * e.y@ && e.z@ * f == f * e.z@) by (nonlinear_arith)
        requires
            large.x@ == c.x@ * m,
            large.y@ == c.y@ * m,
            large.z@ == c.z@ * m,
    ;
    lemma_aim_cross(c.y@, c.z@, e.y@, e.z@, sy, sz, m, f, k);
    lemma_aim_cross(c.z@, c.x@, e.z@, e.x@, sz, sx, m, f, k);
    lemma_aim_cross(c.x@, c.y@, e.x@, e.y@, sx, sy, m, f, k);
    // the dot product
    let t: int = c.dot_exact(e);
    let rest: int = c.x@ * sx + c.y@ * sy + c.z@ * sz;
    let (tx, ty, tz) = (c.x@ * e.x@, c.y@ * e.y@, c.z@ * e.z@);
    assert(f * t == f * tx + f * ty + f * tz) by (nonlinear_arith)
        requires
            t == tx + ty + tz,
    ;
    assert(f * tx == c.x@ * (f * e.x@)) by (nonlinear_arith)
        requires
            tx == c.x@ * e.x@,
    ;
    assert(f * ty == c.y@ * (f * e.y@)) by (nonlinear_arith)
        requires
            ty == c.y@ * e.y@,
    ;
    assert(f * tz == c.z@ * (f * e.z@)) by (nonlinear_arith)
        requires
            tz == c.z@ * e.z@,
    ;
    assert(c.x@ * ((m * c.x@) * k) == (m * k) * (c.x@ * c.x@) && c.y@ * ((m * c.y@) * k) == (m
        * k) * (c.y@ * c.y@) && c.z@ * ((m * c.z@) * k) == (m * k) * (c.z@ * c.z@))
        by (nonlinear_arith);
    assert((m * k) * s == (m * k) * (c.x@ * c.x@) + (m * k) * (c.y@ * c.y@) + (m * k) * (c.z@
        * c.z@)) by (nonlinear_arith)
        requires
            s == c.x@ * c.x@ + c.y@ * c.y@ + c.z@ * c.z@,
    ;
    assert(c.x@ * (f * e.x@) == c.x@ * ((m * c.x@) * k) - c.x@ * sx && c.y@ * (f * e.y@) == c.y@
        * ((m * c.y@) * k) - c.y@ * sy && c.z@ * (f * e.z@) == c.z@ * ((m * c.z@) * k) - c.z@
        * sz) by (nonlinear_arith)
        requires
            sx == (m * c.x@) * k - f * e.x@,
            sy == (m * c.y@) * k - f * e.y@,
            sz == (m * c.z@) * k - f * e.z@,
    ;
    assert(f * t == (m * k) * s - rest);
    lemma_product_bound(c.x@, sx, d, f);
    lemma_product_bound(c.y@, sy, d, f);
    lemma_product_bound(c.z@, sz, d, f);
    assert(d * f == f * d) by (nonlinear_arith);
    lemma_aim_dot(t, s, d, m, f, k, rest);
}

/// Dividing a distance `n` by the squared length `dd` of a direction of
/// length one changes it by a few steps and a few billionths of itself.
proof fn lemma_near(n: int, dd: int)
    requires
        n >= 0,
        SCALE - 8 <= dd <= SCALE + 2,
    ensures
        n - 2 * (n / SCALE as int) - 2 <= quot(n * SCALE, dd) <= n + 9 * (n / SCALE as int) + 9,
{
    let k: int = SCALE as int;
    let nu: int = n / k;
    let q: int = quot(n * k, dd);
    assert(n * k >= 0) by (nonlinear_arith)
        requires
            n >= 0,
            k >= 1,
    ;
    lemma_quot_bounds(n * k, dd);
    assert(q >= 0 && q * dd <= n * k < q * dd + dd);
    assert(n == nu * k + n % k && 0 <= n % k < k);
    let top: int = n + 9 * nu + 9;
    assert(top * (k - 8) >= n * k) by (nonlinear_arith)
        requires
            top == n + 9 * nu + 9,
            n < (nu + 1) * k,
            nu >= 0,
            n >= 0,
            k == 1_000_000_000,
    ;
    if q > top {
        assert(q * dd > top * (k - 8)) by (nonlinear_arith)
            requires
                q >= top + 1,
                dd >= k - 8,
                top >= 0,
                k - 8 >= 1,
        ;
    }
    let bottom: int = n - 2 * nu - 2;
    assert(bottom * (k + 2) <= n * k) by (nonlinear_arith)
        requires
            bottom == n - 2 * nu - 2,
            n < (nu + 1) * k,
            nu >= 0,
            n >= 0,
            k == 1_000_000_000,
    ;
    if q < bottom {
        assert(q * dd + dd <= bottom * (k + 2)) by (nonlinear_arith)
            requires
                0 <= q + 1 <= bottom,
                1 <= dd <= k + 2,
        ;
    }
}

/// A vector with no coordinate larger than `p` is at most `2 * p` long.
proof fn lemma_length_within(v: Vector, p: int)
    requires
        v.is_within(p),
    ensures
        v.length_exact() <= 2 * p,
{
    v.lemma_coordinates_within_length();
    let n: int = v.norm_sq_exact();
    lemma_floor_sqrt_is_floor_sqrt(n as nat);
    let root: int = v.length_exact();
    lemma_square_le(abs(v.x@), p);
    lemma_square_le(abs(v.y@), p);
    lemma_square_le(abs(v.z@), p);
    assert(n == abs(v.x@) * abs(v.x@) + abs(v.y@) * abs(v.y@) + abs(v.z@) * abs(v.z@))
        by (nonlinear_arith)
        requires
            n == v.x@ * v.x@ + v.y@ * v.y@ + v.z@ * v.z@,
    ;
    if root > 2 * p {
        lemma_square_le(2 * p + 1, root);
        assert((2 * p + 1) * (2 * p + 1) > 3 * (p * p)) by (nonlinear_arith)
            requires
                p >= 0,
        ;
    }
}

/// One coordinate of the way back from the point at the distance `t`
/// along a ray to the center that the ray is aimed at. With `p` the
/// coordinate of the way to the center, of the length `d`, and `u` that
/// of the direction, which is `p` magnified `m` times and divided by the
/// magnified length `f`: what is left of `p` after `t` steps along the ray
/// is the share `(d - t) / d` of it, but for a few steps.
proof fn lemma_way_back(p: int, u: int, t: int, m: int, f: int, d: int)
    requires
        m >= 1,
        d >= 1,
        0 <= t <= d,
        m * d <= f < m * (d + 1),
        abs(p) <= d,
        abs(u) * f <= (m * abs(p)) * SCALE < abs(u) * f + f,
        p >= 0 ==> u >= 0,
        p <= 0 ==> u <= 0,
    ensures
        ({
            let g: int = quot(u * t, SCALE as int);
            let v: int = g - p;
            &&& abs(g) <= abs(p)
            &&& abs(v) == abs(p) - abs(g)
            &&& p >= 0 ==> v <= 0
            &&& p <= 0 ==> v >= 0
            &&& abs(p) * (d - t) <= abs(v) * d <= abs(p) * (d - t) + (t / SCALE as int + 3) * d
        }),
{
    let k: int = SCALE as int;
    let g: int = quot(u * t, k);
    let (a, b, c) = (abs(p), abs(u), abs(g));
    let tau: int = t / k;
    let w: int = d - t;
    lemma_quot_bounds(u * t, k);
    assert(abs(u * t) == b * t) by (nonlinear_arith)
        requires
            b == abs(u),
            t >= 0,
    ;
    assert(u >= 0 ==> u * t >= 0) by (nonlinear_arith)
        requires
            t >= 0,
    ;
    assert(u <= 0 ==> u * t <= 0) by (nonlinear_arith)
        requires
            t >= 0,
    ;
    assert(c * k <= b * t < c * k + k);
    // no more than the share
    let ma: int = m * a;
    assert((c * k) * f <= (b * t) * f && (b * t) * f == (b * f) * t && (b * f) * t <= (ma * k)
        * t) by (nonlinear_arith)
        requires
            c * k <= b * t,
            b * f <= ma * k,
            f >= 1,
            t >= 0,
    ;
    assert((c * k) * f == k * (c * f) && (ma * k) * t == k * (ma * t)) by (nonlinear_arith);
    assert(c * f <= ma * t) by (nonlinear_arith)
        requires
            k * (c * f) <= k * (ma * t),
            k >= 1,
    ;
    assert(c * (m * d) <= c * f && c * (m * d) == m * (c * d) && ma * t == m * (a * t))
        by (nonlinear_arith)
        requires
            m * d <= f,
            c >= 0,
            ma == m * a,
    ;
    assert(c * d <= a * t) by (nonlinear_arith)
        requires
            m * (c * d) <= m * (a * t),
            m >= 1,
    ;
    assert(a * t <= a * d) by (nonlinear_arith)
        requires
            t <= d,
            a >= 0,
    ;
    assert(c <= a) by (nonlinear_arith)
        requires
            c * d <= a * d,
            d >= 1,
    ;
    let v: int = g - p;
    let size: int = a - c;
    assert(abs(v) == size);
    assert(size * d == a * d - c * d && a * w == a * d - a * t) by (nonlinear_arith)
        requires
            size == a - c,
            w == d - t,
    ;
    // no less than the share, but for a few steps
    assert(((c + 1) * k) * f > (b * t) * f && (b * f + f) * t >= (ma * k) * t) by (nonlinear_arith)
        requires
            (c + 1) * k > b * t,
            b * f + f > ma * k,
            f >= 1,
            t >= 0,
    ;
    assert((b * f + f) * t == (b * f) * t + f * t) by (nonlinear_arith);
    let inner: int = (c + 1) * k + t;
    assert(f * inner == ((c + 1) * k) * f + f * t) by (nonlinear_arith)
        requires
            inner == (c + 1) * k + t,
    ;
    assert(f * inner > (ma * k) * t);
    assert(f * inner <= (m * (d + 1)) * inner) by (nonlinear_arith)
        requires
            f <= m * (d + 1),
            inner >= 0,
    ;
    assert(t < (tau + 1) * k);
    let wide: int = c + tau + 2;
    assert(inner <= wide * k) by (nonlinear_arith)
        requires
            inner == (c + 1) * k + t,
            t <= (tau + 1) * k,
            wide == c + tau + 2,
    ;
    assert((m * (d + 1)) * inner <= (m * (d + 1)) * (wide * k)) by (nonlinear_arith)
        requires
            inner <= wide * k,
            m >= 1,
            d >= 1,
    ;
    assert((m * (d + 1)) * (wide * k) == (m * k) * ((d + 1) * wide) && (ma * k) * t == (m * k)
        * (a * t)) by (nonlinear_arith)
        requires
            ma == m * a,
    ;
    assert((d + 1) * wide > a * t) by (nonlinear_arith)
        requires
            (m * k) * ((d + 1) * wide) > (m * k) * (a * t),
            m >= 1,
            k >= 1,
    ;
    assert((d + 1) * wide == c * d + c + (d + 1) * (tau + 2)) by (nonlinear_arith)
        requires
            wide == c + tau + 2,
    ;
    assert((d + 1) * (tau + 2) == d * (tau + 2) + tau + 2 && (tau + 3) * d == d * (tau + 2) + d)
        by (nonlinear_arith);
    if size < tau + 2 {
        assert(size * d <= (tau + 2) * d && (tau + 2) * d == d * (tau + 2) && a * w >= 0)
            by (nonlinear_arith)
            requires
                0 <= size <= tau + 2,
                d >= 1,
                a >= 0,
                w >= 0,
        ;
    }
}

/// The length of the way back: three coordinates of the sizes `x`, `y`
/// and `z`, each the share `w / d` of the coordinates `a`, `b` and `c` of
/// a vector of the length `d`, but for `h` steps, make a vector of the
/// length `w`, but for three times `h` and a step.
proof fn lemma_way_back_length(
    x: int,
    y: int,
    z: int,
    a: int,
    b: int,
    c: int,
    s: int,
    d: int,
    w: int,
    h: int,
)
    requires
        d >= 1,
        0 <= w <= d,
        h >= 0,
        0 <= a <= d,
        0 <= b <= d,
        0 <= c <= d,
        s == a * a + b * b + c * c,
        d * d <= s < (d + 1) * (d + 1),
        0 <= x,
        0 <= y,
        0 <= z,
        a * w <= x * d <= a * w + h * d,
        b * w <= y * d <= b * w + h * d,
        c * w <= z * d <= c * w + h * d,
    ensures
        w * w <= x * x + y * y + z * z <= (w + 3 * h + 1) * (w + 3 * h + 1),
        w <= floor_sqrt((x * x + y * y + z * z) as nat) <= w + 3 * h + 1,
{
    let n: int = x * x + y * y + z * z;
    let (dd, ww) = (d * d, w * w);
    assert(a * w >= 0 && b * w >= 0 && c * w >= 0 && h * d >= 0 && ww >= 0 && dd >= 1)
        by (nonlinear_arith)
        requires
            a >= 0,
            b >= 0,
            c >= 0,
            w >= 0,
            h >= 0,
            d >= 1,
            ww == w * w,
            dd == d * d,
    ;
    // from below
    lemma_square_le(a * w, x * d);
    lemma_square_le(b * w, y * d);
    lemma_square_le(c * w, z * d);
    assert((a * w) * (a * w) == (a * a) * ww && (b * w) * (b * w) == (b * b) * ww && (c * w) * (c
        * w) == (c * c) * ww) by (nonlinear_arith)
        requires
            ww == w * w,
    ;
    assert((x * d) * (x * d) == (x * x) * dd && (y * d) * (y * d) == (y * y) * dd && (z * d) * (z
        * d) == (z * z) * dd) by (nonlinear_arith)
        requires
            dd == d * d,
    ;
    assert(n * dd == (x * x) * dd + (y * y) * dd + (z * z) * dd) by (nonlinear_arith)
        requires
            n == x * x + y * y + z * z,
    ;
    assert(s * ww == (a * a) * ww + (b * b) * ww + (c * c) * ww) by (nonlinear_arith)
        requires
            s == a * a + b * b + c * c,
    ;
    assert(dd * ww <= s * ww) by (nonlinear_arith)
        requires
            dd <= s,
            ww >= 0,
    ;
    assert(ww <= n) by (nonlinear_arith)
        requires
            dd * ww <= n * dd,
            dd >= 1,
    ;
    // from above
    let hd: int = h * d;
    lemma_square_le(x * d, a * w + hd);
    lemma_square_le(y * d, b * w + hd);
    lemma_square_le(z * d, c * w + hd);
    assert((a * w + hd) * (a * w + hd) == (a * a) * ww + 2 * ((a * w) * hd) + hd * hd && (b * w
        + hd) * (b * w + hd) == (b * b) * ww + 2 * ((b * w) * hd) + hd * hd && (c * w + hd) * (c
        * w + hd) == (c * c) * ww + 2 * ((c * w) * hd) + hd * hd) by (nonlinear_arith)
        requires
            ww == w * w,
    ;
    let whd: int = w * hd;
    assert((a * w) * hd == a * whd && (b * w) * hd == b * whd && (c * w) * hd == c * whd)
        by (nonlinear_arith)
        requires
            whd == w * hd,
    ;
    assert(a * whd <= d * whd && b * whd <= d * whd && c * whd <= d * whd && whd >= 0)
        by (nonlinear_arith)
        requires
            a <= d,
            b <= d,
            c <= d,
            whd == w * hd,
            w >= 0,
            hd >= 0,
    ;
    assert(d * whd == (w * h) * dd && hd * hd == (h * h) * dd) by (nonlinear_arith)
        requires
            whd == w * hd,
            hd == h * d,
            dd == d * d,
    ;
    let next: int = (d + 1) * (d + 1);
    assert(s * ww <= next * ww && next * ww == (w * d + w) * (w * d + w)) by (nonlinear_arith)
        requires
            s <= next,
            next == (d + 1) * (d + 1),
            ww == w * w,
    ;
    assert(w * d >= 0) by (nonlinear_arith)
        requires
            w >= 0,
            d >= 1,
    ;
    lemma_square_le(w * d + w, w * d + d);
    assert((w * d + d) * (w * d + d) == ((w + 1) * (w + 1)) * dd) by (nonlinear_arith)
        requires
            dd == d * d,
    ;
    let top: int = w + 3 * h + 1;
    assert(top * top == (w + 1) * (w + 1) + 6 * (w * h) + 6 * h + 9 * (h * h) && w * h >= 0 && h
        * h >= 0) by (nonlinear_arith)
        requires
            top == w + 3 * h + 1,
            w >= 0,
            h >= 0,
    ;
    assert((top * top) * dd == ((w + 1) * (w + 1)) * dd + 6 * ((w * h) * dd) + 6 * (h * dd) + 9
        * ((h * h) * dd)) by (nonlinear_arith)
        requires
            top * top == (w + 1) * (w + 1) + 6 * (w * h) + 6 * h + 9 * (h * h),
    ;
    assert(h * dd >= 0 && (h * h) * dd >= 0) by (nonlinear_arith)
        requires
            h >= 0,
            dd >= 1,
    ;
    assert(n * dd <= (top * top) * dd);
    assert(n <= top * top) by (nonlinear_arith)
        requires
            n * dd <= (top * top) * dd,
            dd >= 1,
    ;
    assert(n >= 0);
    lemma_floor_sqrt_is_floor_sqrt(n as nat);
    let root: int = floor_sqrt(n as nat) as int;
    if root < w {
        lemma_square_le(root + 1, w);
    }
    if root > top {
        lemma_square_lt(top, root);
    }
}

/// One coordinate of the normal against that of the direction. For a
/// coordinate of the size `a` of the way to the center, of the length `d`,
/// and one of the size `x` of the way back, of the length `l`, which is
/// the share `w / d` of the former but for `h` steps: the sizes `bu` of
/// the direction's coordinate and `bn` of the normal's are the same, but
/// for a few times `h`.
proof fn lemma_normal_part(
    a: int,
    x: int,
    bu: int,
    bn: int,
    m: int,
    f: int,
    d: int,
    mv: int,
    fv: int,
    l: int,
    w: int,
    h: int,
)
    requires
        m >= 1,
        mv >= 1,
        h >= 0,
        d >= SCALE,
        2 * w >= SCALE,
        0 <= a <= d,
        0 <= x,
        0 <= bu <= SCALE,
        0 <= bn,
        m * d <= f < m * (d + 1),
        mv * l <= fv < mv * (l + 1),
        bu * f <= (m * a) * SCALE < bu * f + f,
        bn * fv <= (mv * x) * SCALE < bn * fv + fv,
        a * w <= x * d <= a * w + h * d,
        w <= l <= w + 3 * h + 1,
    ensures
        bu - 6 * h - 4 <= bn <= bu + 2 * h + 3,
{
    let k: int = SCALE as int;
    let xk: int = x * k;
    let ak: int = a * k;
    // from above
    assert(bn * (mv * l) <= bn * fv && bn * (mv * l) == mv * (bn * l) && (mv * x) * k == mv * xk)
        by (nonlinear_arith)
        requires
            mv * l <= fv,
            bn >= 0,
            xk == x * k,
    ;
    assert(bn * l <= xk) by (nonlinear_arith)
        requires
            mv * (bn * l) <= mv * xk,
            mv >= 1,
    ;
    assert(bn * w <= bn * l) by (nonlinear_arith)
        requires
            w <= l,
            bn >= 0,
    ;
    assert((bn * w) * d <= xk * d && xk * d == (x * d) * k && (x * d) * k <= (a * w + h * d) * k)
        by (nonlinear_arith)
        requires
            bn * w <= xk,
            xk == x * k,
            x * d <= a * w + h * d,
            d >= 1,
            k >= 1,
    ;
    assert((a * w + h * d) * k == w * ak + (h * d) * k) by (nonlinear_arith)
        requires
            ak == a * k,
    ;
    assert((m * a) * k == m * ak && (bu + 1) * f == bu * f + f) by (nonlinear_arith)
        requires
            ak == a * k,
    ;
    assert((bu + 1) * f <= (bu + 1) * (m * (d + 1)) && (bu + 1) * (m * (d + 1)) == m * ((bu + 1)
        * (d + 1))) by (nonlinear_arith)
        requires
            f <= m * (d + 1),
            bu >= 0,
    ;
    let edge: int = (bu + 1) * (d + 1);
    assert(ak < edge) by (nonlinear_arith)
        requires
            m * ak < m * edge,
            m >= 1,
    ;
    assert(edge == bu * d + bu + d + 1) by (nonlinear_arith)
        requires
            edge == (bu + 1) * (d + 1),
    ;
    assert(edge <= bu * d + 3 * d);
    let wd: int = w * d;
    assert(w * ak <= w * edge && w * edge <= w * (bu * d + 3 * d) && w * (bu * d + 3 * d) == wd
        * bu + 3 * wd) by (nonlinear_arith)
        requires
            ak <= edge,
            edge <= bu * d + 3 * d,
            w >= 0,
            wd == w * d,
    ;
    assert((h * d) * k <= (h * d) * (2 * w) && (h * d) * (2 * w) == 2 * (h * wd))
        by (nonlinear_arith)
        requires
            k <= 2 * w,
            h >= 0,
            d >= 1,
            wd == w * d,
    ;
    assert((bn * w) * d == wd * bn && h * wd == wd * h) by (nonlinear_arith)
        requires
            wd == w * d,
    ;
    assert(wd >= 1) by (nonlinear_arith)
        requires
            wd == w * d,
            w >= 1,
            d >= 1,
    ;
    assert(bn <= bu + 2 * h + 3) by (nonlinear_arith)
        requires
            wd * bn <= wd * bu + 3 * wd + 2 * (wd * h),
            wd >= 1,
    ;
    // from below
    let q: int = w + 3 * h + 2;
    assert((bn + 1) * fv == bn * fv + fv && (bn + 1) * fv <= (bn + 1) * (mv * (l + 1)) && (bn
        + 1) * (mv * (l + 1)) == mv * ((bn + 1) * (l + 1))) by (nonlinear_arith)
        requires
            fv <= mv * (l + 1),
            bn >= 0,
    ;
    assert((bn + 1) * (l + 1) > xk) by (nonlinear_arith)
        requires
            mv * ((bn + 1) * (l + 1)) > mv * xk,
            mv >= 1,
    ;
    assert((bn + 1) * (l + 1) <= (bn + 1) * q) by (nonlinear_arith)
        requires
            l + 1 <= q,
            bn >= 0,
    ;
    let reach: int = (bn + 1) * q;
    assert(reach * d > xk * d) by (nonlinear_arith)
        requires
            reach > xk,
            d >= 1,
    ;
    assert((a * w) * k <= (x * d) * k && (a * w) * k == w * ak) by (nonlinear_arith)
        requires
            a * w <= x * d,
            k >= 1,
            ak == a * k,
    ;
    assert(bu * (m * d) <= bu * f && bu * (m * d) == m * (bu * d)) by (nonlinear_arith)
        requires
            m * d <= f,
            bu >= 0,
    ;
    assert(bu * d <= ak) by (nonlinear_arith)
        requires
            m * (bu * d) <= m * ak,
            m >= 1,
    ;
    assert(w * (bu * d) <= w * ak && w * (bu * d) == (w * bu) * d) by (nonlinear_arith)
        requires
            bu * d <= ak,
            w >= 0,
    ;
    assert(reach > w * bu) by (nonlinear_arith)
        requires
            reach * d > (w * bu) * d,
            d >= 1,
    ;
    let z: int = bu - 6 * h - 4;
    if bn + 1 <= z {
        assert(reach <= z * q && z * q == z * w + z * (3 * h + 2) && z * (3 * h + 2) <= k * (3 * h
            + 2) && k * (3 * h + 2) <= (2 * w) * (3 * h + 2) && z * w + (2 * w) * (3 * h + 2)
            == w * bu) by (nonlinear_arith)
            requires
                reach == (bn + 1) * q,
                0 <= bn + 1 <= z,
                q == w + 3 * h + 2,
                z == bu - 6 * h - 4,
                z <= k,
                k <= 2 * w,
                h >= 0,
                q >= 0,
        ;
    }
}

impl Sphere {
    /// A ray that is aimed at the center of a sphere, from outside, meets
    /// the sphere where it enters: at the distance of the center less the
    /// radius, but for the rounding. With the distance of the center in
    /// whole units as `far`, the distance that is reported is at most
    /// `6 * far + 7` steps shorter and at most `16 * far + 23` steps
    /// longer. This holds of radii from one unit to `AXIS_RADIUS`, of
    /// centers with no coordinate more than `AIM_RANGE` away, and of rays
    /// that start at least `6 * far + 8` steps outside the sphere.
    pub proof fn lemma_aimed_at_the_center(&self, ray: Ray)
        requires
            self.to_center(ray).is_within(AIM_RANGE as int),
            Some(ray.direction) == self.to_center(ray).normalized_spec(),
            SCALE <= self.radius()@ <= AXIS_RADIUS,
            self.to_center(ray).length_exact() - self.radius()@ >= 6 * (self.to_center(
                ray,
            ).length_exact() / SCALE as int) + 8,
        ensures
            self.hit(ray) is Intersected,
            self.hit(ray)->t == self.near_root(ray),
            self.to_center(ray).length_exact() - self.radius()@ - 6 * (self.to_center(
                ray,
            ).length_exact() / SCALE as int) - 7 <= self.hit(ray)->t@,
            self.hit(ray)->t@ <= self.to_center(ray).length_exact() - self.radius()@ + 16 * (
            self.to_center(ray).length_exact() / SCALE as int) + 23,
    {
        let k: int = SCALE as int;
        let c: Vector = self.to_center(ray);
        let e: Vector = ray.direction;
        let r: int = self.radius()@;
        let d: int = c.length_exact();
        let far: int = d / k;
        c.lemma_no_direction_iff_zero();
        c.lemma_normalized_length();
        lemma_unit_squared(e);
        lemma_aim(c);
        lemma_length_within(c, AIM_RANGE as int);
        assert(d == far * k + d % k && 0 <= d % k < k);
        let dd: int = e.length_squared_spec()@;
        // nothing lies between the line of the ray and the center
        let x: (int, int, int) = cross_exact(c, e);
        lemma_quot_size(x.0, k, 17593);
        lemma_quot_size(x.1, k, 17593);
        lemma_quot_size(x.2, k, 17593);
        let across: Vector = c.cross_spec(e);
        assert(across.x@ == quot(x.0, k) && across.y@ == quot(x.1, k) && across.z@ == quot(x.2, k));
        lemma_square_le(abs(across.x@), 17593);
        lemma_square_le(abs(across.y@), 17593);
        lemma_square_le(abs(across.z@), 17593);
        let n2: int = across.norm_sq_exact();
        assert(n2 == abs(across.x@) * abs(across.x@) + abs(across.y@) * abs(across.y@) + abs(
            across.z@,
        ) * abs(across.z@) && n2 >= 0) by (nonlinear_arith)
            requires
                n2 == across.x@ * across.x@ + across.y@ * across.y@ + across.z@ * across.z@,
        ;
        assert(17593 * 17593 == 309_513_649int);
        lemma_quot_bounds(n2, k);
        assert(across.length_squared_spec()@ == 0);
        // the spread of the crossings
        let spread: int = lemma_spread(r, dd);
        let r2: int = quot(r * r, k);
        assert(self.radius().times(self.radius())@ == r2);
        assert(self.discriminant(ray)@ == quot(dd * r2, k));
        assert(self.discriminant(ray).sqrt_spec()@ == spread);
        // the way along the ray to the center
        let t: int = c.dot_exact(e);
        let along: int = quot(t, k);
        assert(k * (d + 3) + 3 * d < k * (d + 3 * far + 6) && k * (d - 1) - 3 * d > k * (d - 3
            * far - 4)) by (nonlinear_arith)
            requires
                d < (far + 1) * k,
                k >= 1,
                d >= 0,
        ;
        assert(t >= 0) by (nonlinear_arith)
            requires
                t > k * (d - 3 * far - 4),
                d - 3 * far - 4 >= 0,
                k >= 1,
        ;
        lemma_quot_bounds(t, k);
        assert(d - 3 * far - 4 <= along <= d + 3 * far + 6) by (nonlinear_arith)
            requires
                along >= 0,
                along * k <= t < along * k + k,
                k * (d - 3 * far - 4) < t < k * (d + 3 * far + 6),
                k >= 1,
        ;
        assert(c.dot_spec(e)@ == along);
        // the distance
        let n: int = along - spread;
        assert(r / k <= far);
        lemma_near(n, dd);
        assert(n / k <= far);
        assert(self.near_root(ray)@ == quot(n * k, dd));
        assert(is_in_reach(self.near_root(ray)));
    }
}

/// `x` is the share `w / d` of `a`, but for `h` steps.
pub open spec fn is_share(x: int, a: int, w: int, d: int, h: int) -> bool {
    a * w <= x * d <= a * w + h * d
}

/// `v` lies on the other side of zero than `p`, or at it.
pub open spec fn is_turned(v: int, p: int) -> bool {
    (p >= 0 ==> v <= 0) && (p <= 0 ==> v >= 0)
}

impl Sphere {
    /// The way back from the point where a ray that is aimed at the center
    /// meets the sphere to the center: each coordinate is what is left of
    /// the way to the center after the distance `t` to the point, turned
    /// round, and the length of it is what is left of the distance of the
    /// center, each but for a few steps.
    #[verifier::rlimit(50)]
    pub proof fn lemma_aimed_way_back(&self, ray: Ray)
        requires
            ray.starting_point.is_within(PLACE_RANGE as int),
            self.center().is_within(PLACE_RANGE as int),
            self.to_center(ray).is_within(AIM_RANGE as int),
            Some(ray.direction) == self.to_center(ray).normalized_spec(),
            SCALE <= self.radius()@ <= AXIS_RADIUS,
            self.to_center(ray).length_exact() - self.radius()@ >= 6 * (self.to_center(
                ray,
            ).length_exact() / SCALE as int) + 8,
        ensures
            self.hit(ray) is Intersected,
            ({
                let c: Vector = self.to_center(ray);
                let d: int = c.length_exact();
                let t: int = self.hit(ray)->t@;
                let h: int = t / SCALE as int + 3;
                let out: Vector = ray.point_at_spec(self.hit(ray)->t).minus(self.center());
                &&& 0 <= t <= d
                &&& is_share(abs(out.x@), abs(c.x@), d - t, d, h)
                &&& is_share(abs(out.y@), abs(c.y@), d - t, d, h)
                &&& is_share(abs(out.z@), abs(c.z@), d - t, d, h)
                &&& is_turned(out.x@, c.x@)
                &&& is_turned(out.y@, c.y@)
                &&& is_turned(out.z@, c.z@)
                &&& d - t <= out.length_exact() <= d - t + 3 * h + 1
            }),
    {
        self.lemma_aimed_at_the_center(ray);
        let k: int = SCALE as int;
        let c: Vector = self.to_center(ray);
        let e: Vector = ray.direction;
        let d: int = c.length_exact();
        let far: int = d / k;
        let at: Scalar = self.hit(ray)->t;
        let t: int = at@;
        c.lemma_no_direction_iff_zero();
        c.lemma_magnified();
        c.lemma_coordinates_within_length();
        lemma_length_within(c, AIM_RANGE as int);
        let large: Vector = c.magnified();
        large.lemma_coordinates_within_length();
        let (m, f) = (c.magnifier(), large.length_exact());
        assert(d == far * k + d % k && 0 <= d % k < k);
        assert(0 <= t <= d);
        lemma_direction_part(c.x@, large.x@, m, f);
        lemma_direction_part(c.y@, large.y@, m, f);
        lemma_direction_part(c.z@, large.z@, m, f);
        lemma_way_back(c.x@, e.x@, t, m, f, d);
        lemma_way_back(c.y@, e.y@, t, m, f, d);
        lemma_way_back(c.z@, e.z@, t, m, f, d);
        let out: Vector = ray.point_at_spec(at).minus(self.center());
        assert(out.x@ == quot(e.x@ * t, k) - c.x@ && out.y@ == quot(e.y@ * t, k) - c.y@ && out.z@
            == quot(e.z@ * t, k) - c.z@);
        let h: int = t / k + 3;
        let w: int = d - t;
        let (s, n) = (c.norm_sq_exact(), out.norm_sq_exact());
        lemma_floor_sqrt_is_floor_sqrt(s as nat);
        let (a0, a1, a2) = (abs(c.x@), abs(c.y@), abs(c.z@));
        let (x0, x1, x2) = (abs(out.x@), abs(out.y@), abs(out.z@));
        assert(s == a0 * a0 + a1 * a1 + a2 * a2 && n == x0 * x0 + x1 * x1 + x2 * x2)
            by (nonlinear_arith)
            requires
                s == c.x@ * c.x@ + c.y@ * c.y@ + c.z@ * c.z@,
                n == out.x@ * out.x@ + out.y@ * out.y@ + out.z@ * out.z@,
                a0 == abs(c.x@),
                a1 == abs(c.y@),
                a2 == abs(c.z@),
                x0 == abs(out.x@),
                x1 == abs(out.y@),
                x2 == abs(out.z@),
        ;
        lemma_way_back_length(x0, x1, x2, a0, a1, a2, s, d, w, h);
    }

    /// Where a ray that is aimed at the center of a sphere meets it, the
    /// point lies on the sphere and the normal looks back along the ray,
    /// but for the rounding. With the distance of the center in whole
    /// units as `far`: the point that is reported lies at the distance of
    /// the radius from the center, at most `16 * far + 23` steps less and
    /// at most `9 * far + 17` steps more; and no coordinate of the normal
    /// differs by more than `6 * far + 22` steps from that of the
    /// direction, turned round. This holds where `lemma_aimed_at_the_center`
    /// holds, of rays and spheres with no coordinate beyond `PLACE_RANGE`.
    #[verifier::rlimit(50)]
    pub proof fn lemma_aimed_normal(&self, ray: Ray)
        requires
            ray.starting_point.is_within(PLACE_RANGE as int),
            self.center().is_within(PLACE_RANGE as int),
            self.to_center(ray).is_within(AIM_RANGE as int),
            Some(ray.direction) == self.to_center(ray).normalized_spec(),
            SCALE <= self.radius()@ <= AXIS_RADIUS,
            self.to_center(ray).length_exact() - self.radius()@ >= 6 * (self.to_center(
                ray,
            ).length_exact() / SCALE as int) + 8,
        ensures
            self.hit(ray) is Intersected,
            ({
                let far: int = self.to_center(ray).length_exact() / SCALE as int;
                let out: Vector = ray.point_at_spec(self.hit(ray)->t).minus(self.center());
                &&& self.radius()@ - 16 * far - 23 <= out.length_exact() <= self.radius()@ + 9
                    * far + 17
                &&& self.hit(ray)->surface_normal.plus(ray.direction).is_within(6 * far + 22)
            }),
    {
        self.lemma_aimed_at_the_center(ray);
        self.lemma_aimed_way_back(ray);
        let k: int = SCALE as int;
        let c: Vector = self.to_center(ray);
        let e: Vector = ray.direction;
        let d: int = c.length_exact();
        let far: int = d / k;
        let t: int = self.hit(ray)->t@;
        let h: int = t / k + 3;
        let w: int = d - t;
        let out: Vector = ray.point_at_spec(self.hit(ray)->t).minus(self.center());
        let l: int = out.length_exact();
        lemma_length_within(c, AIM_RANGE as int);
        assert(d == far * k + d % k && 0 <= d % k < k);
        assert(h <= far + 3 && far <= 8796);
        // the direction
        c.lemma_no_direction_iff_zero();
        c.lemma_magnified();
        c.lemma_coordinates_within_length();
        let large: Vector = c.magnified();
        large.lemma_coordinates_within_length();
        let (m, f) = (c.magnifier(), large.length_exact());
        lemma_direction_part(c.x@, large.x@, m, f);
        lemma_direction_part(c.y@, large.y@, m, f);
        lemma_direction_part(c.z@, large.z@, m, f);
        // the normal
        out.lemma_no_direction_iff_zero();
        out.lemma_magnified();
        out.lemma_coordinates_within_length();
        let wide: Vector = out.magnified();
        wide.lemma_coordinates_within_length();
        let (mv, fv) = (out.magnifier(), wide.length_exact());
        lemma_direction_part(out.x@, wide.x@, mv, fv);
        lemma_direction_part(out.y@, wide.y@, mv, fv);
        lemma_direction_part(out.z@, wide.z@, mv, fv);
        let normal: Vector = self.hit(ray)->surface_normal;
        assert(normal == wide.direction());
        lemma_normal_part(abs(c.x@), abs(out.x@), abs(e.x@), abs(normal.x@), m, f, d, mv, fv, l, w, h);
        lemma_normal_part(abs(c.y@), abs(out.y@), abs(e.y@), abs(normal.y@), m, f, d, mv, fv, l, w, h);
        lemma_normal_part(abs(c.z@), abs(out.z@), abs(e.z@), abs(normal.z@), m, f, d, mv, fv, l, w, h);
    }
}

/// One coordinate `p` of a vector, magnified `m` times into `q`, and
/// divided by the magnified length `f`: the coordinate of the direction.
proof fn lemma_direction_part(p: int, q: int, m: int, f: int)
    requires
        m >= 1,
        f >= 1,
        q == p * m,
        abs(q) <= f,
    ensures
        ({
            let u: int = quot(q * SCALE, f);
            &&& Scalar::of(u)@ == u
            &&& 0 <= abs(u) <= SCALE
            &&& abs(u) * f <= (m * abs(p)) * SCALE < abs(u) * f + f
            &&& p >= 0 ==> u >= 0
            &&& p <= 0 ==> u <= 0
        }),
{
    let k: int = SCALE as int;
    Vector::lemma_unit_coordinate(q, f);
    assert(abs(q) == m * abs(p)) by (nonlinear_arith)
        requires
            q == p * m,
            m >= 1,
    ;
    assert(p >= 0 ==> q >= 0) by (nonlinear_arith)
        requires
            q == p * m,
            m >= 1,
    ;
    assert(p <= 0 ==> q <= 0) by (nonlinear_arith)
        requires
            q == p * m,
            m >= 1,
    ;
}

} // verus!
