//! Frames of three directions.

use crate::reflection::{is_nearly_unit, UNIT_SLACK};
use crate::scalar::{
    abs, lemma_product_bound, lemma_quot_bounds, lemma_quot_rest, lemma_quot_size,
    lemma_square_le, lemma_square_lt, quot, SCALE,
};
use crate::vector::Vector;
use vstd::prelude::*;

verus! {

/// A frame: `w` points backward, `u` to the side and `v` upward.
#[derive(Clone, Copy, Debug, PartialEq, Eq, Structural)]
pub struct Basis {
    pub u: Vector,
    pub v: Vector,
    pub w: Vector,
}

impl Basis {
    /// What `u` is made of: the cross product of the hint `v` and of `w`,
    /// each scaled to length one first, so that a short hint tells the
    /// direction as well as a long one.
    pub open spec fn across(w: Vector, v: Vector) -> Vector {
        v.normalized_or_zero_spec().cross_spec(w.normalized_or_zero_spec())
    }

    /// The frame about `w` scaled to length one, with `u` across the hint
    /// `v` and `w`, scaled too, and `v` across `w` and `u`; none where
    /// `w` or the hint is too short to stand for a direction.
    pub open spec fn from_wv_spec(w: Vector, v: Vector) -> Option<Basis> {
        if w.is_zero_approx_spec() || v.is_zero_approx_spec() {
            None
        } else {
            let u: Vector = Basis::across(w, v).normalized_or_zero_spec();
            let w: Vector = w.normalized_or_zero_spec();
            Some(Basis { u, v: w.cross_spec(u), w })
        }
    }

    /// The frame of a backward direction and a hint of what is up.
    pub fn from_wv(w: Vector, v: Vector) -> (r: Option<Basis>)
        ensures
            r == Basis::from_wv_spec(w, v),
            r is None <==> w.is_zero_approx_spec() || v.is_zero_approx_spec(),
            r matches Some(basis) ==> is_nearly_unit(basis.w) && basis.u.is_within(SCALE as int),
    {
        proof {
            if Basis::from_wv_spec(w, v) is Some {
                Basis::lemma_frame_is_square(w, v, 0);
            }
        }
        if w.is_zero_approx() || v.is_zero_approx() {
            return None;
        }
        let w: Vector = w.normalized_or_zero();
        let u: Vector = v.normalized_or_zero().cross(w).normalized_or_zero();
        let v: Vector = w.cross(u);
        Some(Basis { u, v, w })
    }
}

/// The three parts of the cross product of `a` and `b`, before they are
/// divided and rounded.
pub open spec fn cross_exact(a: Vector, b: Vector) -> (int, int, int) {
    (
        a.y@ * b.z@ - a.z@ * b.y@,
        a.z@ * b.x@ - a.x@ * b.z@,
        a.x@ * b.y@ - a.y@ * b.x@,
    )
}

/// The cross product of two vectors stands across both of them.
proof fn lemma_cross_exact_is_perpendicular(a: Vector, b: Vector)
    ensures
        cross_exact(a, b).0 * a.x@ + cross_exact(a, b).1 * a.y@ + cross_exact(a, b).2 * a.z@ == 0,
        cross_exact(a, b).0 * b.x@ + cross_exact(a, b).1 * b.y@ + cross_exact(a, b).2 * b.z@ == 0,
{
    let (ax, ay, az, bx, by, bz) = (a.x@, a.y@, a.z@, b.x@, b.y@, b.z@);
    assert((ay * bz - az * by) * ax + (az * bx - ax * bz) * ay + (ax * by - ay * bx) * az == 0)
        by (nonlinear_arith);
    assert((ay * bz - az * by) * bx + (az * bx - ax * bz) * by + (ax * by - ay * bx) * bz == 0)
        by (nonlinear_arith);
}

/// The square of a difference of two products, where the product of the
/// two equals the product of `p` and `q`.
proof fn lemma_difference_squared(m: int, n: int, p: int, q: int)
    requires
        m * n == p * q,
    ensures
        (m - n) * (m - n) == m * m + n * n - 2 * (p * q),
{
    assert((m - n) * (m - n) == m * m + n * n - 2 * (m * n)) by (nonlinear_arith);
}

/// The squared length of a cross product is the product of the squared
/// lengths less the squared dot product.
proof fn lemma_cross_exact_length(a: Vector, b: Vector)
    ensures
        cross_exact(a, b).0 * cross_exact(a, b).0 + cross_exact(a, b).1 * cross_exact(a, b).1
            + cross_exact(a, b).2 * cross_exact(a, b).2 == a.norm_sq_exact() * b.norm_sq_exact()
            - a.dot_exact(b) * a.dot_exact(b),
{
    let (ax, ay, az, bx, by, bz) = (a.x@, a.y@, a.z@, b.x@, b.y@, b.z@);
    let (xx, xy, xz) = (ax * bx, ax * by, ax * bz);
    let (yx, yy, yz) = (ay * bx, ay * by, ay * bz);
    let (zx, zy, zz) = (az * bx, az * by, az * bz);
    // the mixed products pair up
    assert(yz * zy == yy * zz) by (nonlinear_arith)
        requires
            yz == ay * bz,
            zy == az * by,
            yy == ay * by,
            zz == az * bz,
    ;
    assert(zx * xz == zz * xx) by (nonlinear_arith)
        requires
            zx == az * bx,
            xz == ax * bz,
            zz == az * bz,
            xx == ax * bx,
    ;
    assert(xy * yx == xx * yy) by (nonlinear_arith)
        requires
            xy == ax * by,
            yx == ay * bx,
            xx == ax * bx,
            yy == ay * by,
    ;
    lemma_difference_squared(yz, zy, yy, zz);
    lemma_difference_squared(zx, xz, zz, xx);
    lemma_difference_squared(xy, yx, xx, yy);
    // the product of the squared lengths
    let (a2, b2) = (a.norm_sq_exact(), b.norm_sq_exact());
    let (pa, qa, ra) = (ax * ax, ay * ay, az * az);
    let (pb, qb, rb) = (bx * bx, by * by, bz * bz);
    assert(a2 * b2 == pa * pb + pa * qb + pa * rb + qa * pb + qa * qb + qa * rb + ra * pb + ra * qb
        + ra * rb) by (nonlinear_arith)
        requires
            a2 == pa + qa + ra,
            b2 == pb + qb + rb,
    ;
    assert(pa * pb == xx * xx && pa * qb == xy * xy && pa * rb == xz * xz) by (nonlinear_arith)
        requires
            pa == ax * ax,
            pb == bx * bx,
            qb == by * by,
            rb == bz * bz,
            xx == ax * bx,
            xy == ax * by,
            xz == ax * bz,
    ;
    assert(qa * pb == yx * yx && qa * qb == yy * yy && qa * rb == yz * yz) by (nonlinear_arith)
        requires
            qa == ay * ay,
            pb == bx * bx,
            qb == by * by,
            rb == bz * bz,
            yx == ay * bx,
            yy == ay * by,
            yz == ay * bz,
    ;
    assert(ra * pb == zx * zx && ra * qb == zy * zy && ra * rb == zz * zz) by (nonlinear_arith)
        requires
            ra == az * az,
            pb == bx * bx,
            qb == by * by,
            rb == bz * bz,
            zx == az * bx,
            zy == az * by,
            zz == az * bz,
    ;
    // the squared dot product
    let d: int = a.dot_exact(b);
    assert(d * d == xx * xx + yy * yy + zz * zz + 2 * (xx * yy) + 2 * (yy * zz) + 2 * (zz * xx))
        by (nonlinear_arith)
        requires
            d == xx + yy + zz,
    ;
}

/// The cross product of two vectors that have length one and stand
/// across each other has length one too, but for the rounding: where the
/// two are of length one within `UNIT_SLACK` and their dot product is at
/// most `j` steps, its squared length lies within three times
/// `UNIT_SLACK` and the square of `j` of one.
pub proof fn lemma_cross_of_units(a: Vector, b: Vector, j: int)
    requires
        is_nearly_unit(a),
        is_nearly_unit(b),
        0 <= j,
        abs(a.dot_exact(b)) <= j * SCALE,
    ensures
        abs(a.cross_spec(b).norm_sq_exact() - SCALE * SCALE) <= 3 * UNIT_SLACK + j * j,
{
    let k: int = SCALE as int;
    let e: (int, int, int) = cross_exact(a, b);
    let c: Vector = a.cross_spec(b);
    lemma_cross_is_perpendicular(a, b, k, k);
    lemma_cross_exact_length(a, b);
    let (a2, b2, d) = (a.norm_sq_exact(), b.norm_sq_exact(), a.dot_exact(b));
    let e2: int = e.0 * e.0 + e.1 * e.1 + e.2 * e.2;
    let low: int = k * k - 8 * k;
    let high: int = k * k + 8 * k;
    assert(low * low <= a2 * b2 <= high * high) by (nonlinear_arith)
        requires
            0 <= low <= a2 <= high,
            0 <= low <= b2 <= high,
    ;
    assert(j * k >= 0) by (nonlinear_arith)
        requires
            j >= 0,
            k >= 1,
    ;
    lemma_square_le(abs(d), j * k);
    assert(d * d == abs(d) * abs(d) && d * d >= 0) by (nonlinear_arith);
    assert((j * k) * (j * k) == (j * j) * (k * k) && j * j >= 0) by (nonlinear_arith);
    assert(e2 == a2 * b2 - d * d);
    assert(low * low - (j * j) * (k * k) <= e2 <= high * high);
    // each coordinate against its exact part
    let (p, q, r) = (abs(c.x@), abs(c.y@), abs(c.z@));
    let n: int = c.norm_sq_exact();
    assert(c.x@ == quot(e.0, k) && c.y@ == quot(e.1, k) && c.z@ == quot(e.2, k)) by {
        lemma_product_bound(a.y@, b.z@, k, k);
        lemma_product_bound(a.z@, b.y@, k, k);
        lemma_product_bound(a.z@, b.x@, k, k);
        lemma_product_bound(a.x@, b.z@, k, k);
        lemma_product_bound(a.x@, b.y@, k, k);
        lemma_product_bound(a.y@, b.x@, k, k);
        lemma_quot_size(e.0, k, 2 * k);
        lemma_quot_size(e.1, k, 2 * k);
        lemma_quot_size(e.2, k, 2 * k);
    }
    lemma_part_squared(e.0, c.x@, k);
    lemma_part_squared(e.1, c.y@, k);
    lemma_part_squared(e.2, c.z@, k);
    assert(n == p * p + q * q + r * r) by (nonlinear_arith)
        requires
            n == c.x@ * c.x@ + c.y@ * c.y@ + c.z@ * c.z@,
            p == abs(c.x@),
            q == abs(c.y@),
            r == abs(c.z@),
    ;
    let kk: int = k * k;
    assert(kk * n == kk * (p * p) + kk * (q * q) + kk * (r * r)) by (nonlinear_arith)
        requires
            n == p * p + q * q + r * r,
    ;
    // from above
    assert(kk * n <= high * high);
    assert(high * high == kk * ((k + 8) * (k + 8))) by (nonlinear_arith)
        requires
            high == k * k + 8 * k,
            kk == k * k,
    ;
    assert(n <= (k + 8) * (k + 8)) by (nonlinear_arith)
        requires
            kk * n <= kk * ((k + 8) * (k + 8)),
            kk > 0,
    ;
    // from below
    assert(p * p <= n && q * q <= n && r * r <= n) by (nonlinear_arith)
        requires
            n == p * p + q * q + r * r,
    ;
    if p > k + 8 {
        lemma_square_lt(k + 8, p);
    }
    if q > k + 8 {
        lemma_square_lt(k + 8, q);
    }
    if r > k + 8 {
        lemma_square_lt(k + 8, r);
    }
    let grown: int = (p + 1) * (p + 1) + (q + 1) * (q + 1) + (r + 1) * (r + 1);
    assert(grown == n + 2 * (p + q + r) + 3) by (nonlinear_arith)
        requires
            grown == (p + 1) * (p + 1) + (q + 1) * (q + 1) + (r + 1) * (r + 1),
            n == p * p + q * q + r * r,
    ;
    assert(kk * grown == kk * ((p + 1) * (p + 1)) + kk * ((q + 1) * (q + 1)) + kk * ((r + 1) * (r
        + 1))) by (nonlinear_arith)
        requires
            grown == (p + 1) * (p + 1) + (q + 1) * (q + 1) + (r + 1) * (r + 1),
    ;
    assert(e2 <= kk * grown);
    let jj: int = j * j;
    assert(low * low - jj * kk == kk * ((k - 8) * (k - 8) - jj)) by (nonlinear_arith)
        requires
            low == k * k - 8 * k,
            kk == k * k,
    ;
    assert((k - 8) * (k - 8) - jj <= grown) by (nonlinear_arith)
        requires
            kk * ((k - 8) * (k - 8) - jj) <= kk * grown,
            kk > 0,
    ;
}

/// One coordinate `c` of a rounded cross product against the exact part
/// `e` that it was rounded from: the squares.
proof fn lemma_part_squared(e: int, c: int, k: int)
    requires
        k > 0,
        c == quot(e, k),
    ensures
        (k * k) * (abs(c) * abs(c)) <= e * e <= (k * k) * ((abs(c) + 1) * (abs(c) + 1)),
{
    lemma_quot_bounds(e, k);
    let (m, s) = (abs(c), abs(e));
    assert(m * k >= 0) by (nonlinear_arith)
        requires
            m >= 0,
            k > 0,
    ;
    lemma_square_le(m * k, s);
    lemma_square_le(s, m * k + k);
    assert((m * k) * (m * k) == (k * k) * (m * m)) by (nonlinear_arith);
    assert((m * k + k) * (m * k + k) == (k * k) * ((m + 1) * (m + 1))) by (nonlinear_arith);
    assert(s * s == e * e) by (nonlinear_arith)
        requires
            s == abs(e),
    ;
}

/// One coordinate `c` of a rounded cross product, with the exact part
/// `e` that it was rounded from, times a coordinate `w` of another vector.
proof fn lemma_rounded_share(e: int, c: int, w: int, k: int)
    requires
        k > 0,
        c == quot(e, k),
    ensures
        abs(k * (c * w) - e * w) <= k * abs(w),
{
    lemma_quot_rest(e, k);
    let rest: int = e - c * k;
    lemma_product_bound(rest, w, k, abs(w));
    assert(k * (c * w) - e * w == -(rest * w)) by (nonlinear_arith)
        requires
            rest == e - c * k,
    ;
}

/// The rounded cross product of two vectors stands across both of them,
/// but for the rounding: its exact dot product with either is no larger
/// than the sizes of that vector's coordinates together. Here `a` has no
/// coordinate larger than `p`, `b` none larger than `q`, and the cross
/// product fits the range.
pub proof fn lemma_cross_is_perpendicular(a: Vector, b: Vector, p: int, q: int)
    requires
        a.is_within(p),
        b.is_within(q),
        2 * (p * q) <= i64::MAX * SCALE,
    ensures
        abs(a.cross_spec(b).dot_exact(a)) <= abs(a.x@) + abs(a.y@) + abs(a.z@),
        abs(a.cross_spec(b).dot_exact(b)) <= abs(b.x@) + abs(b.y@) + abs(b.z@),
        abs(a.cross_spec(b).x@) * SCALE <= 2 * (p * q),
        abs(a.cross_spec(b).y@) * SCALE <= 2 * (p * q),
        abs(a.cross_spec(b).z@) * SCALE <= 2 * (p * q),
{
    let k: int = SCALE as int;
    let e: (int, int, int) = cross_exact(a, b);
    let c: Vector = a.cross_spec(b);
    lemma_product_bound(a.y@, b.z@, p, q);
    lemma_product_bound(a.z@, b.y@, p, q);
    lemma_product_bound(a.z@, b.x@, p, q);
    lemma_product_bound(a.x@, b.z@, p, q);
    lemma_product_bound(a.x@, b.y@, p, q);
    lemma_product_bound(a.y@, b.x@, p, q);
    assert(i64::MAX * k == (i64::MAX as int) * k);
    lemma_quot_size(e.0, k, i64::MAX as int);
    lemma_quot_size(e.1, k, i64::MAX as int);
    lemma_quot_size(e.2, k, i64::MAX as int);
    assert(c.x@ == quot(e.0, k) && c.y@ == quot(e.1, k) && c.z@ == quot(e.2, k));
    lemma_quot_bounds(e.0, k);
    lemma_quot_bounds(e.1, k);
    lemma_quot_bounds(e.2, k);
    lemma_cross_exact_is_perpendicular(a, b);
    lemma_rounded_share(e.0, c.x@, a.x@, k);
    lemma_rounded_share(e.1, c.y@, a.y@, k);
    lemma_rounded_share(e.2, c.z@, a.z@, k);
    lemma_rounded_share(e.0, c.x@, b.x@, k);
    lemma_rounded_share(e.1, c.y@, b.y@, k);
    lemma_rounded_share(e.2, c.z@, b.z@, k);
    let along_a: int = c.dot_exact(a);
    let along_b: int = c.dot_exact(b);
    assert(k * along_a == k * (c.x@ * a.x@) + k * (c.y@ * a.y@) + k * (c.z@ * a.z@))
        by (nonlinear_arith)
        requires
            along_a == c.x@ * a.x@ + c.y@ * a.y@ + c.z@ * a.z@,
    ;
    assert(k * along_b == k * (c.x@ * b.x@) + k * (c.y@ * b.y@) + k * (c.z@ * b.z@))
        by (nonlinear_arith)
        requires
            along_b == c.x@ * b.x@ + c.y@ * b.y@ + c.z@ * b.z@,
    ;
    let (sa, sb) = (abs(a.x@) + abs(a.y@) + abs(a.z@), abs(b.x@) + abs(b.y@) + abs(b.z@));
    assert(k * sa == k * abs(a.x@) + k * abs(a.y@) + k * abs(a.z@)) by (nonlinear_arith)
        requires
            sa == abs(a.x@) + abs(a.y@) + abs(a.z@),
    ;
    assert(k * sb == k * abs(b.x@) + k * abs(b.y@) + k * abs(b.z@)) by (nonlinear_arith)
        requires
            sb == abs(b.x@) + abs(b.y@) + abs(b.z@),
    ;
    assert(abs(k * along_a) <= k * sa);
    assert(abs(k * along_b) <= k * sb);
    assert(abs(along_a) <= sa) by (nonlinear_arith)
        requires
            abs(k * along_a) <= k * sa,
            k > 0,
    ;
    assert(abs(along_b) <= sb) by (nonlinear_arith)
        requires
            abs(k * along_b) <= k * sb,
            k > 0,
    ;
}

/// Scaling a vector `c` to length one does not turn it far: for a vector
/// `w` with no coordinate larger than one, the dot product with the scaled
/// vector, times the length of `c`, is the dot product with `c` but for
/// three units.
pub proof fn lemma_normalized_keeps_perpendicular(c: Vector, w: Vector)
    requires
        c != Vector::zero_spec(),
        w.is_within(SCALE as int),
    ensures
        c.normalized_spec() is Some,
        c.length_exact() * abs(c.normalized_spec()->0.dot_exact(w)) <= SCALE * abs(c.dot_exact(w))
            + 3 * (c.length_exact() * SCALE),
{
    let k: int = SCALE as int;
    c.lemma_no_direction_iff_zero();
    c.lemma_magnified();
    let large: Vector = c.magnified();
    large.lemma_coordinates_within_length();
    let (m, f, l) = (c.magnifier(), large.length_exact(), c.length_exact());
    Vector::lemma_unit_coordinate(large.x@, f);
    Vector::lemma_unit_coordinate(large.y@, f);
    Vector::lemma_unit_coordinate(large.z@, f);
    let u: Vector = c.normalized_spec()->0;
    lemma_rounded_share(large.x@ * k, u.x@, w.x@, f);
    lemma_rounded_share(large.y@ * k, u.y@, w.y@, f);
    lemma_rounded_share(large.z@ * k, u.z@, w.z@, f);
    let (along_u, along_c) = (u.dot_exact(w), c.dot_exact(w));
    assert(f * along_u == f * (u.x@ * w.x@) + f * (u.y@ * w.y@) + f * (u.z@ * w.z@))
        by (nonlinear_arith)
        requires
            along_u == u.x@ * w.x@ + u.y@ * w.y@ + u.z@ * w.z@,
    ;
    let mk: int = m * k;
    assert(((c.x@ * m) * k) * w.x@ == mk * (c.x@ * w.x@)) by (nonlinear_arith)
        requires
            mk == m * k,
    ;
    assert(((c.y@ * m) * k) * w.y@ == mk * (c.y@ * w.y@)) by (nonlinear_arith)
        requires
            mk == m * k,
    ;
    assert(((c.z@ * m) * k) * w.z@ == mk * (c.z@ * w.z@)) by (nonlinear_arith)
        requires
            mk == m * k,
    ;
    assert(mk * along_c == mk * (c.x@ * w.x@) + mk * (c.y@ * w.y@) + mk * (c.z@ * w.z@))
        by (nonlinear_arith)
        requires
            along_c == c.x@ * w.x@ + c.y@ * w.y@ + c.z@ * w.z@,
    ;
    lemma_product_bound(f, w.x@, f, k);
    lemma_product_bound(f, w.y@, f, k);
    lemma_product_bound(f, w.z@, f, k);
    assert(f * abs(w.x@) == abs(f * w.x@) && f * abs(w.y@) == abs(f * w.y@) && f * abs(w.z@)
        == abs(f * w.z@)) by (nonlinear_arith)
        requires
            f >= 1,
    ;
    assert(abs(f * along_u - (m * k) * along_c) <= 3 * (f * k));
    let (size_u, size_c) = (abs(along_u), abs(along_c));
    assert(abs(f * along_u) == f * size_u && abs((m * k) * along_c) == (m * k) * size_c)
        by (nonlinear_arith)
        requires
            f >= 1,
            m >= 1,
            k >= 1,
            size_u == abs(along_u),
            size_c == abs(along_c),
    ;
    assert(f * size_u <= (m * k) * size_c + 3 * (f * k));
    // from the magnified length to the length
    if size_u > 3 * k {
        let over: int = size_u - 3 * k;
        assert(f * over == f * size_u - 3 * (f * k)) by (nonlinear_arith)
            requires
                over == size_u - 3 * k,
        ;
        assert((m * l) * over <= f * over) by (nonlinear_arith)
            requires
                m * l <= f,
                over >= 0,
        ;
        assert((m * l) * over == m * (l * over) && (m * k) * size_c == m * (k * size_c))
            by (nonlinear_arith);
        assert(l * over <= k * size_c) by (nonlinear_arith)
            requires
                m * (l * over) <= m * (k * size_c),
                m >= 1,
        ;
        assert(l * over == l * size_u - 3 * (l * k)) by (nonlinear_arith)
            requires
                over == size_u - 3 * k,
        ;
    } else {
        assert(l * size_u <= 3 * (l * k) && k * size_c >= 0) by (nonlinear_arith)
            requires
                0 <= size_u <= 3 * k,
                l >= 0,
                k >= 1,
                size_c >= 0,
        ;
    }
}

impl Basis {
    /// The frame is square, but for the rounding. `w` has length one, and
    /// neither it nor `u` has a coordinate larger than one; `v` stands
    /// across `u` and `w` within three steps; `u` has length one unless the
    /// hint lies along `w`, so that the cross product of the two is zero.
    /// Where `j` is a number of steps so large that `j` times the length of
    /// that cross product is at least three times that length and three
    /// units (seven, for a hint that stands across `w`), `u` stands across
    /// `w` within `j` steps, and the squared length of `v` lies within
    /// three times `UNIT_SLACK` and the square of `j` of one.
    pub proof fn lemma_frame_is_square(w: Vector, v: Vector, j: int)
        requires
            Basis::from_wv_spec(w, v) is Some,
            0 <= j,
        ensures
            ({
                let basis: Basis = Basis::from_wv_spec(w, v)->0;
                let long: int = Basis::across(w, v).length_exact();
                &&& is_nearly_unit(basis.w)
                &&& basis.u.is_within(SCALE as int)
                &&& abs(basis.v.dot_spec(basis.w)@) <= 3
                &&& abs(basis.v.dot_spec(basis.u)@) <= 3
                &&& Basis::across(w, v) != Vector::zero_spec() ==> is_nearly_unit(basis.u)
                &&& long * j >= 3 * (long + SCALE) ==> abs(basis.u.dot_spec(basis.w)@) <= j && abs(
                    basis.v.norm_sq_exact() - SCALE * SCALE,
                ) <= 3 * UNIT_SLACK + j * j
            }),
    {
        let k: int = SCALE as int;
        let basis: Basis = Basis::from_wv_spec(w, v)->0;
        w.lemma_no_direction_iff_zero();
        v.lemma_no_direction_iff_zero();
        w.lemma_normalized_is_nearly_unit();
        v.lemma_normalized_is_nearly_unit();
        let hint: Vector = v.normalized_spec()->0;
        // u
        let c: Vector = Basis::across(w, v);
        let long: int = c.length_exact();
        assert(2 * (k * k) <= i64::MAX * SCALE);
        lemma_cross_is_perpendicular(hint, basis.w, k, k);
        c.lemma_no_direction_iff_zero();
        if c != Vector::zero_spec() {
            c.lemma_normalized_is_nearly_unit();
        }
        // v
        lemma_cross_is_perpendicular(basis.w, basis.u, k, k);
        lemma_quot_size(basis.v.dot_exact(basis.w), k, 3);
        lemma_quot_size(basis.v.dot_exact(basis.u), k, 3);
        if long * j >= 3 * (long + SCALE) {
            assert(long >= 1) by (nonlinear_arith)
                requires
                    long * j >= 3 * (long + k),
                    long >= 0,
                    j >= 0,
                    k >= 1,
            ;
            lemma_normalized_keeps_perpendicular(c, basis.w);
            let along: int = basis.u.dot_exact(basis.w);
            assert(abs(along) <= j * k) by (nonlinear_arith)
                requires
                    long * abs(along) <= k * abs(c.dot_exact(basis.w)) + 3 * (long * k),
                    abs(c.dot_exact(basis.w)) <= 3 * k,
                    long * j >= 3 * (long + k),
                    long >= 1,
                    k >= 1,
                    j >= 0,
            ;
            lemma_quot_size(along, k, j);
            assert(basis.w.dot_exact(basis.u) == along) by (nonlinear_arith)
                requires
                    along == basis.u.x@ * basis.w.x@ + basis.u.y@ * basis.w.y@ + basis.u.z@
                        * basis.w.z@,
                    basis.w.dot_exact(basis.u) == basis.w.x@ * basis.u.x@ + basis.w.y@
                        * basis.u.y@ + basis.w.z@ * basis.u.z@,
            ;
            lemma_cross_of_units(basis.w, basis.u, j);
        }
    }
}

} // verus!
