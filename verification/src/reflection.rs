//! What holds of mirroring a vector twice about one axis.

use crate::scalar::{
    abs, floor_sqrt, lemma_floor_sqrt_is_floor_sqrt, lemma_product_bound, lemma_quot_rest,
    lemma_quot_size, lemma_square_le, quot, Scalar, SCALE,
};
use crate::vector::lemma_dot_size;
use crate::vector::Vector;
use vstd::prelude::*;

verus! {

/// The largest size of a coordinate for which mirroring twice stays clear
/// of the ends of the range.
pub const MIRROR_RANGE: i64 = 0x0200_0000_0000_0000;

/// How far the squared length of a vector that was scaled to length one
/// may lie from one, in squared steps.
pub const UNIT_SLACK: i64 = 8 * SCALE;

/// `b` has length one but for the rounding: no coordinate is larger than
/// one, and the squared length lies within `UNIT_SLACK` of one.
pub open spec fn is_nearly_unit(b: Vector) -> bool {
    &&& abs(b.x@) <= SCALE
    &&& abs(b.y@) <= SCALE
    &&& abs(b.z@) <= SCALE
    &&& abs(b.norm_sq_exact() - SCALE * SCALE) <= UNIT_SLACK
}

/// One coordinate in one mirroring: for the coordinate `v` of the vector,
/// `b` of the axis and the rounded dot product `d`, the share of this
/// coordinate in `k` times the dot product of the mirrored vector and the
/// axis.
proof fn lemma_mirrored_share(v: int, b: int, d: int, k: int)
    requires
        k > 0,
    ensures
        k * ((v - 2 * quot(d * b, k)) * b) == k * (v * b) - 2 * (d * (b * b)) + 2 * ((d * b - quot(
            d * b,
            k,
        ) * k) * b),
{
    let g: int = quot(d * b, k);
    let rest: int = d * b - g * k;
    assert(k * ((v - 2 * g) * b) == k * (v * b) - 2 * ((g * k) * b)) by (nonlinear_arith);
    assert((g * k) * b == (d * b) * b - rest * b) by (nonlinear_arith)
        requires
            rest == d * b - g * k,
    ;
    assert((d * b) * b == d * (b * b)) by (nonlinear_arith);
}

/// Mirroring twice in whole numbers. For a vector `v`, an axis `b` with
/// no coordinate larger than `k`, and `e` the distance of its squared
/// length from `k * k`: where `d` and `d2` are the two rounded dot
/// products, `d + d2` is small, and so is what each coordinate is off by.
proof fn lemma_mirror_twice(v: (int, int, int), b: (int, int, int), k: int, e: int) -> (r: (
    int,
    int,
    int,
))
    requires
        k > 0,
        abs(b.0) <= k,
        abs(b.1) <= k,
        abs(b.2) <= k,
        abs(b.0 * b.0 + b.1 * b.1 + b.2 * b.2 - k * k) <= e,
    ensures
        ({
            let d: int = quot(v.0 * b.0 + v.1 * b.1 + v.2 * b.2, k);
            let m: (int, int, int) = (
                v.0 - 2 * quot(d * b.0, k),
                v.1 - 2 * quot(d * b.1, k),
                v.2 - 2 * quot(d * b.2, k),
            );
            let d2: int = quot(m.0 * b.0 + m.1 * b.1 + m.2 * b.2, k);
            &&& r == (
                m.0 - 2 * quot(d2 * b.0, k),
                m.1 - 2 * quot(d2 * b.1, k),
                m.2 - 2 * quot(d2 * b.2, k),
            )
            &&& abs(r.0 - v.0) * (k * k) <= 20 * (k * k) + 4 * (abs(d) * e)
            &&& abs(r.1 - v.1) * (k * k) <= 20 * (k * k) + 4 * (abs(d) * e)
            &&& abs(r.2 - v.2) * (k * k) <= 20 * (k * k) + 4 * (abs(d) * e)
        }),
{
    let dot: int = v.0 * b.0 + v.1 * b.1 + v.2 * b.2;
    let d: int = quot(dot, k);
    let rest: int = dot - d * k;
    lemma_quot_rest(dot, k);
    let (g0, g1, g2) = (quot(d * b.0, k), quot(d * b.1, k), quot(d * b.2, k));
    let (r0, r1, r2) = (d * b.0 - g0 * k, d * b.1 - g1 * k, d * b.2 - g2 * k);
    lemma_quot_rest(d * b.0, k);
    lemma_quot_rest(d * b.1, k);
    lemma_quot_rest(d * b.2, k);
    let m: (int, int, int) = (v.0 - 2 * g0, v.1 - 2 * g1, v.2 - 2 * g2);
    let dot2: int = m.0 * b.0 + m.1 * b.1 + m.2 * b.2;
    let d2: int = quot(dot2, k);
    let rest2: int = dot2 - d2 * k;
    lemma_quot_rest(dot2, k);
    let (h0, h1, h2) = (quot(d2 * b.0, k), quot(d2 * b.1, k), quot(d2 * b.2, k));
    let (s0, s1, s2) = (d2 * b.0 - h0 * k, d2 * b.1 - h1 * k, d2 * b.2 - h2 * k);
    lemma_quot_rest(d2 * b.0, k);
    lemma_quot_rest(d2 * b.1, k);
    lemma_quot_rest(d2 * b.2, k);
    let r: (int, int, int) = (m.0 - 2 * h0, m.1 - 2 * h1, m.2 - 2 * h2);
    let bb: int = b.0 * b.0 + b.1 * b.1 + b.2 * b.2;
    let kk: int = k * k;
    assert(kk > 0) by (nonlinear_arith)
        requires
            kk == k * k,
            k > 0,
    ;
    // k * dot2 in terms of the first mirroring
    lemma_mirrored_share(v.0, b.0, d, k);
    lemma_mirrored_share(v.1, b.1, d, k);
    lemma_mirrored_share(v.2, b.2, d, k);
    let lost: int = r0 * b.0 + r1 * b.1 + r2 * b.2;
    assert(k * dot2 == k * (m.0 * b.0) + k * (m.1 * b.1) + k * (m.2 * b.2)) by (nonlinear_arith)
        requires
            dot2 == m.0 * b.0 + m.1 * b.1 + m.2 * b.2,
    ;
    assert(k * dot == k * (v.0 * b.0) + k * (v.1 * b.1) + k * (v.2 * b.2)) by (nonlinear_arith)
        requires
            dot == v.0 * b.0 + v.1 * b.1 + v.2 * b.2,
    ;
    assert(d * bb == d * (b.0 * b.0) + d * (b.1 * b.1) + d * (b.2 * b.2)) by (nonlinear_arith)
        requires
            bb == b.0 * b.0 + b.1 * b.1 + b.2 * b.2,
    ;
    assert(k * dot2 == k * dot - 2 * (d * bb) + 2 * lost);
    // the sum of the two dot products
    let sum: int = d + d2;
    assert(k * dot == kk * d + k * rest && k * dot2 == kk * d2 + k * rest2) by (nonlinear_arith)
        requires
            rest == dot - d * k,
            rest2 == dot2 - d2 * k,
            kk == k * k,
    ;
    assert(d * bb == d * (bb - kk) + kk * d) by (nonlinear_arith);
    assert(kk * sum == kk * d + kk * d2) by (nonlinear_arith)
        requires
            sum == d + d2,
    ;
    assert(kk * sum == k * rest - k * rest2 - 2 * (d * (bb - kk)) + 2 * lost);
    lemma_product_bound(k, rest, k, k);
    lemma_product_bound(k, rest2, k, k);
    lemma_product_bound(d, bb - kk, abs(d), e);
    lemma_product_bound(r0, b.0, k, k);
    lemma_product_bound(r1, b.1, k, k);
    lemma_product_bound(r2, b.2, k, k);
    assert(abs(kk * sum) <= 8 * kk + 2 * (abs(d) * e));
    assert(abs(kk * sum) == abs(sum) * kk) by (nonlinear_arith)
        requires
            kk == k * k,
            k > 0,
    ;
    // each coordinate
    lemma_twice_off(b.0, d, d2, k, g0, h0);
    lemma_twice_off(b.1, d, d2, k, g1, h1);
    lemma_twice_off(b.2, d, d2, k, g2, h2);
    assert(forall|off: int|
        abs(off) <= abs(sum) + 2 ==> #[trigger] (abs(2 * off) * kk) <= 2 * (abs(sum) * kk) + 4
            * kk) by (nonlinear_arith)
        requires
            kk > 0,
    ;
    assert(abs(2 * (g0 + h0)) * kk <= 2 * (abs(sum) * kk) + 4 * kk);
    assert(abs(2 * (g1 + h1)) * kk <= 2 * (abs(sum) * kk) + 4 * kk);
    assert(abs(2 * (g2 + h2)) * kk <= 2 * (abs(sum) * kk) + 4 * kk);
    r
}

/// One mirroring of a vector with no coordinate larger than `p`, about
/// an axis with no coordinate larger than one: nothing is clamped, and no
/// coordinate comes out larger than `7 * p`.
proof fn lemma_mirror_in_range(v: Vector, b: Vector, p: int)
    requires
        abs(v.x@) <= p,
        abs(v.y@) <= p,
        abs(v.z@) <= p,
        7 * p <= i64::MAX,
        abs(b.x@) <= SCALE,
        abs(b.y@) <= SCALE,
        abs(b.z@) <= SCALE,
    ensures
        ({
            let d: int = quot(v.dot_exact(b), SCALE as int);
            let m: Vector = v.reflected_spec(b);
            &&& v.dot_spec(b)@ == d
            &&& abs(d) <= 3 * p
            &&& m.x@ == v.x@ - 2 * quot(d * b.x@, SCALE as int)
            &&& m.y@ == v.y@ - 2 * quot(d * b.y@, SCALE as int)
            &&& m.z@ == v.z@ - 2 * quot(d * b.z@, SCALE as int)
            &&& abs(m.x@) <= 7 * p
            &&& abs(m.y@) <= 7 * p
            &&& abs(m.z@) <= 7 * p
        }),
{
    let k: int = SCALE as int;
    let d: int = quot(v.dot_exact(b), k);
    lemma_dot_size(v, b, p, k);
    lemma_quot_size(v.dot_exact(b), k, 3 * p);
    lemma_product_bound(d, b.x@, 3 * p, k);
    lemma_product_bound(d, b.y@, 3 * p, k);
    lemma_product_bound(d, b.z@, 3 * p, k);
    lemma_quot_size(d * b.x@, k, 3 * p);
    lemma_quot_size(d * b.y@, k, 3 * p);
    lemma_quot_size(d * b.z@, k, 3 * p);
}

/// One coordinate in two mirrorings: the two steps that were taken
/// off, `g` and `h`, cancel but for the sum of the two dot products
/// and two steps.
proof fn lemma_twice_off(b: int, d: int, d2: int, k: int, g: int, h: int)
    requires
        k > 0,
        abs(b) <= k,
        g == quot(d * b, k),
        h == quot(d2 * b, k),
    ensures
        abs(g + h) <= abs(d + d2) + 2,
{
    lemma_quot_rest(d * b, k);
    lemma_quot_rest(d2 * b, k);
    let sum: int = d + d2;
    assert(sum * b == d * b + d2 * b) by (nonlinear_arith)
        requires
            sum == d + d2,
    ;
    lemma_product_bound(sum, b, abs(sum), k);
    assert((g + h) * k == g * k + h * k) by (nonlinear_arith);
    assert(abs((g + h) * k) < abs(sum) * k + 2 * k);
    assert(abs(g + h) < abs(sum) + 2) by (nonlinear_arith)
        requires
            abs((g + h) * k) < abs(sum) * k + 2 * k,
            k > 0,
    ;
}

impl Vector {
    /// A vector that is scaled to length one has length one but for the
    /// rounding, whatever its length was.
    pub proof fn lemma_normalized_is_nearly_unit(self)
        requires
            self != Vector::zero_spec(),
        ensures
            self.normalized_spec() is Some,
            is_nearly_unit(self.normalized_spec()->0),
    {
        self.lemma_normalized_length();
        let unit: Vector = self.normalized_spec()->0;
        let n: int = unit.norm_sq_exact();
        unit.lemma_coordinates_within_length();
        lemma_floor_sqrt_is_floor_sqrt(n as nat);
        let root: int = unit.length_exact();
        let k: int = SCALE as int;
        lemma_square_le(k - 4, root);
        lemma_square_le(root + 1, k + 1);
    }

    /// Mirroring twice about the same axis returns the vector, but for
    /// the rounding. About an axis of length one, each coordinate comes
    /// back within 20 steps and 32 billionths of the dot product of the
    /// vector and the axis; for a vector of length one that is within 116
    /// steps.
    pub proof fn lemma_reflected_twice(self, axis: Vector)
        requires
            is_nearly_unit(axis),
            self.is_within(MIRROR_RANGE as int),
        ensures
            ({
                let back: Vector = self.reflected_spec(axis).reflected_spec(axis);
                let d: int = self.dot_spec(axis)@;
                &&& abs(back.x@ - self.x@) * SCALE <= 20 * SCALE + 32 * abs(d)
                &&& abs(back.y@ - self.y@) * SCALE <= 20 * SCALE + 32 * abs(d)
                &&& abs(back.z@ - self.z@) * SCALE <= 20 * SCALE + 32 * abs(d)
                &&& self.is_within(SCALE as int) ==> back.minus(self).is_within(116)
            }),
    {
        let k: int = SCALE as int;
        let p: int = MIRROR_RANGE as int;
        let once: Vector = self.reflected_spec(axis);
        let back: Vector = once.reflected_spec(axis);
        lemma_mirror_in_range(self, axis, p);
        lemma_mirror_in_range(once, axis, 7 * p);
        let d: int = self.dot_spec(axis)@;
        let r: (int, int, int) = lemma_mirror_twice(
            (self.x@, self.y@, self.z@),
            (axis.x@, axis.y@, axis.z@),
            k,
            UNIT_SLACK as int,
        );
        assert(r == (back.x@, back.y@, back.z@));
        assert(forall|off: int|
            #[trigger] (abs(off) * (k * k)) <= 20 * (k * k) + 4 * (abs(d) * (8 * k)) ==> abs(off) * k
                <= 20 * k + 32 * abs(d)) by (nonlinear_arith)
            requires
                k > 0,
        ;
        assert(abs(back.x@ - self.x@) * k <= 20 * k + 32 * abs(d));
        assert(abs(back.y@ - self.y@) * k <= 20 * k + 32 * abs(d));
        assert(abs(back.z@ - self.z@) * k <= 20 * k + 32 * abs(d));
        if self.is_within(k) {
            lemma_mirror_in_range(self, axis, k);
        }
    }
}

} // verus!
