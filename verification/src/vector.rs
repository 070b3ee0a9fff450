//! Three-dimensional vectors over fixed-point numbers.

use crate::scalar::{
    abs, clamp_raw, floor_sqrt, isqrt, lemma_floor_sqrt_is_floor_sqrt, lemma_product_bound,
    lemma_quot_bounds, lemma_square_le, lemma_square_lt, quot, sum3_over_scale, wide_mul,
    wide_quot, Scalar, SCALE,
};
use core::ops::Neg;
use vstd::prelude::*;

verus! {

/// The largest size of a coordinate, in steps, of a vector that is
/// magnified before its direction is taken.
pub const SHORT: i64 = 0x7fff_ffff;

/// By how much a short vector is magnified.
pub const MAGNIFIER: i64 = 0x1_0000_0000;

/// The largest exact squared length, in squared steps, of a vector that
/// counts as having no direction: 2.22e-16 of a squared unit, which is
/// less than fifteen steps of length.
pub const NEGLIGIBLE: i64 = 222;

/// A point or a direction in space.
#[derive(Clone, Copy, Debug, PartialEq, Eq, Structural)]
pub struct Vector {
    pub x: Scalar,
    pub y: Scalar,
    pub z: Scalar,
}

/// The size of a dot product with a vector that has no coordinate larger
/// than `q`.
pub proof fn lemma_dot_size(v: Vector, b: Vector, p: int, q: int)
    requires
        abs(v.x@) <= p,
        abs(v.y@) <= p,
        abs(v.z@) <= p,
        abs(b.x@) <= q,
        abs(b.y@) <= q,
        abs(b.z@) <= q,
    ensures
        abs(v.dot_exact(b)) <= (3 * p) * q,
{
    lemma_product_bound(v.x@, b.x@, p, q);
    lemma_product_bound(v.y@, b.y@, p, q);
    lemma_product_bound(v.z@, b.z@, p, q);
    assert((3 * p) * q == p * q + p * q + p * q) by (nonlinear_arith);
}

impl Vector {
    /// The zero vector.
    pub open spec fn zero_spec() -> Vector {
        Vector { x: Scalar::zero_spec(), y: Scalar::zero_spec(), z: Scalar::zero_spec() }
    }

    /// The sum, coordinate by coordinate.
    pub open spec fn plus(self, rhs: Vector) -> Vector {
        Vector { x: self.x.plus(rhs.x), y: self.y.plus(rhs.y), z: self.z.plus(rhs.z) }
    }

    /// The difference, coordinate by coordinate.
    pub open spec fn minus(self, rhs: Vector) -> Vector {
        Vector { x: self.x.minus(rhs.x), y: self.y.minus(rhs.y), z: self.z.minus(rhs.z) }
    }

    /// The opposite vector.
    pub open spec fn negated(self) -> Vector {
        Vector { x: self.x.negated(), y: self.y.negated(), z: self.z.negated() }
    }

    /// Each coordinate multiplied by `rhs`.
    pub open spec fn times(self, rhs: Scalar) -> Vector {
        Vector { x: self.x.times(rhs), y: self.y.times(rhs), z: self.z.times(rhs) }
    }

    /// Each coordinate divided by `rhs`, which is not zero.
    pub open spec fn over(self, rhs: Scalar) -> Vector {
        Vector { x: self.x.over(rhs), y: self.y.over(rhs), z: self.z.over(rhs) }
    }

    /// The vector has length one and lies along an axis of the frame.
    pub open spec fn is_along_an_axis(self) -> bool {
        ||| abs(self.x@) == SCALE && self.y@ == 0 && self.z@ == 0
        ||| self.x@ == 0 && abs(self.y@) == SCALE && self.z@ == 0
        ||| self.x@ == 0 && self.y@ == 0 && abs(self.z@) == SCALE
    }

    /// The exact dot product, in squared steps.
    pub open spec fn dot_exact(self, other: Vector) -> int {
        self.x@ * other.x@ + self.y@ * other.y@ + self.z@ * other.z@
    }

    /// The exact squared length, in squared steps.
    pub open spec fn norm_sq_exact(self) -> int {
        self.dot_exact(self)
    }

    /// The dot product, rounded toward zero once and clamped.
    pub open spec fn dot_spec(self, other: Vector) -> Scalar {
        Scalar::of(quot(self.dot_exact(other), SCALE as int))
    }

    /// The cross product: each coordinate is an exact difference of two
    /// products, rounded toward zero once and clamped.
    pub open spec fn cross_spec(self, other: Vector) -> Vector {
        Vector {
            x: Scalar::of(quot(self.y@ * other.z@ - self.z@ * other.y@, SCALE as int)),
            y: Scalar::of(quot(self.z@ * other.x@ - self.x@ * other.z@, SCALE as int)),
            z: Scalar::of(quot(self.x@ * other.y@ - self.y@ * other.x@, SCALE as int)),
        }
    }

    /// One coordinate `v` of a vector whose dot product with the axis is
    /// `d`, mirrored: `v - 2 * d * a`, where `a` is the axis's coordinate.
    pub open spec fn mirror_coordinate(v: Scalar, d: Scalar, a: Scalar) -> Scalar {
        Scalar::of(v@ - 2 * quot(d@ * a@, SCALE as int))
    }

    /// The vector mirrored about `axis`: `self - 2 * dot(self, axis) * axis`.
    pub open spec fn reflected_spec(self, axis: Vector) -> Vector {
        let d: Scalar = self.dot_spec(axis);
        Vector {
            x: Vector::mirror_coordinate(self.x, d, axis.x),
            y: Vector::mirror_coordinate(self.y, d, axis.y),
            z: Vector::mirror_coordinate(self.z, d, axis.z),
        }
    }

    /// One entry on the diagonal of the rotation matrix about a unit axis
    /// with coordinate `a`: `cos + a * a * (1 - cos)`.
    pub open spec fn rotation_diagonal(a: Scalar, cos: Scalar) -> Scalar {
        cos.plus(a.times(a).times(Scalar::one_spec().minus(cos)))
    }

    /// The even part of an entry off the diagonal, for the axis's
    /// coordinates `a` and `b`: `a * b * (1 - cos)`.
    pub open spec fn rotation_even(a: Scalar, b: Scalar, cos: Scalar) -> Scalar {
        a.times(b).times(Scalar::one_spec().minus(cos))
    }

    /// The rows of the matrix that turns by the angle with sine `sin` and
    /// cosine `cos` about the unit vector `axis`.
    pub open spec fn rotation_rows(axis: Vector, sin: Scalar, cos: Scalar) -> (
        Vector,
        Vector,
        Vector,
    ) {
        (
            Vector {
                x: Vector::rotation_diagonal(axis.x, cos),
                y: Vector::rotation_even(axis.x, axis.y, cos).minus(axis.z.times(sin)),
                z: Vector::rotation_even(axis.x, axis.z, cos).plus(axis.y.times(sin)),
            },
            Vector {
                x: Vector::rotation_even(axis.y, axis.x, cos).plus(axis.z.times(sin)),
                y: Vector::rotation_diagonal(axis.y, cos),
                z: Vector::rotation_even(axis.y, axis.z, cos).minus(axis.x.times(sin)),
            },
            Vector {
                x: Vector::rotation_even(axis.z, axis.x, cos).minus(axis.y.times(sin)),
                y: Vector::rotation_even(axis.z, axis.y, cos).plus(axis.x.times(sin)),
                z: Vector::rotation_diagonal(axis.z, cos),
            },
        )
    }

    /// The vector turned about `axis`, scaled to length one first, by the
    /// angle with sine `sin` and cosine `cos`: its dot products with the
    /// rows of the rotation matrix.
    pub open spec fn rotated_spec(self, sin: Scalar, cos: Scalar, axis: Vector) -> Vector {
        let rows = Vector::rotation_rows(axis.normalized_or_zero_spec(), sin, cos);
        Vector { x: self.dot_spec(rows.0), y: self.dot_spec(rows.1), z: self.dot_spec(rows.2) }
    }

    /// The squared length, rounded toward zero once and clamped.
    pub open spec fn length_squared_spec(self) -> Scalar {
        Scalar::of(quot(self.norm_sq_exact(), SCALE as int))
    }

    /// The length in steps, as it is: the square root of the exact squared
    /// length, rounded down.
    pub open spec fn length_exact(self) -> int {
        floor_sqrt(self.norm_sq_exact() as nat) as int
    }

    /// The length: the square root of the exact squared length, rounded
    /// down to a whole number of steps and clamped.
    pub open spec fn length_spec(self) -> Scalar {
        Scalar::of(self.length_exact())
    }

    /// No coordinate is larger than `bound`.
    pub open spec fn is_within(self, bound: int) -> bool {
        abs(self.x@) <= bound && abs(self.y@) <= bound && abs(self.z@) <= bound
    }

    /// By how much a vector is magnified before its direction is taken:
    /// a vector with no coordinate above `SHORT` is too short for its
    /// length in whole steps to tell its direction, and is taken
    /// `MAGNIFIER` times as large.
    pub open spec fn magnifier(self) -> int {
        if self.is_within(SHORT as int) {
            MAGNIFIER as int
        } else {
            1
        }
    }

    /// The vector times its magnifier: a vector of the same direction that
    /// is at least one unit long, unless it is the zero vector.
    pub open spec fn magnified(self) -> Vector {
        Vector {
            x: Scalar::of(self.x@ * self.magnifier()),
            y: Scalar::of(self.y@ * self.magnifier()),
            z: Scalar::of(self.z@ * self.magnifier()),
        }
    }

    /// The vector divided by its exact length, each coordinate rounded
    /// toward zero.
    pub open spec fn direction(self) -> Vector {
        Vector {
            x: Scalar::of(quot(self.x@ * SCALE, self.length_exact())),
            y: Scalar::of(quot(self.y@ * SCALE, self.length_exact())),
            z: Scalar::of(quot(self.z@ * SCALE, self.length_exact())),
        }
    }

    /// The vector scaled to length one: the direction of the magnified
    /// vector. There is none where the length is less than one step.
    pub open spec fn normalized_spec(self) -> Option<Vector> {
        if self.length_spec()@ < Scalar::epsilon_spec()@ {
            None
        } else {
            Some(self.magnified().direction())
        }
    }

    /// The vector scaled to length one, or the zero vector where there is
    /// no such vector.
    pub open spec fn normalized_or_zero_spec(self) -> Vector {
        match self.normalized_spec() {
            Some(v) => v,
            None => Vector::zero_spec(),
        }
    }

    /// The vector is too short to stand for a direction: its exact squared
    /// length is at most `NEGLIGIBLE` squared steps.
    pub open spec fn is_zero_approx_spec(&self) -> bool {
        self.norm_sq_exact() <= NEGLIGIBLE
    }

    /// Only the zero vector has no direction, and it is too short to
    /// stand for one.
    pub proof fn lemma_no_direction_iff_zero(self)
        ensures
            self.normalized_spec() is None <==> self == Vector::zero_spec(),
            self.length_exact() < 1 <==> self == Vector::zero_spec(),
            self.norm_sq_exact() >= 0,
            self == Vector::zero_spec() ==> self.is_zero_approx_spec(),
            !self.is_zero_approx_spec() ==> self.normalized_spec() is Some,
    {
        let n: int = self.norm_sq_exact();
        assert(n >= 0 && (n == 0 <==> (self.x@ == 0 && self.y@ == 0 && self.z@ == 0)))
            by (nonlinear_arith)
            requires
                n == self.x@ * self.x@ + self.y@ * self.y@ + self.z@ * self.z@,
        ;
        lemma_floor_sqrt_is_floor_sqrt(n as nat);
    }

    /// One coordinate `v` of a vector of the exact length `len`, divided
    /// by the length: it lies between minus one and one, and it is
    /// `v / len` rounded toward zero.
    pub proof fn lemma_unit_coordinate(v: int, len: int)
        requires
            len >= 1,
            abs(v) <= len,
        ensures
            abs(quot(v * SCALE, len)) <= SCALE,
            Scalar::of(quot(v * SCALE, len))@ == quot(v * SCALE, len),
            abs(quot(v * SCALE, len)) * len <= abs(v) * SCALE < abs(quot(v * SCALE, len)) * len
                + len,
            v >= 0 ==> quot(v * SCALE, len) >= 0,
            v <= 0 ==> quot(v * SCALE, len) <= 0,
    {
        let q: int = quot(v * SCALE, len);
        lemma_quot_bounds(v * SCALE, len);
        assert(abs(v * SCALE) == abs(v) * SCALE);
        assert(abs(q) <= SCALE) by (nonlinear_arith)
            requires
                abs(q) * len <= abs(v) * SCALE,
                abs(v) <= len,
                len >= 1,
                abs(q) >= 0,
        ;
    }

    /// No coordinate of a vector is longer than the vector.
    pub proof fn lemma_coordinates_within_length(self)
        ensures
            abs(self.x@) <= self.length_exact(),
            abs(self.y@) <= self.length_exact(),
            abs(self.z@) <= self.length_exact(),
            self.norm_sq_exact() >= 0,
    {
        let n: int = self.norm_sq_exact();
        let (x, y, z) = (abs(self.x@), abs(self.y@), abs(self.z@));
        assert(n == x * x + y * y + z * z && x * x >= 0 && y * y >= 0 && z * z >= 0)
            by (nonlinear_arith)
            requires
                n == self.x@ * self.x@ + self.y@ * self.y@ + self.z@ * self.z@,
                x == abs(self.x@),
                y == abs(self.y@),
                z == abs(self.z@),
        ;
        lemma_floor_sqrt_is_floor_sqrt(n as nat);
        let r: int = floor_sqrt(n as nat) as int;
        if x > r {
            lemma_square_le(r + 1, x);
        }
        if y > r {
            lemma_square_le(r + 1, y);
        }
        if z > r {
            lemma_square_le(r + 1, z);
        }
    }

    /// The magnified vector is the vector times its magnifier, exactly;
    /// unless the vector is the zero vector it is at least one unit long;
    /// and its length is the magnifier times the length of the vector, but
    /// for the part of a step that the latter was rounded down by.
    pub proof fn lemma_magnified(self)
        ensures
            self.magnifier() == 1 || self.magnifier() == MAGNIFIER,
            self.magnified().x@ == self.x@ * self.magnifier(),
            self.magnified().y@ == self.y@ * self.magnifier(),
            self.magnified().z@ == self.z@ * self.magnifier(),
            self.magnified().norm_sq_exact() == (self.magnifier() * self.magnifier())
                * self.norm_sq_exact(),
            self != Vector::zero_spec() ==> self.magnified().length_exact() >= SCALE
                && self.magnified() != Vector::zero_spec(),
            self.magnifier() * self.length_exact() <= self.magnified().length_exact()
                < self.magnifier() * (self.length_exact() + 1),
    {
        let m: int = self.magnifier();
        let w: Vector = self.magnified();
        let (x, y, z) = (self.x@, self.y@, self.z@);
        if m != 1 {
            assert(x * m == x * 0x1_0000_0000 && y * m == y * 0x1_0000_0000 && z * m == z
                * 0x1_0000_0000) by (nonlinear_arith)
                requires
                    m == 0x1_0000_0000,
            ;
        } else {
            assert(x * m == x && y * m == y && z * m == z) by (nonlinear_arith)
                requires
                    m == 1,
            ;
        }
        let (s, t) = (self.norm_sq_exact(), w.norm_sq_exact());
        assert(t == (m * m) * s) by (nonlinear_arith)
            requires
                t == (x * m) * (x * m) + (y * m) * (y * m) + (z * m) * (z * m),
                s == x * x + y * y + z * z,
        ;
        self.lemma_coordinates_within_length();
        w.lemma_coordinates_within_length();
        self.lemma_no_direction_iff_zero();
        lemma_floor_sqrt_is_floor_sqrt(s as nat);
        lemma_floor_sqrt_is_floor_sqrt(t as nat);
        let (l, f) = (self.length_exact(), w.length_exact());
        assert((m * l) * (m * l) == (m * m) * (l * l) && (m * (l + 1)) * (m * (l + 1)) == (m * m)
            * ((l + 1) * (l + 1))) by (nonlinear_arith);
        assert((m * m) * (l * l) <= (m * m) * s < (m * m) * ((l + 1) * (l + 1)))
            by (nonlinear_arith)
            requires
                l * l <= s < (l + 1) * (l + 1),
                m >= 1,
        ;
        assert(m * l >= 0 && m * (l + 1) >= 0) by (nonlinear_arith)
            requires
                m >= 1,
                l >= 0,
        ;
        if m * l > f {
            lemma_square_le(f + 1, m * l);
        }
        if f >= m * (l + 1) {
            lemma_square_le(m * (l + 1), f);
        }
    }

    /// The direction of a vector has length one, but for the rounding: no
    /// coordinate is larger than one, it comes out at most four steps too
    /// short, and too long by less than one part in the length of the
    /// vector.
    pub proof fn lemma_direction_length(self)
        requires
            self != Vector::zero_spec(),
        ensures
            self.direction().is_within(SCALE as int),
            self.direction().length_exact() >= SCALE - 4,
            self.length_exact() * (self.direction().length_exact() - SCALE) < SCALE,
            self.length_exact() >= SCALE ==> self.direction().length_exact() <= SCALE,
    {
        self.lemma_no_direction_iff_zero();
        self.lemma_coordinates_within_length();
        let s: int = self.norm_sq_exact();
        let l: int = self.length_exact();
        let k: int = SCALE as int;
        lemma_floor_sqrt_is_floor_sqrt(s as nat);
        let unit: Vector = self.direction();
        Vector::lemma_unit_coordinate(self.x@, l);
        Vector::lemma_unit_coordinate(self.y@, l);
        Vector::lemma_unit_coordinate(self.z@, l);
        let (a, b, c) = (abs(self.x@), abs(self.y@), abs(self.z@));
        let (p, q, r) = (abs(unit.x@), abs(unit.y@), abs(unit.z@));
        let n: int = unit.norm_sq_exact();
        assert(n == p * p + q * q + r * r && s == a * a + b * b + c * c) by (nonlinear_arith)
            requires
                n == unit.x@ * unit.x@ + unit.y@ * unit.y@ + unit.z@ * unit.z@,
                s == self.x@ * self.x@ + self.y@ * self.y@ + self.z@ * self.z@,
                p == abs(unit.x@),
                q == abs(unit.y@),
                r == abs(unit.z@),
                a == abs(self.x@),
                b == abs(self.y@),
                c == abs(self.z@),
        ;
        // from below: each coordinate lost less than one step
        Vector::lemma_scaled_squares(a, p, l, k);
        Vector::lemma_scaled_squares(b, q, l, k);
        Vector::lemma_scaled_squares(c, r, l, k);
        let grown: int = (p + 1) * (p + 1) + (q + 1) * (q + 1) + (r + 1) * (r + 1);
        let (k2, l2) = (k * k, l * l);
        assert(s * k2 == (a * a) * k2 + (b * b) * k2 + (c * c) * k2) by (nonlinear_arith)
            requires
                s == a * a + b * b + c * c,
        ;
        assert(grown * l2 == ((p + 1) * (p + 1)) * l2 + ((q + 1) * (q + 1)) * l2 + ((r + 1) * (r
            + 1)) * l2) by (nonlinear_arith)
            requires
                grown == (p + 1) * (p + 1) + (q + 1) * (q + 1) + (r + 1) * (r + 1),
        ;
        assert(l2 * k2 <= s * k2 && l2 >= 1 && k2 >= 1) by (nonlinear_arith)
            requires
                l2 <= s,
                k2 == k * k,
                l2 == l * l,
                l >= 1,
                k >= 1,
        ;
        assert(k2 < grown) by (nonlinear_arith)
            requires
                l2 * k2 < grown * l2,
                l2 >= 1,
        ;
        assert(grown == n + 2 * (p + q + r) + 3) by (nonlinear_arith)
            requires
                grown == (p + 1) * (p + 1) + (q + 1) * (q + 1) + (r + 1) * (r + 1),
                n == p * p + q * q + r * r,
        ;
        assert(n <= 3 * (k * k)) by (nonlinear_arith)
            requires
                n == p * p + q * q + r * r,
                0 <= p <= k,
                0 <= q <= k,
                0 <= r <= k,
        ;
        lemma_floor_sqrt_is_floor_sqrt(n as nat);
        let root: int = floor_sqrt(n as nat) as int;
        if root < k - 4 {
            lemma_square_le(root + 1, k - 4);
        }
        // from above: no coordinate gained anything
        let (root2, next2) = (root * root, (l + 1) * (l + 1));
        assert(n * l2 == (p * p) * l2 + (q * q) * l2 + (r * r) * l2) by (nonlinear_arith)
            requires
                n == p * p + q * q + r * r,
        ;
        assert(root2 * l2 <= n * l2) by (nonlinear_arith)
            requires
                root2 <= n,
                l2 >= 1,
        ;
        assert(s * k2 < next2 * k2) by (nonlinear_arith)
            requires
                s < next2,
                k2 >= 1,
        ;
        assert((l * root) * (l * root) == root2 * l2) by (nonlinear_arith)
            requires
                root2 == root * root,
                l2 == l * l,
        ;
        assert((k * (l + 1)) * (k * (l + 1)) == next2 * k2) by (nonlinear_arith)
            requires
                next2 == (l + 1) * (l + 1),
                k2 == k * k,
        ;
        assert((l * root) * (l * root) < (k * (l + 1)) * (k * (l + 1)));
        if l * root >= k * (l + 1) {
            assert(k * (l + 1) >= 0) by (nonlinear_arith)
                requires
                    k >= 1,
                    l >= 1,
            ;
            lemma_square_le(k * (l + 1), l * root);
        }
        assert(l * (root - k) == l * root - l * k && k * (l + 1) == k * l + k && l * k == k * l)
            by (nonlinear_arith);
        if l >= k && root > k {
            assert(l * (root - k) >= k) by (nonlinear_arith)
                requires
                    l >= k,
                    root - k >= 1,
                    k >= 1,
            ;
        }
    }

    /// A vector that is scaled to length one has length one, but for the
    /// rounding: whatever its length was, no coordinate comes out larger
    /// than one, and its length comes out at most four steps short of one
    /// and never above.
    pub proof fn lemma_normalized_length(self)
        requires
            self != Vector::zero_spec(),
        ensures
            self.normalized_spec() is Some,
            self.normalized_spec()->0.is_within(SCALE as int),
            SCALE - 4 <= self.normalized_spec()->0.length_exact() <= SCALE,
            SCALE - 4 <= self.normalized_spec()->0.length_spec()@ <= SCALE,
    {
        self.lemma_no_direction_iff_zero();
        self.lemma_magnified();
        self.magnified().lemma_direction_length();
    }

    /// `w` is `v` but for what rounding toward zero took away: it has the
    /// sign of `v`, is not larger in size, and is smaller by less than
    /// `slack` billionths of a step.
    pub open spec fn is_rounded(w: Scalar, v: Scalar, slack: int) -> bool {
        &&& v@ >= 0 ==> w@ >= 0
        &&& v@ <= 0 ==> w@ <= 0
        &&& abs(w@) <= abs(v@)
        &&& (abs(v@) - abs(w@)) * SCALE < slack
    }

    /// One coordinate of size `a`, magnified `m` times, divided by the
    /// magnified length `f` into the size `q`, and multiplied by the
    /// length `l` into the size `w`.
    proof fn lemma_rescaled_sizes(a: int, q: int, w: int, m: int, f: int, l: int, k: int)
        requires
            0 <= a,
            0 <= q <= k,
            0 <= w,
            1 <= m,
            1 <= k,
            0 <= l,
            m * l <= f < m * (l + 1),
            q * f <= (a * m) * k < q * f + f,
            w * k <= q * l < w * k + k,
        ensures
            w <= a,
            (a - w) * k < l + 2 * k + 1,
    {
        // no larger
        assert(q * (m * l) <= q * f) by (nonlinear_arith)
            requires
                m * l <= f,
                q >= 0,
        ;
        assert(q * (m * l) == m * (q * l) && (a * m) * k == m * (a * k)) by (nonlinear_arith);
        assert(q * l <= a * k) by (nonlinear_arith)
            requires
                m * (q * l) <= m * (a * k),
                m >= 1,
        ;
        assert(w <= a) by (nonlinear_arith)
            requires
                w * k <= a * k,
                k >= 1,
        ;
        // smaller by little
        assert(q * f + f == (q + 1) * f) by (nonlinear_arith);
        assert((q + 1) * f < (q + 1) * (m * (l + 1))) by (nonlinear_arith)
            requires
                f < m * (l + 1),
                q >= 0,
        ;
        assert((q + 1) * (m * (l + 1)) == m * ((q + 1) * (l + 1))) by (nonlinear_arith);
        assert(a * k < (q + 1) * (l + 1)) by (nonlinear_arith)
            requires
                m * (a * k) < m * ((q + 1) * (l + 1)),
                m >= 1,
        ;
        assert((q + 1) * (l + 1) == q * l + q + l + 1) by (nonlinear_arith);
        assert((a - w) * k == a * k - w * k) by (nonlinear_arith);
    }

    /// One coordinate `v` of a vector, scaled to length one and multiplied
    /// by the length `len` of the vector again.
    proof fn lemma_rescaled_coordinate(self, v: Scalar)
        requires
            self != Vector::zero_spec(),
            self.length_exact() <= i64::MAX,
            abs(v@) <= self.length_exact(),
        ensures
            Vector::is_rounded(
                Scalar::of(
                    quot(v@ * self.magnifier() * SCALE, self.magnified().length_exact()),
                ).times(self.length_spec()),
                v,
                self.length_exact() + 2 * SCALE + 1,
            ),
    {
        self.lemma_magnified();
        self.lemma_no_direction_iff_zero();
        let (m, f, l, k) = (
            self.magnifier(),
            self.magnified().length_exact(),
            self.length_exact(),
            SCALE as int,
        );
        assert(abs(v@ * m) == abs(v@) * m && abs(v@) * m <= l * m && l * m == m * l)
            by (nonlinear_arith)
            requires
                m >= 1,
                abs(v@) <= l,
        ;
        Vector::lemma_unit_coordinate(v@ * m, f);
        let u: int = quot(v@ * m * k, f);
        let w: int = quot(u * l, k);
        lemma_quot_bounds(u * l, k);
        assert(abs(u * l) == abs(u) * l) by (nonlinear_arith)
            requires
                l >= 1,
        ;
        Vector::lemma_rescaled_sizes(abs(v@), abs(u), abs(w), m, f, l, k);
        assert(v@ >= 0 ==> v@ * m >= 0) by (nonlinear_arith)
            requires
                m >= 1,
        ;
        assert(v@ <= 0 ==> v@ * m <= 0) by (nonlinear_arith)
            requires
                m >= 1,
        ;
        assert(u >= 0 ==> u * l >= 0) by (nonlinear_arith)
            requires
                l >= 1,
        ;
        assert(u <= 0 ==> u * l <= 0) by (nonlinear_arith)
            requires
                l >= 1,
        ;
    }

    /// A vector is its direction times its length, but for the rounding:
    /// each coordinate comes back with its sign, no larger, and smaller by
    /// less than two steps and one part in a billion of the length. This
    /// is said of the vectors whose length fits the range.
    pub proof fn lemma_normalized_times_length(self)
        requires
            self != Vector::zero_spec(),
            self.length_exact() <= i64::MAX,
        ensures
            self.normalized_spec() is Some,
            Vector::is_rounded(
                self.normalized_spec()->0.times(self.length_spec()).x,
                self.x,
                self.length_spec()@ + 2 * SCALE + 1,
            ),
            Vector::is_rounded(
                self.normalized_spec()->0.times(self.length_spec()).y,
                self.y,
                self.length_spec()@ + 2 * SCALE + 1,
            ),
            Vector::is_rounded(
                self.normalized_spec()->0.times(self.length_spec()).z,
                self.z,
                self.length_spec()@ + 2 * SCALE + 1,
            ),
    {
        self.lemma_no_direction_iff_zero();
        self.lemma_coordinates_within_length();
        self.lemma_magnified();
        self.lemma_rescaled_coordinate(self.x);
        self.lemma_rescaled_coordinate(self.y);
        self.lemma_rescaled_coordinate(self.z);
    }

    /// For a coordinate of size `a` that was scaled down to the size `p`
    /// by the length `l`, with `k` steps to the unit.
    proof fn lemma_scaled_squares(a: int, p: int, l: int, k: int)
        requires
            0 <= a,
            0 <= p,
            1 <= l,
            1 <= k,
            p * l <= a * k < p * l + l,
        ensures
            (p * p) * (l * l) <= (a * a) * (k * k),
            (a * a) * (k * k) < ((p + 1) * (p + 1)) * (l * l),
    {
        assert(p * l >= 0 && a * k >= 0 && p * l + l == (p + 1) * l) by (nonlinear_arith)
            requires
                0 <= a,
                0 <= p,
                1 <= l,
                1 <= k,
        ;
        lemma_square_le(p * l, a * k);
        lemma_square_lt(a * k, (p + 1) * l);
        assert((p * l) * (p * l) == (p * p) * (l * l)) by (nonlinear_arith);
        assert((a * k) * (a * k) == (a * a) * (k * k)) by (nonlinear_arith);
        assert(((p + 1) * l) * ((p + 1) * l) == ((p + 1) * (p + 1)) * (l * l)) by (nonlinear_arith);
    }

    /// The dot products of a vector with the rows of a matrix that has
    /// `c` along its diagonal and zeros elsewhere are its coordinates
    /// times `c`.
    proof fn lemma_diagonal_rows(self, c: Scalar)
        ensures
            self.dot_spec(Vector { x: c, y: Scalar::zero_spec(), z: Scalar::zero_spec() })
                == self.x.times(c),
            self.dot_spec(Vector { x: Scalar::zero_spec(), y: c, z: Scalar::zero_spec() })
                == self.y.times(c),
            self.dot_spec(Vector { x: Scalar::zero_spec(), y: Scalar::zero_spec(), z: c })
                == self.z.times(c),
    {
        let z: int = Scalar::zero_spec()@;
        assert(self.x@ * z == 0 && self.y@ * z == 0 && self.z@ * z == 0) by (nonlinear_arith)
            requires
                z == 0,
        ;
    }

    /// A turn by no angle, about whatever axis, leaves the vector as it is.
    pub proof fn lemma_rotated_by_nothing(self, axis: Vector)
        ensures
            self.rotated_spec(Scalar::zero_spec(), Scalar::one_spec(), axis) == self,
    {
        let unit: Vector = axis.normalized_or_zero_spec();
        let (zero, one) = (Scalar::zero_spec(), Scalar::one_spec());
        assert(one.minus(one) == zero);
        unit.x.times(unit.x).lemma_times_zero();
        unit.x.times(unit.y).lemma_times_zero();
        unit.x.times(unit.z).lemma_times_zero();
        unit.y.times(unit.x).lemma_times_zero();
        unit.y.times(unit.y).lemma_times_zero();
        unit.y.times(unit.z).lemma_times_zero();
        unit.z.times(unit.x).lemma_times_zero();
        unit.z.times(unit.y).lemma_times_zero();
        unit.z.times(unit.z).lemma_times_zero();
        unit.x.lemma_times_zero();
        unit.y.lemma_times_zero();
        unit.z.lemma_times_zero();
        assert(one.plus(zero) == one && zero.plus(zero) == zero && zero.minus(zero) == zero);
        self.lemma_diagonal_rows(one);
        self.x.lemma_times_one();
        self.y.lemma_times_one();
        self.z.lemma_times_one();
    }

    /// A turn about the zero vector, which is no axis, is no turn: each
    /// coordinate comes out times the cosine.
    pub proof fn lemma_rotated_about_nothing(self, sin: Scalar, cos: Scalar)
        ensures
            self.rotated_spec(sin, cos, Vector::zero_spec()) == self.times(cos),
    {
        let zero: Scalar = Scalar::zero_spec();
        Vector::zero_spec().lemma_no_direction_iff_zero();
        assert(Vector::zero_spec().normalized_or_zero_spec() == Vector::zero_spec());
        zero.lemma_times_zero();
        sin.lemma_times_zero();
        Scalar::one_spec().minus(cos).lemma_times_zero();
        assert(cos.plus(zero) == cos && zero.plus(zero) == zero && zero.minus(zero) == zero);
        self.lemma_diagonal_rows(cos);
    }

    /// The vector as text: its coordinates in round brackets.
    pub open spec fn text(&self) -> Seq<char> {
        seq!['('] + self.x.text() + seq![',', ' '] + self.y.text() + seq![',', ' ']
            + self.z.text().push(')')
    }

    /// The vector as text.
    pub fn to_text(&self) -> (r: String)
        ensures
            r@ == self.text(),
    {
        proof {
            reveal_strlit("(");
            reveal_strlit(", ");
            reveal_strlit(")");
        }
        let mut r: String = String::from_str("(");
        let x: String = self.x.to_text();
        r.append(x.as_str());
        r.append(", ");
        let y: String = self.y.to_text();
        r.append(y.as_str());
        r.append(", ");
        let z: String = self.z.to_text();
        r.append(z.as_str());
        r.append(")");
        assert(r@ =~= self.text());
        r
    }

    /// The vector with the three coordinates.
    pub fn from(x: Scalar, y: Scalar, z: Scalar) -> (r: Vector)
        ensures
            r == (Vector { x, y, z }),
    {
        Vector { x, y, z }
    }

    /// The zero vector.
    #[verifier::when_used_as_spec(zero_spec)]
    pub fn zero() -> (r: Vector)
        ensures
            r == Vector::zero_spec(),
    {
        Vector { x: Scalar::zero(), y: Scalar::zero(), z: Scalar::zero() }
    }

    /// The dot product.
    #[verifier::when_used_as_spec(dot_spec)]
    pub fn dot(self, other: Vector) -> (r: Scalar)
        ensures
            r == self.dot_spec(other),
    {
        let a: i128 = wide_mul(self.x.raw, other.x.raw);
        let b: i128 = wide_mul(self.y.raw, other.y.raw);
        let c: i128 = wide_mul(self.z.raw, other.z.raw);
        Scalar { raw: sum3_over_scale(a, b, c) }
    }

    /// The cross product.
    #[verifier::when_used_as_spec(cross_spec)]
    pub fn cross(self, other: Vector) -> (r: Vector)
        ensures
            r == self.cross_spec(other),
    {
        let x: i128 = wide_mul(self.y.raw, other.z.raw) - wide_mul(self.z.raw, other.y.raw);
        let y: i128 = wide_mul(self.z.raw, other.x.raw) - wide_mul(self.x.raw, other.z.raw);
        let z: i128 = wide_mul(self.x.raw, other.y.raw) - wide_mul(self.y.raw, other.x.raw);
        Vector {
            x: Scalar { raw: clamp_raw(wide_quot(x, SCALE as i128)) },
            y: Scalar { raw: clamp_raw(wide_quot(y, SCALE as i128)) },
            z: Scalar { raw: clamp_raw(wide_quot(z, SCALE as i128)) },
        }
    }

    fn mirrored(v: Scalar, d: Scalar, a: Scalar) -> (r: Scalar)
        ensures
            r == Vector::mirror_coordinate(v, d, a),
    {
        let step: i128 = wide_quot(wide_mul(d.raw, a.raw), SCALE as i128);
        Scalar { raw: clamp_raw(v.raw as i128 - 2 * step) }
    }

    /// The vector mirrored about `axis`, which the caller keeps at length one.
    #[verifier::when_used_as_spec(reflected_spec)]
    pub fn reflected(self, axis: Vector) -> (r: Vector)
        ensures
            r == self.reflected_spec(axis),
    {
        let d: Scalar = self.dot(axis);
        Vector {
            x: Vector::mirrored(self.x, d, axis.x),
            y: Vector::mirrored(self.y, d, axis.y),
            z: Vector::mirrored(self.z, d, axis.z),
        }
    }

    /// The vector turned about `axis` by an angle that is given by its
    /// sine and cosine. The axis is scaled to length one first; an axis too
    /// short for that counts as the zero vector, which leaves `self` times
    /// the cosine.
    #[verifier::when_used_as_spec(rotated_spec)]
    pub fn rotated(self, sin: Scalar, cos: Scalar, axis: Vector) -> (r: Vector)
        ensures
            r == self.rotated_spec(sin, cos, axis),
    {
        let axis: Vector = axis.normalized_or_zero();
        let rest: Scalar = Scalar::one() - cos;
        let xx: Scalar = cos + axis.x * axis.x * rest;
        let yy: Scalar = cos + axis.y * axis.y * rest;
        let zz: Scalar = cos + axis.z * axis.z * rest;
        let xy: Scalar = axis.x * axis.y * rest - axis.z * sin;
        let xz: Scalar = axis.x * axis.z * rest + axis.y * sin;
        let yx: Scalar = axis.y * axis.x * rest + axis.z * sin;
        let yz: Scalar = axis.y * axis.z * rest - axis.x * sin;
        let zx: Scalar = axis.z * axis.x * rest - axis.y * sin;
        let zy: Scalar = axis.z * axis.y * rest + axis.x * sin;
        Vector {
            x: self.dot(Vector::from(xx, xy, xz)),
            y: self.dot(Vector::from(yx, yy, yz)),
            z: self.dot(Vector::from(zx, zy, zz)),
        }
    }

    fn norm_sq(self) -> (n: u128)
        ensures
            n == self.norm_sq_exact(),
    {
        let a: i128 = wide_mul(self.x.raw, self.x.raw);
        let b: i128 = wide_mul(self.y.raw, self.y.raw);
        let c: i128 = wide_mul(self.z.raw, self.z.raw);
        assert(a >= 0 && b >= 0 && c >= 0) by (nonlinear_arith)
            requires
                a == self.x.raw * self.x.raw,
                b == self.y.raw * self.y.raw,
                c == self.z.raw * self.z.raw,
        ;
        a as u128 + b as u128 + c as u128
    }

    /// The squared length.
    #[verifier::when_used_as_spec(length_squared_spec)]
    pub fn length_squared(self) -> (r: Scalar)
        ensures
            r == self.length_squared_spec(),
    {
        let q: u128 = self.norm_sq() / (SCALE as u128);
        if q > i64::MAX as u128 {
            Scalar { raw: i64::MAX }
        } else {
            Scalar { raw: q as i64 }
        }
    }

    /// The length.
    #[verifier::when_used_as_spec(length_spec)]
    pub fn length(self) -> (r: Scalar)
        ensures
            r == self.length_spec(),
    {
        let root: u64 = isqrt(self.norm_sq());
        if root > i64::MAX as u64 {
            Scalar { raw: i64::MAX }
        } else {
            Scalar { raw: root as i64 }
        }
    }

    /// The vector times its magnifier.
    fn magnify(self) -> (r: Vector)
        ensures
            r == self.magnified(),
    {
        proof {
            self.lemma_magnified();
        }
        if Vector::is_small(self.x) && Vector::is_small(self.y) && Vector::is_small(self.z) {
            Vector {
                x: Scalar { raw: self.x.raw * MAGNIFIER },
                y: Scalar { raw: self.y.raw * MAGNIFIER },
                z: Scalar { raw: self.z.raw * MAGNIFIER },
            }
        } else {
            self
        }
    }

    /// Whether a coordinate is no larger than `SHORT`.
    fn is_small(c: Scalar) -> (r: bool)
        ensures
            r == (abs(c@) <= SHORT),
    {
        -SHORT <= c.raw && c.raw <= SHORT
    }

    /// One coordinate of a vector of the exact length `len`, divided by
    /// that length.
    fn unit_coordinate(c: Scalar, len: u64) -> (r: Scalar)
        requires
            len >= 1,
        ensures
            r == Scalar::of(quot(c@ * SCALE, len as int)),
    {
        Scalar { raw: clamp_raw(wide_quot(wide_mul(c.raw, SCALE), len as i128)) }
    }

    /// The vector scaled to length one, unless it is the zero vector,
    /// which has no direction.
    #[verifier::when_used_as_spec(normalized_spec)]
    pub fn normalized(self) -> (r: Option<Vector>)
        ensures
            r == self.normalized_spec(),
            r is None <==> self == Vector::zero_spec(),
            r matches Some(unit) ==> unit.is_within(SCALE as int) && SCALE - 4
                <= unit.length_exact() <= SCALE,
    {
        proof {
            self.lemma_no_direction_iff_zero();
            self.lemma_magnified();
            if self != Vector::zero_spec() {
                self.lemma_normalized_length();
            }
        }
        let length: Scalar = self.length();
        if length.raw < Scalar::epsilon().raw {
            return None;
        }
        let large: Vector = self.magnify();
        let fine: u64 = isqrt(large.norm_sq());
        Some(
            Vector {
                x: Vector::unit_coordinate(large.x, fine),
                y: Vector::unit_coordinate(large.y, fine),
                z: Vector::unit_coordinate(large.z, fine),
            },
        )
    }

    /// The vector scaled to length one, or the zero vector where it is too
    /// short to have a direction.
    #[verifier::when_used_as_spec(normalized_or_zero_spec)]
    pub fn normalized_or_zero(self) -> (r: Vector)
        ensures
            r == self.normalized_or_zero_spec(),
    {
        match self.normalized() {
            Some(v) => v,
            None => Vector::zero(),
        }
    }

    /// Whether the vector is too short to stand for a direction.
    #[verifier::when_used_as_spec(is_zero_approx_spec)]
    pub fn is_zero_approx(&self) -> (r: bool)
        ensures
            r == self.is_zero_approx_spec(),
    {
        self.norm_sq() <= NEGLIGIBLE as u128
    }
}

impl vstd::std_specs::ops::AddSpecImpl for Vector {
    open spec fn obeys_add_spec() -> bool {
        true
    }

    open spec fn add_req(self, rhs: Vector) -> bool {
        true
    }

    open spec fn add_spec(self, rhs: Vector) -> Vector {
        self.plus(rhs)
    }
}

impl core::ops::Add for Vector {
    type Output = Vector;

    fn add(self, rhs: Vector) -> (r: Vector) {
        Vector { x: self.x + rhs.x, y: self.y + rhs.y, z: self.z + rhs.z }
    }
}

impl vstd::std_specs::ops::SubSpecImpl for Vector {
    open spec fn obeys_sub_spec() -> bool {
        true
    }

    open spec fn sub_req(self, rhs: Vector) -> bool {
        true
    }

    open spec fn sub_spec(self, rhs: Vector) -> Vector {
        self.minus(rhs)
    }
}

impl core::ops::Sub for Vector {
    type Output = Vector;

    fn sub(self, rhs: Vector) -> (r: Vector) {
        Vector { x: self.x - rhs.x, y: self.y - rhs.y, z: self.z - rhs.z }
    }
}

impl vstd::std_specs::ops::NegSpecImpl for Vector {
    open spec fn obeys_neg_spec() -> bool {
        true
    }

    open spec fn neg_req(self) -> bool {
        true
    }

    open spec fn neg_spec(self) -> Vector {
        self.negated()
    }
}

impl core::ops::Neg for Vector {
    type Output = Vector;

    fn neg(self) -> (r: Vector) {
        Vector { x: self.x.neg(), y: self.y.neg(), z: self.z.neg() }
    }
}

impl vstd::std_specs::ops::MulSpecImpl<Scalar> for Vector {
    open spec fn obeys_mul_spec() -> bool {
        true
    }

    open spec fn mul_req(self, rhs: Scalar) -> bool {
        true
    }

    open spec fn mul_spec(self, rhs: Scalar) -> Vector {
        self.times(rhs)
    }
}

impl core::ops::Mul<Scalar> for Vector {
    type Output = Vector;

    fn mul(self, rhs: Scalar) -> (r: Vector) {
        Vector { x: self.x * rhs, y: self.y * rhs, z: self.z * rhs }
    }
}

impl vstd::std_specs::ops::DivSpecImpl<Scalar> for Vector {
    open spec fn obeys_div_spec() -> bool {
        true
    }

    /// Nothing is divided by zero.
    open spec fn div_req(self, rhs: Scalar) -> bool {
        rhs@ != 0
    }

    open spec fn div_spec(self, rhs: Scalar) -> Vector {
        self.over(rhs)
    }
}

impl core::ops::Div<Scalar> for Vector {
    type Output = Vector;

    fn div(self, rhs: Scalar) -> (r: Vector) {
        Vector { x: self.x / rhs, y: self.y / rhs, z: self.z / rhs }
    }
}

} // verus!
