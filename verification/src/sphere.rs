//! Spheres.

use crate::material::Material;
use crate::ray::Ray;
use crate::reflection::is_nearly_unit;
use crate::scalar::{
    abs, floor_sqrt, lemma_floor_sqrt_is_floor_sqrt, lemma_quot_bounds, lemma_quot_keeps_order,
    lemma_square_le, quot, Scalar, SCALE,
};
use crate::surface::{in_reach, is_in_reach, RayIntersectionResult, Surface};
use crate::vector::Vector;
use vstd::prelude::*;

verus! {

/// The largest radius, in steps, of which `lemma_through_the_center`
/// speaks: the square of a larger one may leave the range.
pub const AXIS_RADIUS: i64 = 0x4000_0000_0000;

/// A sphere of one material.
pub struct Sphere {
    material: Material,
    center: Vector,
    radius: Scalar,
}

impl Sphere {
    /// The material of the surface.
    pub closed spec fn material(&self) -> Material {
        self.material
    }

    /// The center.
    pub closed spec fn center(&self) -> Vector {
        self.center
    }

    /// The radius, which is above zero for every sphere that `from` gave.
    pub closed spec fn radius(&self) -> Scalar {
        self.radius
    }

    /// The sphere about `center`, unless `radius` is zero or less.
    pub fn from(center: Vector, radius: Scalar, material: Material) -> (r: Option<Sphere>)
        ensures
            r is None <==> radius@ <= 0,
            r matches Some(s) ==> s.center() == center && s.radius() == radius && s.material()
                == material,
    {
        if radius.raw <= 0 {
            None
        } else {
            Some(Sphere { center, radius, material })
        }
    }

    /// From the starting point of `ray` to the center.
    pub open spec fn to_center(&self, ray: Ray) -> Vector {
        self.center().minus(ray.starting_point)
    }

    /// The discriminant of the equation for the distances at which `ray`
    /// crosses the sphere: `|d|^2 * r^2 - |c x d|^2`, for the direction
    /// `d`, the radius `r` and the vector `c` to the center.
    pub open spec fn discriminant(&self, ray: Ray) -> Scalar {
        ray.direction.length_squared_spec().times(self.radius().times(self.radius())).minus(
            self.to_center(ray).cross_spec(ray.direction).length_squared_spec(),
        )
    }

    /// The distance along `ray` at which it enters the sphere, where its
    /// line crosses the sphere at all.
    pub open spec fn near_root(&self, ray: Ray) -> Scalar {
        self.to_center(ray).dot_spec(ray.direction).minus(self.discriminant(ray).sqrt_spec()).over(
            ray.direction.length_squared_spec(),
        )
    }

    /// The distance along `ray` at which it leaves the sphere.
    pub open spec fn far_root(&self, ray: Ray) -> Scalar {
        self.to_center(ray).dot_spec(ray.direction).plus(self.discriminant(ray).sqrt_spec()).over(
            ray.direction.length_squared_spec(),
        )
    }

    /// The distance at which `ray` meets the sphere: the nearer crossing
    /// that lies in reach, at least one step ahead. There is none for a ray without a
    /// direction, none where the discriminant is negative, and none where
    /// both crossings lie behind.
    pub open spec fn hit_distance(&self, ray: Ray) -> Option<Scalar> {
        if ray.direction.length_squared_spec()@ == 0 || self.discriminant(ray)@ < 0 {
            None
        } else if is_in_reach(self.near_root(ray)) {
            Some(self.near_root(ray))
        } else if is_in_reach(self.far_root(ray)) {
            Some(self.far_root(ray))
        } else {
            None
        }
    }

    /// The direction from the center to the point at the distance `t`
    /// along `ray`.
    pub open spec fn normal_at(&self, ray: Ray, t: Scalar) -> Vector {
        ray.point_at_spec(t).minus(self.center()).normalized_or_zero_spec()
    }
}

impl Sphere {
    /// A ray enters the sphere before it leaves it, and it meets the
    /// sphere where it enters, if that lies ahead: where it leaves only if
    /// it enters behind or at its start. It never meets the sphere less
    /// than one step ahead or out of range.
    pub proof fn lemma_enters_first(&self, ray: Ray)
        requires
            ray.direction.length_squared_spec()@ != 0,
            self.discriminant(ray)@ >= 0,
        ensures
            self.near_root(ray)@ <= self.far_root(ray)@,
            is_in_reach(self.near_root(ray)) ==> self.hit(ray) is Intersected && self.hit(ray)->t
                == self.near_root(ray),
            self.hit(ray) is Intersected ==> is_in_reach(self.hit(ray)->t) && (self.hit(ray)->t
                == self.near_root(ray) || self.hit(ray)->t == self.far_root(ray)),
            self.hit(ray) is NoIntersection <==> !is_in_reach(self.near_root(ray)) && !is_in_reach(
                self.far_root(ray),
            ),
            self.far_root(ray)@ < 1 ==> self.hit(ray) is NoIntersection,
    {
        let along: Scalar = self.to_center(ray).dot_spec(ray.direction);
        let spread: Scalar = self.discriminant(ray).sqrt_spec();
        let across: Scalar = ray.direction.length_squared_spec();
        ray.direction.lemma_coordinates_within_length();
        lemma_quot_bounds(ray.direction.norm_sq_exact(), SCALE as int);
        assert(across@ > 0);
        assert(spread@ >= 0);
        let (low, high) = (along.minus(spread), along.plus(spread));
        assert(low@ <= high@);
        lemma_quot_keeps_order(low@ * SCALE, high@ * SCALE, across@);
    }

    /// A ray along an axis of the frame that goes through the center of a
    /// sphere ahead of it, from outside, meets the sphere where it enters: at the distance
    /// of the center less the radius, or one step later. This holds of
    /// every radius from half a unit up to `AXIS_RADIUS` steps.
    pub proof fn lemma_through_the_center(&self, ray: Ray, distance: Scalar)
        requires
            ray.direction.is_along_an_axis(),
            self.to_center(ray) == ray.direction.times(distance),
            distance@ > self.radius()@,
            SCALE <= 2 * self.radius()@,
            self.radius()@ <= AXIS_RADIUS,
        ensures
            self.hit(ray) is Intersected,
            distance@ - self.radius()@ <= self.hit(ray)->t@ <= distance@ - self.radius()@ + 1,
    {
        let k: int = SCALE as int;
        let r: int = self.radius()@;
        let d: int = distance@;
        let e: Vector = ray.direction;
        let c: Vector = self.to_center(ray);
        // the direction has length one, and the center lies along it
        assert(k * k == 1_000_000_000_000_000_000);
        Sphere::lemma_on_an_axis(e.x@, e.y@, e.z@, d);
        assert(c.x@ == quot(e.x@ * d, k) && c.y@ == quot(e.y@ * d, k) && c.z@ == quot(e.z@ * d, k));
        assert(e.norm_sq_exact() == k * k && c.dot_exact(e) == d * k);
        assert(c.cross_spec(e) == Vector::zero_spec());
        assert(ray.direction.length_squared_spec()@ == k);
        assert(c.cross_spec(e).length_squared_spec()@ == 0);
        assert(self.to_center(ray).dot_spec(ray.direction)@ == d);
        // the discriminant is the squared radius, so its root the radius
        assert(r * r <= AXIS_RADIUS * AXIS_RADIUS) by (nonlinear_arith)
            requires
                0 <= r <= AXIS_RADIUS,
        ;
        let rr: int = quot(r * r, k);
        lemma_quot_bounds(r * r, k);
        assert(r * r >= 0) by (nonlinear_arith);
        assert(self.radius().times(self.radius())@ == rr);
        assert(quot(k * rr, k) == rr) by {
            lemma_quot_bounds(k * rr, k);
            assert(k * rr == rr * k) by (nonlinear_arith);
            assert(forall|q: int|
                q * k <= rr * k < q * k + k ==> #[trigger] (q * k) == rr * k) by (nonlinear_arith)
                requires
                    k > 0,
            ;
            assert(forall|q: int| #[trigger] (q * k) == rr * k ==> q == rr) by (nonlinear_arith)
                requires
                    k > 0,
            ;
        }
        assert(self.discriminant(ray)@ == rr);
        lemma_floor_sqrt_is_floor_sqrt((rr * k) as nat);
        let spread: int = floor_sqrt((rr * k) as nat) as int;
        assert(rr >= 0 && rr * k <= r * r < rr * k + k);
        assert((r + 1) * (r + 1) == r * r + 2 * r + 1) by (nonlinear_arith);
        if spread > r {
            lemma_square_le(r + 1, spread);
        }
        if spread < r - 1 {
            lemma_square_le(spread + 1, r - 1);
            assert((r - 1) * (r - 1) == r * r - 2 * r + 1) by (nonlinear_arith);
        }
        assert(r - 1 <= spread <= r);
        assert(self.discriminant(ray).sqrt_spec()@ == spread);
        // dividing by the squared length of the direction changes nothing
        let near: int = d - spread;
        assert(quot(near * k, k) == near) by {
            lemma_quot_bounds(near * k, k);
            assert(near * k > 0) by (nonlinear_arith)
                requires
                    near > 0,
                    k > 0,
            ;
            assert(forall|q: int|
                q * k <= near * k < q * k + k ==> #[trigger] (q * k) == near * k)
                by (nonlinear_arith)
                requires
                    k > 0,
            ;
            assert(forall|q: int| #[trigger] (q * k) == near * k ==> q == near)
                by (nonlinear_arith)
                requires
                    k > 0,
            ;
        }
        assert(self.near_root(ray)@ == near);
    }

    /// For a vector `e` along an axis of the frame and `d` times that
    /// vector: the squared length of the one, the dot product of the two
    /// and their cross product.
    proof fn lemma_on_an_axis(x: int, y: int, z: int, d: int)
        requires
            (abs(x) == SCALE && y == 0 && z == 0) || (x == 0 && abs(y) == SCALE && z == 0) || (x
                == 0 && y == 0 && abs(z) == SCALE),
        ensures
            x * x + y * y + z * z == SCALE * SCALE,
            quot(x * d, SCALE as int) * x + quot(y * d, SCALE as int) * y + quot(
                z * d,
                SCALE as int,
            ) * z == d * SCALE,
            quot(y * d, SCALE as int) * z - quot(z * d, SCALE as int) * y == 0,
            quot(z * d, SCALE as int) * x - quot(x * d, SCALE as int) * z == 0,
            quot(x * d, SCALE as int) * y - quot(y * d, SCALE as int) * x == 0,
            abs(quot(x * d, SCALE as int)) <= abs(d),
            abs(quot(y * d, SCALE as int)) <= abs(d),
            abs(quot(z * d, SCALE as int)) <= abs(d),
    {
        let k: int = SCALE as int;
        assert(quot(k * d, k) == d && quot((-k) * d, k) == -d && quot(0 * d, k) == 0) by {
            assert(k * d == d * k && (-k) * d == (-d) * k && 0 * d == 0) by (nonlinear_arith);
        }
        assert(k * k == (-k) * (-k) && d * k == (-d) * (-k)) by (nonlinear_arith);
        assert(forall|a: int| #[trigger] (a * 0) == 0 && 0 * a == 0) by (nonlinear_arith);
    }

    /// The normal that is reported has length one, but for the rounding;
    /// unless the point that the ray was found to meet is the center
    /// itself, where there is no normal and the zero vector stands for it.
    pub proof fn lemma_normal_is_unit(&self, ray: Ray)
        requires
            self.hit(ray) is Intersected,
        ensures
            self.hit(ray)->surface_material == self.material(),
            self.hit(ray)->surface_normal == self.normal_at(ray, self.hit(ray)->t),
            ray.point_at_spec(self.hit(ray)->t).minus(self.center()) != Vector::zero_spec()
                ==> is_nearly_unit(self.hit(ray)->surface_normal),
            ray.point_at_spec(self.hit(ray)->t).minus(self.center()) == Vector::zero_spec()
                ==> self.hit(ray)->surface_normal == Vector::zero_spec(),
    {
        let out: Vector = ray.point_at_spec(self.hit(ray)->t).minus(self.center());
        out.lemma_no_direction_iff_zero();
        if out != Vector::zero_spec() {
            out.lemma_normalized_is_nearly_unit();
        }
    }

    /// A ray that touches the sphere, so that the discriminant is zero,
    /// crosses it at one distance only; it meets the sphere there if that
    /// lies in reach, and else not at all.
    pub proof fn lemma_tangent_ray_meets_once(&self, ray: Ray)
        requires
            ray.direction.length_squared_spec()@ != 0,
            self.discriminant(ray)@ == 0,
        ensures
            self.near_root(ray) == self.far_root(ray),
            self.hit(ray) is Intersected <==> is_in_reach(self.near_root(ray)),
            self.hit(ray) is Intersected ==> self.hit(ray)->t == self.near_root(ray),
    {
        assert(floor_sqrt(0) == 0);
        assert(self.discriminant(ray).sqrt_spec()@ == 0);
    }
}

impl Surface for Sphere {
    open spec fn hit(&self, ray: Ray) -> RayIntersectionResult {
        match self.hit_distance(ray) {
            Some(t) => RayIntersectionResult::Intersected {
                surface_material: self.material(),
                surface_normal: self.normal_at(ray, t),
                t,
            },
            None => RayIntersectionResult::NoIntersection,
        }
    }

    fn intersect_with_ray(&self, ray: Ray) -> (r: RayIntersectionResult) {
        let distance: Vector = self.center - ray.starting_point;
        let direction_squared: Scalar = ray.direction.length_squared();
        let discriminant: Scalar = direction_squared * (self.radius * self.radius)
            - distance.cross(ray.direction).length_squared();
        if direction_squared.raw == 0 || discriminant.raw < 0 {
            return RayIntersectionResult::NoIntersection;
        }
        let along: Scalar = distance.dot(ray.direction);
        let spread: Scalar = discriminant.sqrt();
        let near: Scalar = (along - spread) / direction_squared;
        let far: Scalar = (along + spread) / direction_squared;
        let t: Scalar = if in_reach(near) {
            near
        } else if in_reach(far) {
            far
        } else {
            return RayIntersectionResult::NoIntersection;
        };
        let normal: Vector = (ray.point_at(t) - self.center).normalized_or_zero();
        RayIntersectionResult::Intersected {
            surface_material: self.material,
            surface_normal: normal,
            t,
        }
    }
}

} // verus!
