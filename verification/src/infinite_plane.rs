//! Planes without an edge.

use crate::material::Material;
use crate::ray::Ray;
use crate::reflection::is_nearly_unit;
use crate::scalar::Scalar;
use crate::surface::{in_reach, is_in_reach, RayIntersectionResult, Surface};
use crate::vector::Vector;
use vstd::prelude::*;

verus! {

/// The plane through a point, across a normal of length one.
pub struct InfinitePlane {
    position: Vector,
    normal: Vector,
    material: Material,
}

impl InfinitePlane {
    /// A point of the plane.
    pub closed spec fn position(&self) -> Vector {
        self.position
    }

    /// The direction across the plane, of length one.
    pub closed spec fn normal(&self) -> Vector {
        self.normal
    }

    /// The material of the surface.
    pub closed spec fn material(&self) -> Material {
        self.material
    }

    /// The plane through `position` across `normal`, which is scaled to
    /// length one, unless `normal` is too short to stand for a direction.
    pub fn from(position: Vector, normal: Vector, material: Material) -> (r: Option<InfinitePlane>)
        ensures
            r is None <==> normal.is_zero_approx_spec(),
            r matches Some(p) ==> p.position() == position && Some(p.normal())
                == normal.normalized_spec() && is_nearly_unit(p.normal()) && p.material()
                == material,
    {
        proof {
            normal.lemma_no_direction_iff_zero();
            if normal != Vector::zero_spec() {
                normal.lemma_normalized_is_nearly_unit();
            }
        }
        if normal.is_zero_approx() {
            return None;
        }
        match normal.normalized() {
            Some(normal) => Some(InfinitePlane { position, normal, material }),
            None => None,
        }
    }

    /// How fast `ray` approaches the plane: the dot product of its
    /// direction and the normal. It is zero for a ray along the plane.
    pub open spec fn approach(&self, ray: Ray) -> Scalar {
        ray.direction.dot_spec(self.normal())
    }

    /// The distance along `ray` at which its line crosses the plane, for a
    /// ray that is not along the plane.
    pub open spec fn crossing(&self, ray: Ray) -> Scalar {
        self.position().minus(ray.starting_point).dot_spec(self.normal()).over(self.approach(ray))
    }
}

impl InfinitePlane {
    /// A ray along the plane, whose direction is across the normal, does
    /// not meet it.
    pub proof fn lemma_parallel_ray_misses(&self, ray: Ray)
        requires
            ray.direction.dot_spec(self.normal())@ == 0,
        ensures
            self.hit(ray) is NoIntersection,
    {
    }

    /// A ray meets the plane only ahead of its start and within the range.
    pub proof fn lemma_meets_ahead(&self, ray: Ray)
        ensures
            self.hit(ray) matches RayIntersectionResult::Intersected { t, .. } ==> is_in_reach(t),
    {
    }
}

impl Surface for InfinitePlane {
    /// A ray along the plane misses it, and so does one that crosses it
    /// less than one step ahead, or so far ahead that the distance is out
    /// of range.
    open spec fn hit(&self, ray: Ray) -> RayIntersectionResult {
        if self.approach(ray)@ == 0 || !is_in_reach(self.crossing(ray)) {
            RayIntersectionResult::NoIntersection
        } else {
            RayIntersectionResult::Intersected {
                surface_material: self.material(),
                surface_normal: self.normal(),
                t: self.crossing(ray),
            }
        }
    }

    fn intersect_with_ray(&self, ray: Ray) -> (r: RayIntersectionResult) {
        let distance: Vector = self.position - ray.starting_point;
        let approach: Scalar = ray.direction.dot(self.normal);
        if approach.raw == 0 {
            return RayIntersectionResult::NoIntersection;
        }
        let t: Scalar = distance.dot(self.normal) / approach;
        if !in_reach(t) {
            RayIntersectionResult::NoIntersection
        } else {
            RayIntersectionResult::Intersected {
                surface_material: self.material,
                surface_normal: self.normal,
                t,
            }
        }
    }
}

} // verus!
