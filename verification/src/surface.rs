//! What a ray can meet.

use crate::material::Material;
use crate::ray::Ray;
use crate::scalar::Scalar;
use crate::vector::Vector;
use vstd::prelude::*;

verus! {

/// Whether `t` is a distance at which a ray can meet a surface: at least
/// one step ahead of its start, and short of the end of the range, where
/// a distance stands that was too large to tell.
pub open spec fn is_in_reach(t: Scalar) -> bool {
    Scalar::epsilon_spec()@ <= t@ < i64::MAX
}

/// Whether a distance is one at which a ray can meet a surface.
#[verifier::when_used_as_spec(is_in_reach)]
pub fn in_reach(t: Scalar) -> (r: bool)
    ensures
        r == is_in_reach(t),
{
    t.raw >= Scalar::epsilon().raw && t.raw < i64::MAX
}

/// What a ray meets on a surface.
#[derive(Clone, Copy, Debug, PartialEq, Eq, Structural)]
pub enum RayIntersectionResult {
    /// The ray misses the surface.
    NoIntersection,
    /// The ray meets the surface at the distance `t` from its start.
    Intersected { surface_material: Material, surface_normal: Vector, t: Scalar },
}

/// A shape that rays can be tested against.
pub trait Surface {
    /// What `ray` meets on this surface.
    spec fn hit(&self, ray: Ray) -> RayIntersectionResult;

    /// Tests `ray` against the surface.
    fn intersect_with_ray(&self, ray: Ray) -> (r: RayIntersectionResult)
        ensures
            r == self.hit(ray),
    ;
}

} // verus!
