//! Light that travels along a ray.

use crate::color::Color;
use crate::ray::Ray;
use crate::reflection::is_nearly_unit;
use crate::vector::Vector;
use vstd::prelude::*;

verus! {

/// A ray together with the color of the light on it.
#[derive(Clone, Copy, Debug, PartialEq, Eq, Structural)]
pub struct LightRay {
    pub ray: Ray,
    pub color: Color,
}

impl LightRay {
    /// Light of `color` along the ray from `starting_point` in `direction`;
    /// none where there is no such ray.
    pub open spec fn from_spec(starting_point: Vector, direction: Vector, color: Color) -> Option<
        LightRay,
    > {
        match Ray::from_spec(starting_point, direction) {
            Some(ray) => Some(LightRay { ray, color }),
            None => None,
        }
    }

    /// Light of a color from a point along a direction, unless the
    /// direction is too short to stand for one.
    pub fn from(starting_point: Vector, direction: Vector, color: Color) -> (r: Option<LightRay>)
        ensures
            r == LightRay::from_spec(starting_point, direction, color),
            r is None <==> direction.is_zero_approx_spec(),
            r matches Some(light) ==> is_nearly_unit(light.ray.direction),
    {
        match Ray::from(starting_point, direction) {
            Some(ray) => Some(LightRay { ray, color }),
            None => None,
        }
    }

    /// Light of a color along a ray.
    pub fn from_ray(ray: Ray, color: Color) -> (r: LightRay)
        ensures
            r == (LightRay { ray, color }),
    {
        LightRay { ray, color }
    }
}

} // verus!
