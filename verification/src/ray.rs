//! Rays: a starting point and a direction of length one.

use crate::reflection::is_nearly_unit;
use crate::scalar::Scalar;
use crate::vector::Vector;
use vstd::prelude::*;

verus! {

/// A half-line. The constructors scale the direction to length one, but
/// for the rounding: they leave it at most four steps short.
#[derive(Clone, Copy, Debug, PartialEq, Eq, Structural)]
pub struct Ray {
    pub starting_point: Vector,
    pub direction: Vector,
}

impl Ray {
    /// The ray from `starting_point` along `direction` scaled to length
    /// one; none where `direction` is too short to stand for a direction.
    pub open spec fn from_spec(starting_point: Vector, direction: Vector) -> Option<Ray> {
        if direction.is_zero_approx_spec() {
            None
        } else {
            match direction.normalized_spec() {
                Some(direction) => Some(Ray { starting_point, direction }),
                None => None,
            }
        }
    }

    /// The ray from `starting_point` toward `end_point`.
    pub open spec fn from_points_spec(starting_point: Vector, end_point: Vector) -> Option<Ray> {
        Ray::from_spec(starting_point, end_point.minus(starting_point))
    }

    /// The point at the distance `t` along the ray.
    pub open spec fn point_at_spec(&self, t: Scalar) -> Vector {
        self.starting_point.plus(self.direction.times(t))
    }

    /// The ray from a point along a direction, unless the direction is too
    /// short to stand for one.
    pub fn from(starting_point: Vector, direction: Vector) -> (r: Option<Ray>)
        ensures
            r == Ray::from_spec(starting_point, direction),
            r is None <==> direction.is_zero_approx_spec(),
            r matches Some(ray) ==> ray.starting_point == starting_point && Some(ray.direction)
                == direction.normalized_spec() && is_nearly_unit(ray.direction),
    {
        proof {
            direction.lemma_no_direction_iff_zero();
            if direction != Vector::zero_spec() {
                direction.lemma_normalized_is_nearly_unit();
            }
        }
        if direction.is_zero_approx() {
            return None;
        }
        match direction.normalized() {
            Some(direction) => Some(Ray { starting_point, direction }),
            None => None,
        }
    }

    /// The ray from one point toward another, unless the two are too near
    /// to each other to tell a direction.
    pub fn from_points(starting_point: Vector, end_point: Vector) -> (r: Option<Ray>)
        ensures
            r == Ray::from_points_spec(starting_point, end_point),
            r is None <==> end_point.minus(starting_point).is_zero_approx_spec(),
            r matches Some(ray) ==> ray.starting_point == starting_point && is_nearly_unit(
                ray.direction,
            ),
    {
        let direction: Vector = end_point - starting_point;
        Ray::from(starting_point, direction)
    }

    /// The point at the distance `t` along the ray.
    #[verifier::when_used_as_spec(point_at_spec)]
    pub fn point_at(&self, t: Scalar) -> (r: Vector)
        ensures
            r == self.point_at_spec(t),
    {
        self.starting_point + self.direction * t
    }
}

} // verus!
