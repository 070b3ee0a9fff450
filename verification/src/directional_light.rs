//! Light from far away.

use crate::color::Color;
use crate::light_source::LightSource;
use crate::reflection::is_nearly_unit;
use crate::vector::Vector;
use vstd::prelude::*;

verus! {

/// Light that travels in one direction everywhere, as from a distant sun.
pub struct DirectionalLight {
    direction: Vector,
    color: Color,
}

impl DirectionalLight {
    /// The direction in which the light travels, of length one.
    pub closed spec fn direction(&self) -> Vector {
        self.direction
    }

    /// Light of `color` that travels along `direction`, which is scaled
    /// to length one, unless `direction` is too short to stand for one.
    pub fn from(direction: Vector, color: Color) -> (r: Option<DirectionalLight>)
        ensures
            r is None <==> direction.is_zero_approx_spec(),
            r matches Some(l) ==> Some(l.direction()) == direction.normalized_spec()
                && is_nearly_unit(l.direction()) && l.color() == color,
    {
        proof {
            direction.lemma_no_direction_iff_zero();
            if direction != Vector::zero_spec() {
                direction.lemma_normalized_is_nearly_unit();
            }
        }
        if direction.is_zero_approx() {
            return None;
        }
        match direction.normalized() {
            Some(direction) => Some(DirectionalLight { direction, color }),
            None => None,
        }
    }
}

impl LightSource for DirectionalLight {
    /// The same at every point.
    open spec fn direction_from(&self, point: Vector) -> Vector {
        self.direction()
    }

    closed spec fn color(&self) -> Color {
        self.color
    }

    fn get_light_direction_from(&self, point: Vector) -> (r: Vector) {
        self.direction
    }

    fn get_light_color(&self) -> (r: Color) {
        self.color
    }
}

} // verus!
