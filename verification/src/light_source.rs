//! Where light comes from.

use crate::color::Color;
use crate::vector::Vector;
use vstd::prelude::*;

verus! {

/// A source of light.
pub trait LightSource {
    /// The direction in which the light travels at `point`.
    spec fn direction_from(&self, point: Vector) -> Vector;

    /// The color of the light.
    spec fn color(&self) -> Color;

    /// The direction in which the light travels at `point`: away from the
    /// source.
    fn get_light_direction_from(&self, point: Vector) -> (r: Vector)
        ensures
            r == self.direction_from(point),
    ;

    /// The color of the light.
    fn get_light_color(&self) -> (r: Color)
        ensures
            r == self.color(),
    ;
}

} // verus!
