//! What a surface does with the light that reaches it.

use crate::color::Color;
use crate::scalar::Scalar;
use vstd::prelude::*;

verus! {

/// The optical properties of a surface.
#[derive(Clone, Copy, Debug, PartialEq, Eq, Structural)]
pub struct Material {
    /// The base color, by which all light that leaves the surface is tinted.
    pub color: Color,
    /// The share of the light that is scattered evenly.
    pub diffuse_coefficient: Scalar,
    /// The strength of the highlight.
    pub specular_coefficient: Scalar,
    /// The exponent of the highlight: the higher, the smaller the spot.
    pub shininess_coefficient: u32,
    /// The share of the mirrored light that is passed on.
    pub mirror_reflection_coefficient: Scalar,
}

impl Material {
    /// The material with the five properties.
    pub fn from(
        color: Color,
        diffuse_coefficient: Scalar,
        specular_coefficient: Scalar,
        shininess_coefficient: u32,
        mirror_reflection_coefficient: Scalar,
    ) -> (r: Material)
        ensures
            r == (Material {
                color,
                diffuse_coefficient,
                specular_coefficient,
                shininess_coefficient,
                mirror_reflection_coefficient,
            }),
    {
        Material {
            color,
            diffuse_coefficient,
            specular_coefficient,
            shininess_coefficient,
            mirror_reflection_coefficient,
        }
    }
}

} // verus!
