//! A small offline ray tracer over exact fixed-point arithmetic.
//!
//! Every number is a [`scalar::Scalar`]: a signed count of billionths. Each
//! operation computes its exact result in wide integers, rounds it once
//! toward zero and clamps it to the representable range, so every function
//! of the engine is total and its result is stated exactly in its contract.
//!
//! The engine, from the leaves up:
//! - [`scalar`], [`vector`], [`color`]: numbers, vectors and colors;
//! - [`ray`], [`basis`], [`material`], [`light_ray`]: the values that the
//!   geometry is made of;
//! - [`surface`] with [`sphere`], [`infinite_plane`] and [`multisurface`]:
//!   what a ray can meet;
//! - [`light_source`] with [`directional_light`]: where light comes from;
//! - [`camera`]: from pixels to rays, and the shading that follows a ray
//!   from surface to surface;
//! - [`screen`] and [`text`]: the raster and how it is written out.
//!
//! Besides the contracts of the functions, the modules state as proof
//! functions what holds of the engine as a whole; [`reflection`] holds
//! those on mirroring and on vectors of length one, [`entry`] the one on
//! rays that are aimed at the center of a sphere.

pub mod text;
pub mod scalar;
pub mod vector;
pub mod color;
pub mod material;
pub mod ray;
pub mod light_ray;
pub mod basis;
pub mod surface;
pub mod light_source;
pub mod sphere;
pub mod infinite_plane;
pub mod directional_light;
pub mod multisurface;
pub mod screen;
pub mod camera;
pub mod reflection;
pub mod entry;
