//! The camera: from pixels to rays, and from rays to colors.

use crate::basis::Basis;
use crate::color::Color;
use crate::light_ray::LightRay;
use crate::light_source::LightSource;
use crate::material::Material;
use crate::ray::Ray;
use crate::scalar::{Scalar, SCALE};
use crate::screen::{
    lemma_index_in_grid, lemma_position_of_index, Screen, ScreenPixelPositions,
};
use crate::surface::{RayIntersectionResult, Surface};
use crate::vector::Vector;
use core::ops::Neg;
use vstd::prelude::*;

verus! {

/// How many surfaces in a row the light of one pixel is followed over.
pub const REFLECTIONS: u8 = 3;

/// A pinhole camera. It looks against `basis.w`; the sensor lies
/// `focal_length` ahead of `position` and reaches `sensor_extents` to each
/// side of the axis.
#[derive(Clone, Copy, Debug, PartialEq, Eq, Structural)]
pub struct Camera {
    pub basis: Basis,
    pub position: Vector,
    pub focal_length: Scalar,
    pub sensor_extents: Vector,
}

impl Camera {
    /// The camera at `position` that looks along `look_direction`, with
    /// `up_direction` as a hint of what is up, and a sensor of
    /// `sensor_size`; none where there is no frame for the two directions.
    pub open spec fn from_spec(
        position: Vector,
        up_direction: Vector,
        look_direction: Vector,
        focal_length: Scalar,
        sensor_size: Vector,
    ) -> Option<Camera> {
        match Basis::from_wv_spec(look_direction.negated(), up_direction) {
            Some(basis) => Some(
                Camera {
                    basis,
                    position,
                    focal_length,
                    sensor_extents: sensor_size.over(Scalar::of(2 * SCALE)),
                },
            ),
            None => None,
        }
    }

    /// Half the size of one pixel on the sensor, for a picture of `width`
    /// by `height` pixels, neither of them zero.
    pub open spec fn pixel_extents(&self, width: usize, height: usize) -> Vector {
        Vector {
            x: self.sensor_extents.x.over(Scalar::of(width * SCALE)),
            y: self.sensor_extents.y.over(Scalar::of(height * SCALE)),
            z: Scalar::zero_spec(),
        }
    }

    /// How many half pixels the pixel `p` lies from the middle of a row or
    /// column of `size` pixels: `2 * p - size + 1`.
    pub open spec fn pixel_offset(p: usize, size: usize) -> Scalar {
        Scalar::of((2 * p - size + 1) * SCALE)
    }

    /// Where the pixel `(x, y)` lies in space:
    /// `position - u * e.x * (2x - width + 1) - v * e.y * (2y - height + 1) - w * focal_length`,
    /// for the half pixel size `e`.
    pub open spec fn pixel_world_position_at_spec(
        &self,
        x: usize,
        y: usize,
        width: usize,
        height: usize,
        pixel_extents: Vector,
    ) -> Vector {
        self.position.minus(
            self.basis.u.times(pixel_extents.x).times(Camera::pixel_offset(x, width)),
        ).minus(self.basis.v.times(pixel_extents.y).times(Camera::pixel_offset(y, height))).minus(
            self.basis.w.times(self.focal_length),
        )
    }

    /// The light that a surface scatters evenly: its share times the cosine
    /// between the normal and the way to the light, and nothing where the
    /// light comes from behind.
    pub open spec fn diffuse(material: Material, normal: Vector, to_light: Vector) -> Scalar {
        material.diffuse_coefficient.times(normal.dot_spec(to_light).max_spec(Scalar::zero_spec()))
    }

    /// The highlight: between the way back to the viewer and the way to
    /// the light lies the bisector; the cosine between it and the normal is
    /// raised to the shininess and taken times the strength.
    pub open spec fn specular(
        material: Material,
        normal: Vector,
        view: Vector,
        toward_light: Vector,
    ) -> Scalar {
        material.specular_coefficient.times(
            view.negated().plus(toward_light).normalized_or_zero_spec().dot_spec(normal).max_spec(
                Scalar::zero_spec(),
            ).powi_spec(material.shininess_coefficient as nat),
        )
    }

    /// Whether light reaches `point`: nothing stands on the ray from it
    /// along `to_light`. Without such a ray there is no light.
    pub open spec fn is_lit<S: Surface>(surface: &S, point: Vector, to_light: Vector) -> bool {
        match Ray::from_spec(point, to_light) {
            Some(ray) => surface.hit(ray) is NoIntersection,
            None => false,
        }
    }

    /// The light that arrives: all of it or none.
    pub open spec fn received(light_color: Color, lit: bool) -> Color {
        light_color.times(
            if lit {
                Scalar::one_spec()
            } else {
                Scalar::zero_spec()
            },
        )
    }

    /// The color that leaves a surface: the light that arrives and the
    /// mirrored light together, times the intensity, tinted by the base
    /// color.
    pub open spec fn shaded(
        material: Material,
        received: Color,
        mirrored: Color,
        intensity: Scalar,
    ) -> Color {
        Color::mix_spec(seq![material.color, received.plus(mirrored).times(intensity)])
    }

    /// The light that comes back along `ray` when it is followed over at
    /// most `reflections` surfaces: none where nothing is left to follow or
    /// the ray meets no surface, and else the light that leaves the point
    /// where it meets one.
    pub open spec fn trace<S: Surface, L: LightSource>(
        &self,
        ray: Ray,
        surface: &S,
        light_source: &L,
        reflections: nat,
    ) -> Option<LightRay>
        decreases reflections,
    {
        if reflections == 0 {
            None
        } else {
            match surface.hit(ray) {
                RayIntersectionResult::NoIntersection => None,
                RayIntersectionResult::Intersected { surface_material, surface_normal, t } => {
                    let point: Vector = ray.point_at_spec(t);
                    let view: Vector = point.minus(self.position).normalized_or_zero_spec();
                    let to_light: Vector = light_source.direction_from(point).negated();
                    let mirrored: Color = match Ray::from_spec(
                        point,
                        view.reflected_spec(surface_normal),
                    ) {
                        Some(onward) => match self.trace(
                            onward,
                            surface,
                            light_source,
                            (reflections - 1) as nat,
                        ) {
                            Some(light_ray) => light_ray.color.times(
                                surface_material.mirror_reflection_coefficient,
                            ),
                            None => Color::zero_spec(),
                        },
                        None => Color::zero_spec(),
                    };
                    LightRay::from_spec(
                        point,
                        ray.direction.negated(),
                        Camera::shaded(
                            surface_material,
                            Camera::received(
                                light_source.color(),
                                Camera::is_lit(surface, point, to_light),
                            ),
                            mirrored,
                            Camera::diffuse(surface_material, surface_normal, to_light).plus(
                                Camera::specular(
                                    surface_material,
                                    surface_normal,
                                    view,
                                    to_light.normalized_or_zero_spec(),
                                ),
                            ),
                        ),
                    )
                },
            }
        }
    }

    /// The color seen along `ray`: black where no light comes back.
    pub open spec fn final_color<S: Surface, L: LightSource>(
        &self,
        ray: Ray,
        surface: &S,
        light_source: &L,
        reflections: nat,
    ) -> Color {
        match self.trace(ray, surface, light_source, reflections) {
            Some(light_ray) => light_ray.color,
            None => Color::black_spec(),
        }
    }

    /// The color of the pixel `(x, y)` in a picture of `width` by `height`
    /// pixels: what is seen along the ray from the eye through the pixel,
    /// and black where the pixel lies in the eye.
    pub open spec fn pixel_color<S: Surface, L: LightSource>(
        &self,
        x: usize,
        y: usize,
        width: usize,
        height: usize,
        surface: &S,
        light_source: &L,
    ) -> Color {
        match Ray::from_points_spec(
            self.position,
            self.pixel_world_position_at_spec(x, y, width, height, self.pixel_extents(width, height)),
        ) {
            Some(ray) => self.final_color(ray, surface, light_source, REFLECTIONS as nat),
            None => Color::black_spec(),
        }
    }

    /// The picture of `width` by `height` pixels, row by row.
    pub open spec fn frame<S: Surface, L: LightSource>(
        &self,
        surface: &S,
        light_source: &L,
        width: usize,
        height: usize,
    ) -> Seq<Color> {
        Seq::new(
            (width * height) as nat,
            |i: int|
                self.pixel_color(
                    (i % width as int) as usize,
                    (i / width as int) as usize,
                    width,
                    height,
                    surface,
                    light_source,
                ),
        )
    }

    /// How many surfaces the light is followed over along `ray`, with at
    /// most `reflections` allowed: none where the ray meets nothing, and
    /// else one more than along the mirrored ray.
    pub open spec fn surfaces_followed<S: Surface, L: LightSource>(
        &self,
        ray: Ray,
        surface: &S,
        light_source: &L,
        reflections: nat,
    ) -> nat
        decreases reflections,
    {
        if reflections == 0 {
            0
        } else {
            match surface.hit(ray) {
                RayIntersectionResult::NoIntersection => 0,
                RayIntersectionResult::Intersected { surface_material, surface_normal, t } => {
                    let point: Vector = ray.point_at_spec(t);
                    let view: Vector = point.minus(self.position).normalized_or_zero_spec();
                    match Ray::from_spec(point, view.reflected_spec(surface_normal)) {
                        Some(onward) => 1 + self.surfaces_followed(
                            onward,
                            surface,
                            light_source,
                            (reflections - 1) as nat,
                        ),
                        None => 1,
                    }
                },
            }
        }
    }

    /// The light is followed over no more surfaces than allowed, however
    /// the surfaces face each other; and light comes back only from a ray
    /// that meets a surface.
    pub proof fn lemma_followed_within_bounds<S: Surface, L: LightSource>(
        &self,
        ray: Ray,
        surface: &S,
        light_source: &L,
        reflections: nat,
    )
        ensures
            self.surfaces_followed(ray, surface, light_source, reflections) <= reflections,
            self.trace(ray, surface, light_source, reflections) is Some ==> self.surfaces_followed(
                ray,
                surface,
                light_source,
                reflections,
            ) >= 1,
        decreases reflections,
    {
        if reflections > 0 {
            match surface.hit(ray) {
                RayIntersectionResult::NoIntersection => {},
                RayIntersectionResult::Intersected { surface_material, surface_normal, t } => {
                    let point: Vector = ray.point_at_spec(t);
                    let view: Vector = point.minus(self.position).normalized_or_zero_spec();
                    match Ray::from_spec(point, view.reflected_spec(surface_normal)) {
                        Some(onward) => {
                            self.lemma_followed_within_bounds(
                                onward,
                                surface,
                                light_source,
                                (reflections - 1) as nat,
                            );
                        },
                        None => {},
                    }
                },
            }
        }
    }

    /// The pixels lie evenly about the axis of the camera: a pixel lies as
    /// many half pixels to one side of the middle as its mirror image lies
    /// to the other.
    pub proof fn lemma_pixels_lie_evenly(p: usize, size: usize)
        requires
            p < size,
            size <= i64::MAX / SCALE,
        ensures
            Camera::pixel_offset(p, size)@ == (2 * p - size + 1) * SCALE,
            Camera::pixel_offset(p, size)@ == -Camera::pixel_offset((size - 1 - p) as usize, size)@,
    {
    }

    /// With nothing left to follow no light comes back.
    pub proof fn lemma_no_reflections_left<S: Surface, L: LightSource>(
        &self,
        ray: Ray,
        surface: &S,
        light_source: &L,
    )
        ensures
            self.trace(ray, surface, light_source, 0) is None,
            self.final_color(ray, surface, light_source, 0) == Color::black_spec(),
    {
    }

    /// A ray that meets no surface brings no light back, so the pixel is
    /// black.
    pub proof fn lemma_miss_is_black<S: Surface, L: LightSource>(
        &self,
        ray: Ray,
        surface: &S,
        light_source: &L,
        reflections: nat,
    )
        requires
            surface.hit(ray) is NoIntersection,
        ensures
            self.final_color(ray, surface, light_source, reflections) == Color::black_spec(),
    {
    }

    /// No light arrives at a point in the shadow, whatever the color of
    /// the light: what leaves the point is the mirrored light alone, times
    /// the intensity and tinted by the base color. Where nothing is
    /// mirrored either, every channel of it is zero.
    pub proof fn lemma_shadow(
        material: Material,
        light_color: Color,
        mirrored: Color,
        intensity: Scalar,
    )
        ensures
            Camera::received(light_color, false) == Color::zero_spec(),
            Camera::shaded(material, Camera::received(light_color, false), mirrored, intensity)
                == Color::white_spec().mixed_with(material.color).mixed_with(
                mirrored.times(intensity),
            ),
            Camera::shaded(
                material,
                Camera::received(light_color, false),
                Color::zero_spec(),
                intensity,
            ) == Color::zero_spec(),
    {
        Camera::lemma_mix_of_two(material.color, mirrored.times(intensity));
        Camera::lemma_mix_of_two(material.color, Color::zero_spec().times(intensity));
        assert(Color::zero_spec().plus(mirrored) == mirrored);
        assert(Color::zero_spec().plus(Color::zero_spec()) == Color::zero_spec());
        intensity.lemma_times_zero();
        assert(Color::zero_spec().times(intensity) == Color::zero_spec());
        let lit: Color = Color::white_spec().mixed_with(material.color);
        lit.red.lemma_times_zero();
        lit.green.lemma_times_zero();
        lit.blue.lemma_times_zero();
        lit.alpha.lemma_times_zero();
    }

    /// In full white light, with nothing mirrored and an intensity of
    /// one, a surface shows its base color as it is.
    pub proof fn lemma_full_light_shows_the_base_color(material: Material)
        ensures
            Camera::received(Color::white_spec(), true) == Color::white_spec(),
            Camera::shaded(
                material,
                Camera::received(Color::white_spec(), true),
                Color::zero_spec(),
                Scalar::one_spec(),
            ) == material.color,
    {
        let one: Scalar = Scalar::one_spec();
        one.lemma_times_one();
        material.color.red.lemma_times_one();
        material.color.green.lemma_times_one();
        material.color.blue.lemma_times_one();
        material.color.alpha.lemma_times_one();
        assert(Color::white_spec().times(one) == Color::white_spec());
        assert(Color::white_spec().plus(Color::zero_spec()) == Color::white_spec());
        Camera::lemma_mix_of_two(material.color, Color::white_spec());
    }

    /// The product of two colors, written out.
    pub proof fn lemma_mix_of_two(a: Color, b: Color)
        ensures
            Color::mix_spec(seq![a, b]) == Color::white_spec().mixed_with(a).mixed_with(b),
    {
        let both: Seq<Color> = seq![a, b];
        assert(both.drop_last() =~= seq![a]);
        assert(seq![a].drop_last() =~= Seq::<Color>::empty());
        assert(Color::mix_spec(seq![a]) == Color::white_spec().mixed_with(a)) by {
            reveal_with_fuel(Color::mix_spec, 2);
        }
    }

    /// The same scene gives the same picture: two screens of one size that
    /// were painted by one camera from one surface and one light hold the
    /// same pixels and are written as the same text.
    pub proof fn lemma_same_scene_same_picture<S: Surface, L: LightSource>(
        &self,
        surface: &S,
        light_source: &L,
        first: Screen,
        second: Screen,
    )
        requires
            first.width() == second.width(),
            first.height() == second.height(),
            first@ == self.frame(
                surface,
                light_source,
                first.width() as usize,
                first.height() as usize,
            ),
            second@ == self.frame(
                surface,
                light_source,
                second.width() as usize,
                second.height() as usize,
            ),
        ensures
            first@ == second@,
            first.pbm_spec() == second.pbm_spec(),
    {
    }

    /// The camera at a position with a hint of what is up, a direction to
    /// look in, a focal length and the size of its sensor.
    pub fn from(
        position: Vector,
        up_direction: Vector,
        look_direction: Vector,
        focal_length: Scalar,
        sensor_size: Vector,
    ) -> (r: Option<Camera>)
        ensures
            r == Camera::from_spec(
                position,
                up_direction,
                look_direction,
                focal_length,
                sensor_size,
            ),
            r is None <==> look_direction.negated().is_zero_approx_spec()
                || up_direction.is_zero_approx_spec(),
    {
        let basis: Basis = match Basis::from_wv(look_direction.neg(), up_direction) {
            Some(b) => b,
            None => {
                return None;
            },
        };
        let sensor_extents: Vector = sensor_size / Scalar::from_int(2);
        Some(Camera { basis, position, focal_length, sensor_extents })
    }

    /// How many half pixels a pixel lies from the middle.
    fn offset_of(p: usize, size: usize) -> (r: Scalar)
        ensures
            r == Camera::pixel_offset(p, size),
    {
        Scalar::from_wide(2 * (p as i128) - (size as i128) + 1)
    }

    /// Where a pixel lies in space.
    #[verifier::when_used_as_spec(pixel_world_position_at_spec)]
    pub fn pixel_world_position_at(
        &self,
        x: usize,
        y: usize,
        width: usize,
        height: usize,
        pixel_extents: Vector,
    ) -> (r: Vector)
        ensures
            r == self.pixel_world_position_at_spec(x, y, width, height, pixel_extents),
    {
        self.position - self.basis.u * pixel_extents.x * Camera::offset_of(x, width) - self.basis.v
            * pixel_extents.y * Camera::offset_of(y, height) - self.basis.w * self.focal_length
    }

    /// Half the size of one pixel on the sensor.
    fn pixel_extents_of(&self, width: usize, height: usize) -> (r: Vector)
        requires
            width > 0,
            height > 0,
        ensures
            r == self.pixel_extents(width, height),
    {
        Vector::from(
            self.sensor_extents.x / Scalar::from_wide(width as i128),
            self.sensor_extents.y / Scalar::from_wide(height as i128),
            Scalar::zero(),
        )
    }

    /// The color of one pixel of a picture of `width` by `height` pixels,
    /// neither of them zero.
    pub fn render_pixel<S: Surface, L: LightSource>(
        &self,
        x: usize,
        y: usize,
        width: usize,
        height: usize,
        surface: &S,
        light_source: &L,
    ) -> (r: Color)
        requires
            width > 0,
            height > 0,
        ensures
            r == self.pixel_color(x, y, width, height, surface, light_source),
    {
        let pixel_extents: Vector = self.pixel_extents_of(width, height);
        let pixel_position: Vector = self.pixel_world_position_at(
            x,
            y,
            width,
            height,
            pixel_extents,
        );
        match Ray::from_points(self.position, pixel_position) {
            Some(ray) => self.get_final_color_from_ray(ray, surface, light_source, REFLECTIONS),
            None => Color::black(),
        }
    }

    /// Paints the whole picture on `screen`.
    pub fn print_to_screen<S: Surface, L: LightSource>(
        &self,
        surface: &S,
        light_source: &L,
        screen: &mut Screen,
    )
        requires
            old(screen).well_formed(),
        ensures
            final(screen).well_formed(),
            final(screen).width() == old(screen).width(),
            final(screen).height() == old(screen).height(),
            final(screen)@ == self.frame(
                surface,
                light_source,
                old(screen).width() as usize,
                old(screen).height() as usize,
            ),
    {
        let (width, height) = screen.resolution();
        let ghost picture: Seq<Color> = self.frame(surface, light_source, width, height);
        proof {
            screen.lemma_pixel_count();
        }
        if width == 0 || height == 0 {
            assert(width * height == 0) by (nonlinear_arith)
                requires
                    width == 0 || height == 0,
            ;
            assert(screen@ =~= picture);
            return;
        }
        let mut positions: ScreenPixelPositions = screen.pixel_positions();
        let mut current: Option<(usize, usize)> = positions.next();
        let ghost mut painted: int = 0;
        while current.is_some()
            invariant
                width > 0,
                height > 0,
                screen.well_formed(),
                screen.width() == width,
                screen.height() == height,
                screen@.len() == width * height,
                picture == self.frame(surface, light_source, width, height),
                positions.width == width,
                positions.height == height,
                0 <= painted <= width * height,
                current matches Some((x, y)) ==> x < width && y < height && painted == width * y + x
                    && positions.x == x + 1 && positions.y == y,
                current is None ==> painted == width * height,
                forall|i: int| 0 <= i < painted ==> screen@[i] == picture[i],
            decreases width * height - painted,
        {
            let (x, y) = current.unwrap();
            let color: Color = self.render_pixel(x, y, width, height, surface, light_source);
            proof {
                lemma_position_of_index(width as int, x as int, y as int);
                lemma_index_in_grid(width as int, height as int, x as int, y as int);
                assert(width * (y + 1) == width * y + width) by (nonlinear_arith);
                assert(width * (y + 1) <= width * height) by (nonlinear_arith)
                    requires
                        y + 1 <= height,
                        width > 0,
                ;
            }
            let _ = screen.paint_at(x, y, color);
            current = positions.next();
            proof {
                painted = painted + 1;
            }
        }
        assert(screen@ =~= picture);
    }

    /// The color seen along a ray that is followed over at most
    /// `reflections` surfaces.
    pub fn get_final_color_from_ray<S: Surface, L: LightSource>(
        &self,
        ray: Ray,
        surface: &S,
        light_source: &L,
        reflections: u8,
    ) -> (r: Color)
        ensures
            r == self.final_color(ray, surface, light_source, reflections as nat),
    {
        match self.get_final_ray(ray, surface, light_source, reflections) {
            Some(ray) => ray.color,
            None => Color::black(),
        }
    }

    /// The light that comes back along a ray that is followed over at most
    /// `reflections` surfaces.
    pub fn get_final_ray<S: Surface, L: LightSource>(
        &self,
        ray: Ray,
        surface: &S,
        light_source: &L,
        reflections: u8,
    ) -> (r: Option<LightRay>)
        ensures
            r == self.trace(ray, surface, light_source, reflections as nat),
        decreases reflections,
    {
        if reflections == 0 {
            return None;
        }
        match surface.intersect_with_ray(ray) {
            RayIntersectionResult::Intersected { surface_material, surface_normal, t } => {
                let reflection_point: Vector = ray.point_at(t);
                let direction_from_camera: Vector = (reflection_point
                    - self.position).normalized_or_zero();
                let to_light: Vector = light_source.get_light_direction_from(reflection_point).neg();
                let light_multiplier: Scalar = match Ray::from(reflection_point, to_light) {
                    Some(ray_to_light) => match surface.intersect_with_ray(ray_to_light) {
                        RayIntersectionResult::NoIntersection => Scalar::one(),
                        _ => Scalar::zero(),
                    },
                    None => Scalar::zero(),
                };
                let diffuse_multiplier: Scalar = surface_material.diffuse_coefficient
                    * surface_normal.dot(to_light).max(Scalar::zero());
                let bisector: Vector = (direction_from_camera.neg()
                    + to_light.normalized_or_zero()).normalized_or_zero();
                let specular_multiplier: Scalar = surface_material.specular_coefficient
                    * bisector.dot(surface_normal).max(Scalar::zero()).powi(
                    surface_material.shininess_coefficient,
                );
                let received_color: Color = light_source.get_light_color() * light_multiplier;
                let reflection_color: Color = match Ray::from(
                    reflection_point,
                    direction_from_camera.reflected(surface_normal),
                ) {
                    Some(reflection_ray) => match self.get_final_ray(
                        reflection_ray,
                        surface,
                        light_source,
                        reflections - 1,
                    ) {
                        Some(light_ray) => light_ray.color
                            * surface_material.mirror_reflection_coefficient,
                        None => Color::zero(),
                    },
                    None => Color::zero(),
                };
                let parts: Vec<Color> = vec![
                    surface_material.color,
                    (received_color + reflection_color) * (diffuse_multiplier
                        + specular_multiplier),
                ];
                assert(parts@ =~= seq![
                    surface_material.color,
                    received_color.plus(reflection_color).times(
                        diffuse_multiplier.plus(specular_multiplier),
                    ),
                ]);
                LightRay::from(reflection_point, ray.direction.neg(), Color::mix_of(parts))
            },
            RayIntersectionResult::NoIntersection => None,
        }
    }
}

} // verus!
