use raytracer::camera::{Camera, REFLECTIONS};
use raytracer::color::Color;
use raytracer::directional_light::DirectionalLight;
use raytracer::infinite_plane::InfinitePlane;
use raytracer::light_source::LightSource;
use raytracer::material::Material;
use raytracer::multisurface::MultiSurface;
use raytracer::ray::Ray;
use raytracer::scalar::Scalar;
use raytracer::screen::Screen;
use raytracer::sphere::Sphere;
use raytracer::surface::Surface;
use raytracer::vector::Vector;

fn s(raw: i64) -> Scalar {
    Scalar { raw }
}

fn whole(x: i64, y: i64, z: i64) -> Vector {
    Vector::from(Scalar::from_int(x), Scalar::from_int(y), Scalar::from_int(z))
}

fn milli(red: i64, green: i64, blue: i64, alpha: i64) -> Color {
    Color::from(s(red * 1_000_000), s(green * 1_000_000), s(blue * 1_000_000), s(alpha * 1_000_000))
}

fn matte(color: Color) -> Material {
    Material::from(color, Scalar::one(), Scalar::zero(), 1, Scalar::zero())
}

fn mirror(color: Color) -> Material {
    Material::from(color, Scalar::one(), Scalar::zero(), 1, Scalar::one())
}

fn camera_at(position: Vector) -> Camera {
    Camera::from(position, whole(0, 1, 0), whole(0, 0, 1), Scalar::from_int(1), whole(16, 16, 0))
        .unwrap()
}

#[test]
fn camera_looks_against_w() {
    let camera = Camera::from(
        whole(1, 2, 3),
        whole(0, 1, 0),
        whole(0, 0, 1),
        Scalar::from_int(8),
        whole(16, 9, 0),
    ).unwrap();
    assert_eq!(camera.position, whole(1, 2, 3));
    assert_eq!(camera.focal_length, Scalar::from_int(8));
    assert_eq!(camera.sensor_extents, Vector::from(Scalar::from_int(8), s(4_500_000_000), s(0)));
    assert_eq!(camera.basis.w, whole(0, 0, -1));
    assert_eq!(camera.basis.u, whole(-1, 0, 0));
    assert_eq!(camera.basis.v, whole(0, 1, 0));
}

#[test]
fn camera_needs_two_directions() {
    let one = Scalar::one();
    assert_eq!(Camera::from(whole(0, 0, 0), Vector::zero(), whole(0, 0, 1), one, whole(1, 1, 0)), None);
    assert_eq!(Camera::from(whole(0, 0, 0), whole(0, 1, 0), Vector::zero(), one, whole(1, 1, 0)), None);
}

#[test]
fn pixels_lie_evenly_about_the_axis() {
    let camera = camera_at(whole(0, 0, 0));
    let extents = whole(1, 2, 0);
    // 3 by 3 pixels: the offsets are -2, 0 and 2 half pixels
    assert_eq!(camera.pixel_world_position_at(1, 1, 3, 3, extents), whole(0, 0, 1));
    assert_eq!(camera.pixel_world_position_at(0, 0, 3, 3, extents), whole(-2, 4, 1));
    assert_eq!(camera.pixel_world_position_at(2, 2, 3, 3, extents), whole(2, -4, 1));
    // 2 by 4 pixels: the offsets are -1 and 1, and -3, -1, 1 and 3
    assert_eq!(camera.pixel_world_position_at(0, 3, 2, 4, extents), whole(-1, -6, 1));
    assert_eq!(camera.pixel_world_position_at(1, 0, 2, 4, extents), whole(1, 6, 1));
}

#[test]
fn light_needs_a_direction() {
    assert!(DirectionalLight::from(Vector::zero(), Color::white()).is_none());
    assert!(DirectionalLight::from(Vector::from(s(0), s(-14), s(0)), Color::white()).is_none());
    let short = DirectionalLight::from(Vector::from(s(0), s(-15), s(0)), Color::white()).unwrap();
    assert_eq!(short.get_light_direction_from(whole(0, 0, 0)), whole(0, -1, 0));
    let light = DirectionalLight::from(whole(0, 0, 7), milli(1, 2, 3, 4)).unwrap();
    assert_eq!(light.get_light_direction_from(whole(0, 0, 0)), whole(0, 0, 1));
    assert_eq!(light.get_light_direction_from(whole(5, -9, 2)), whole(0, 0, 1));
    assert_eq!(light.get_light_color(), milli(1, 2, 3, 4));
}

#[test]
fn nothing_is_seen_without_reflections_or_surfaces() {
    let camera = camera_at(whole(0, 0, 0));
    let light = DirectionalLight::from(whole(0, 0, 1), Color::white()).unwrap();
    let sphere = Sphere::from(whole(0, 0, 30), Scalar::from_int(10), matte(Color::white())).unwrap();
    let ray = Ray::from(whole(0, 0, 0), whole(0, 0, 1)).unwrap();
    assert_eq!(camera.get_final_ray(ray, &sphere, &light, 0), None);
    assert_eq!(camera.get_final_color_from_ray(ray, &sphere, &light, 0), Color::black());
    let away = Ray::from(whole(0, 0, 0), whole(0, 0, -1)).unwrap();
    assert_eq!(camera.get_final_ray(away, &sphere, &light, 3), None);
    assert_eq!(camera.get_final_color_from_ray(away, &sphere, &light, 3), Color::black());
}

#[test]
fn sphere_lit_head_on_shows_its_own_color() {
    let base = milli(250, 500, 750, 1000);
    let sphere = Sphere::from(whole(0, 0, 30), Scalar::from_int(10), matte(base)).unwrap();
    let light = DirectionalLight::from(whole(0, 0, 1), Color::white()).unwrap();
    let camera = camera_at(whole(0, 0, 0));
    assert_eq!(REFLECTIONS, 3);
    // the pixel in the middle looks at the middle of the sphere
    assert_eq!(camera.render_pixel(1, 1, 3, 3, &sphere, &light), base);
    // the corners look past it
    assert_eq!(camera.render_pixel(0, 0, 3, 3, &sphere, &light), Color::black());
    assert_eq!(camera.render_pixel(2, 0, 3, 3, &sphere, &light), Color::black());
    assert_eq!(camera.render_pixel(0, 2, 3, 3, &sphere, &light), Color::black());
    assert_eq!(camera.render_pixel(2, 2, 3, 3, &sphere, &light), Color::black());
    let ray = Ray::from(whole(0, 0, 0), whole(0, 0, 1)).unwrap();
    let seen = camera.get_final_ray(ray, &sphere, &light, 3).unwrap();
    assert_eq!(seen.ray.starting_point, whole(0, 0, 20));
    assert_eq!(seen.ray.direction, whole(0, 0, -1));
    assert_eq!(seen.color, base);
}

#[test]
fn surface_in_the_shadow_is_dark() {
    let floor = InfinitePlane::from(whole(0, 0, 10), whole(0, 0, -1), matte(Color::white())).unwrap();
    let blocker = Sphere::from(whole(-3, 0, 7), Scalar::one(), matte(Color::white())).unwrap();
    let light = DirectionalLight::from(whole(1, 0, 1), Color::white()).unwrap();
    let camera = camera_at(whole(0, 0, 0));
    let ray = Ray::from(whole(0, 0, 0), whole(0, 0, 1)).unwrap();

    let open = MultiSurface::from(vec![&floor as &dyn Surface]);
    let lit = camera.get_final_ray(ray, &open, &light, 3).unwrap();
    assert_eq!(lit.ray.starting_point, whole(0, 0, 10));
    // the cosine of half a right angle, rounded down at each step
    assert_eq!(lit.color, Color::from(s(707_106_781), s(707_106_781), s(707_106_781), s(707_106_781)));

    let covered = MultiSurface::from(vec![&floor as &dyn Surface, &blocker]);
    let dark = camera.get_final_ray(ray, &covered, &light, 3).unwrap();
    assert_eq!(dark.ray.starting_point, whole(0, 0, 10));
    assert_eq!(dark.color, Color::zero());
}

#[test]
fn light_is_followed_between_two_mirrors_as_far_as_allowed() {
    let base = milli(500, 500, 500, 1000);
    let upper = InfinitePlane::from(whole(0, 0, 10), whole(0, 0, 1), mirror(base)).unwrap();
    let lower = InfinitePlane::from(whole(0, 0, 0), whole(0, 0, 1), mirror(base)).unwrap();
    let mirrors = MultiSurface::from(vec![&upper as &dyn Surface, &lower]);
    // the light travels down; the upper mirror is lit, the lower one lies in its shadow
    let light = DirectionalLight::from(whole(0, 0, -1), Color::white()).unwrap();
    let camera = camera_at(whole(0, 0, 5));
    let ray = Ray::from(whole(0, 0, 5), whole(0, 0, 1)).unwrap();

    assert_eq!(camera.get_final_ray(ray, &mirrors, &light, 0), None);
    // one surface: the upper mirror alone, lit
    let one = camera.get_final_ray(ray, &mirrors, &light, 1).unwrap();
    assert_eq!(one.color, milli(500, 500, 500, 1000));
    // two surfaces: the lower mirror adds nothing, it is dark and mirrors nothing
    let two = camera.get_final_ray(ray, &mirrors, &light, 2).unwrap();
    assert_eq!(two.color, milli(500, 500, 500, 1000));
    // three surfaces: base * (1 + base * base)
    let three = camera.get_final_ray(ray, &mirrors, &light, 3).unwrap();
    assert_eq!(three.color, milli(625, 625, 625, 2000));
    // four surfaces: the fourth is the dark lower mirror again
    let four = camera.get_final_ray(ray, &mirrors, &light, 4).unwrap();
    assert_eq!(four.color, milli(625, 625, 625, 2000));
    // five surfaces: base * (1 + base * base * (1 + base * base))
    let five = camera.get_final_ray(ray, &mirrors, &light, 5).unwrap();
    assert_eq!(five.color, Color::from(s(656_250_000), s(656_250_000), s(656_250_000), s(3_000_000_000)));
    assert_eq!(camera.get_final_color_from_ray(ray, &mirrors, &light, 3), three.color);
    assert_eq!(three.ray.starting_point, whole(0, 0, 10));
    assert_eq!(three.ray.direction, whole(0, 0, -1));
}

#[test]
fn highlight_is_raised_to_the_shininess() {
    // the light comes from behind the camera: the bisector is the normal itself
    let glossy = Material::from(Color::white(), Scalar::zero(), s(500_000_000), 10, Scalar::zero());
    let wall = InfinitePlane::from(whole(0, 0, 10), whole(0, 0, -1), glossy).unwrap();
    let light = DirectionalLight::from(whole(0, 0, 1), milli(1000, 500, 250, 1000)).unwrap();
    let camera = camera_at(whole(0, 0, 0));
    let ray = Ray::from(whole(0, 0, 0), whole(0, 0, 1)).unwrap();
    let seen = camera.get_final_ray(ray, &wall, &light, 3).unwrap();
    assert_eq!(seen.color, milli(500, 250, 125, 500));
}

#[test]
fn picture_is_the_same_each_time() {
    let green = Material::from(milli(0, 1000, 0, 1000), Scalar::one(), Scalar::one(), 10, Scalar::one());
    let gray = Material::from(milli(300, 300, 300, 1000), Scalar::one(), Scalar::one(), 10, Scalar::one());
    let sphere = Sphere::from(whole(0, -5, 30), Scalar::from_int(10), green).unwrap();
    let floor = InfinitePlane::from(whole(0, -4, 0), whole(0, 1, 0), gray).unwrap();
    let world = MultiSurface::from(vec![&sphere as &dyn Surface, &floor]);
    let light = DirectionalLight::from(whole(-1, -1, 0), Color::white()).unwrap();
    let camera = Camera::from(
        whole(0, 0, 0),
        whole(0, 1, 0),
        whole(0, 0, 1),
        Scalar::from_int(8),
        whole(16, 9, 0),
    ).unwrap();
    let mut first = Screen::from(16, 9, Color::black());
    let mut second = Screen::from(16, 9, Color::white());
    camera.print_to_screen(&world, &light, &mut first);
    camera.print_to_screen(&world, &light, &mut second);
    camera.print_to_screen(&world, &light, &mut second);
    let mut lit = 0;
    for y in 0..9 {
        for x in 0..16 {
            let color = first.get_color_at(x, y).unwrap();
            assert_eq!(Some(color), second.get_color_at(x, y));
            assert_eq!(color, camera.render_pixel(x, y, 16, 9, &world, &light));
            if color != Color::black() && color != Color::zero() {
                lit += 1;
            }
        }
    }
    assert!(lit > 0);
    assert_eq!(first.to_pbm(), second.to_pbm());
    assert_eq!(first.resolution(), (16, 9));
}

#[test]
fn picture_of_one_sphere() {
    let base = milli(250, 500, 750, 1000);
    let sphere = Sphere::from(whole(0, 0, 30), Scalar::from_int(10), matte(base)).unwrap();
    let light = DirectionalLight::from(whole(0, 0, 1), Color::white()).unwrap();
    let camera = camera_at(whole(0, 0, 0));
    let mut screen = Screen::from(3, 3, Color::white());
    camera.print_to_screen(&sphere, &light, &mut screen);
    for y in 0..3 {
        for x in 0..3 {
            let expected = if (x, y) == (1, 1) { base } else { Color::black() };
            assert_eq!(screen.get_color_at(x, y), Some(expected));
        }
    }
    assert_eq!(
        screen.to_pbm(),
        "P3\n3 3\n255\n0 0 0\n0 0 0\n0 0 0\n0 0 0\n63 127 191\n0 0 0\n0 0 0\n0 0 0\n0 0 0\n"
    );
}

#[test]
fn empty_picture_is_left_alone() {
    let sphere = Sphere::from(whole(0, 0, 30), Scalar::from_int(10), matte(Color::white())).unwrap();
    let light = DirectionalLight::from(whole(0, 0, 1), Color::white()).unwrap();
    let camera = camera_at(whole(0, 0, 0));
    let mut screen = Screen::from(0, 4, Color::white());
    camera.print_to_screen(&sphere, &light, &mut screen);
    assert_eq!(screen.resolution(), (0, 4));
    assert_eq!(screen.to_pbm(), "P3\n0 4\n255\n");
}

#[test]
fn pixel_in_the_eye_is_black() {
    // without a focal length and without a sensor every pixel lies in the eye
    let camera = Camera::from(
        whole(0, 0, 0),
        whole(0, 1, 0),
        whole(0, 0, 1),
        Scalar::zero(),
        Vector::zero(),
    ).unwrap();
    let sphere = Sphere::from(whole(0, 0, 30), Scalar::from_int(10), matte(Color::white())).unwrap();
    let light = DirectionalLight::from(whole(0, 0, 1), Color::white()).unwrap();
    assert_eq!(camera.render_pixel(1, 1, 3, 3, &sphere, &light), Color::black());
}
