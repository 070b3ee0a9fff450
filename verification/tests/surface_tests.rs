use raytracer::color::Color;
use raytracer::infinite_plane::InfinitePlane;
use raytracer::material::Material;
use raytracer::multisurface::MultiSurface;
use raytracer::ray::Ray;
use raytracer::scalar::Scalar;
use raytracer::sphere::Sphere;
use raytracer::surface::{in_reach, RayIntersectionResult, Surface};
use raytracer::vector::Vector;

fn s(raw: i64) -> Scalar {
    Scalar { raw }
}

fn whole(x: i64, y: i64, z: i64) -> Vector {
    Vector::from(Scalar::from_int(x), Scalar::from_int(y), Scalar::from_int(z))
}

fn matte(red: i64) -> Material {
    Material::from(
        Color::from(Scalar::from_int(red), Scalar::zero(), Scalar::zero(), Scalar::one()),
        Scalar::one(),
        Scalar::zero(),
        1,
        Scalar::zero(),
    )
}

fn hit(material: Material, normal: Vector, t: Scalar) -> RayIntersectionResult {
    RayIntersectionResult::Intersected { surface_material: material, surface_normal: normal, t }
}

#[test]
fn sphere_needs_a_radius() {
    assert!(Sphere::from(whole(0, 0, 0), Scalar::zero(), matte(1)).is_none());
    assert!(Sphere::from(whole(0, 0, 0), Scalar::from_int(-1), matte(1)).is_none());
    assert!(Sphere::from(whole(0, 0, 0), s(1), matte(1)).is_some());
}

#[test]
fn ray_through_the_center_enters_at_the_near_side() {
    let sphere = Sphere::from(whole(0, 0, 30), Scalar::from_int(10), matte(1)).unwrap();
    let ray = Ray::from(whole(0, 0, 0), whole(0, 0, 1)).unwrap();
    assert_eq!(
        sphere.intersect_with_ray(ray),
        hit(matte(1), whole(0, 0, -1), Scalar::from_int(20))
    );
    let farther = Ray::from(whole(0, 0, -5), whole(0, 0, 2)).unwrap();
    assert_eq!(
        sphere.intersect_with_ray(farther),
        hit(matte(1), whole(0, 0, -1), Scalar::from_int(25))
    );
    let sideways = Ray::from(whole(-40, 0, 30), whole(1, 0, 0)).unwrap();
    assert_eq!(
        sphere.intersect_with_ray(sideways),
        hit(matte(1), whole(-1, 0, 0), Scalar::from_int(30))
    );
}

#[test]
fn slanted_ray_aimed_at_the_center_enters_at_the_near_side() {
    // the center lies 30 units away, the sphere is entered after 20
    let sphere = Sphere::from(whole(10, 20, 20), Scalar::from_int(10), matte(1)).unwrap();
    let ray = Ray::from(whole(0, 0, 0), whole(10, 20, 20)).unwrap();
    match sphere.intersect_with_ray(ray) {
        RayIntersectionResult::Intersected { surface_material, surface_normal, t } => {
            assert_eq!(surface_material, matte(1));
            assert!(20_000_000_000 - 187 <= t.raw && t.raw <= 20_000_000_000 + 503, "{:?}", t);
            for (normal, along) in [(surface_normal.x, ray.direction.x),
                (surface_normal.y, ray.direction.y), (surface_normal.z, ray.direction.z)]
            {
                assert!((normal.raw + along.raw).abs() <= 6 * 30 + 22, "{:?}", surface_normal);
            }
            // the point lies on the sphere
            let out = (ray.point_at(t) - whole(10, 20, 20)).length().raw;
            assert!(10_000_000_000 - 503 <= out && out <= 10_000_000_000 + 287, "{}", out);
            let length = surface_normal.length().raw;
            assert!(1_000_000_000 - 4 <= length && length <= 1_000_000_000);
        },
        RayIntersectionResult::NoIntersection => panic!("missed"),
    }
    // from one step and a half outside a sphere about the start of the frame
    let near = Sphere::from(whole(0, 0, 0), Scalar::from_int(3), matte(1)).unwrap();
    let start = Vector::from(s(-2_100_000_000), s(2_100_000_000), s(2_100_000_000));
    let aimed = Ray::from_points(start, whole(0, 0, 0)).unwrap();
    match near.intersect_with_ray(aimed) {
        RayIntersectionResult::Intersected { surface_material: _, surface_normal: _, t } => {
            // the center lies 3.637 units away
            assert!((t.raw - 637_306_696).abs() <= 71, "{:?}", t);
        },
        RayIntersectionResult::NoIntersection => panic!("missed"),
    }
}

#[test]
fn ray_from_inside_leaves_at_the_far_side() {
    let sphere = Sphere::from(whole(0, 0, 30), Scalar::from_int(10), matte(1)).unwrap();
    let ray = Ray::from(whole(0, 0, 30), whole(0, 1, 0)).unwrap();
    assert_eq!(
        sphere.intersect_with_ray(ray),
        hit(matte(1), whole(0, 1, 0), Scalar::from_int(10))
    );
}

#[test]
fn ray_that_starts_on_the_sphere_does_not_meet_it_there() {
    let sphere = Sphere::from(whole(0, 0, 30), Scalar::from_int(10), matte(1)).unwrap();
    let outward = Ray::from(whole(0, 0, 20), whole(0, 0, -1)).unwrap();
    assert_eq!(sphere.intersect_with_ray(outward), RayIntersectionResult::NoIntersection);
    let inward = Ray::from(whole(0, 0, 20), whole(0, 0, 1)).unwrap();
    assert_eq!(
        sphere.intersect_with_ray(inward),
        hit(matte(1), whole(0, 0, 1), Scalar::from_int(20))
    );
}

#[test]
fn ray_away_from_the_sphere_misses() {
    let sphere = Sphere::from(whole(0, 0, 30), Scalar::from_int(10), matte(1)).unwrap();
    let behind = Ray::from(whole(0, 0, 0), whole(0, 0, -1)).unwrap();
    assert_eq!(sphere.intersect_with_ray(behind), RayIntersectionResult::NoIntersection);
    let beside = Ray::from(whole(11, 0, 0), whole(0, 0, 1)).unwrap();
    assert_eq!(sphere.intersect_with_ray(beside), RayIntersectionResult::NoIntersection);
}

#[test]
fn tangent_ray_meets_the_sphere_once() {
    let sphere = Sphere::from(whole(10, 0, 30), Scalar::from_int(10), matte(1)).unwrap();
    let ray = Ray::from(whole(0, 0, 0), whole(0, 0, 1)).unwrap();
    assert_eq!(
        sphere.intersect_with_ray(ray),
        hit(matte(1), whole(-1, 0, 0), Scalar::from_int(30))
    );
}

#[test]
fn ray_without_a_direction_meets_nothing() {
    let sphere = Sphere::from(whole(0, 0, 0), Scalar::from_int(10), matte(1)).unwrap();
    let ray = Ray { starting_point: whole(0, 0, 0), direction: Vector::zero() };
    assert_eq!(sphere.intersect_with_ray(ray), RayIntersectionResult::NoIntersection);
    let plane = InfinitePlane::from(whole(0, -4, 0), whole(0, 1, 0), matte(1)).unwrap();
    assert_eq!(plane.intersect_with_ray(ray), RayIntersectionResult::NoIntersection);
}

#[test]
fn plane_needs_a_normal() {
    assert!(InfinitePlane::from(whole(0, 0, 0), Vector::zero(), matte(1)).is_none());
    assert!(InfinitePlane::from(whole(0, 0, 0), Vector::from(s(10), s(0), s(0)), matte(1)).is_none());
    assert!(InfinitePlane::from(whole(0, 0, 0), Vector::from(s(0), s(15), s(0)), matte(1)).is_some());
    assert!(InfinitePlane::from(whole(0, 0, 0), whole(0, 3, 0), matte(1)).is_some());
    // whatever the length of the normal, the plane keeps it at length one
    let plane = InfinitePlane::from(whole(0, 0, 0), Vector::from(s(0), s(15), s(0)), matte(1)).unwrap();
    let down = Ray::from(whole(0, 2, 0), whole(0, -1, 0)).unwrap();
    assert_eq!(plane.intersect_with_ray(down), hit(matte(1), whole(0, 1, 0), Scalar::from_int(2)));
}

#[test]
fn plane_is_met_ahead_only() {
    let plane = InfinitePlane::from(whole(0, -4, 0), whole(0, 5, 0), matte(2)).unwrap();
    let down = Ray::from(whole(1, 0, 1), whole(0, -1, 0)).unwrap();
    assert_eq!(plane.intersect_with_ray(down), hit(matte(2), whole(0, 1, 0), Scalar::from_int(4)));
    let up = Ray::from(whole(1, 0, 1), whole(0, 1, 0)).unwrap();
    assert_eq!(plane.intersect_with_ray(up), RayIntersectionResult::NoIntersection);
    let from_below = Ray::from(whole(1, -10, 1), whole(0, 1, 0)).unwrap();
    assert_eq!(
        plane.intersect_with_ray(from_below),
        hit(matte(2), whole(0, 1, 0), Scalar::from_int(6))
    );
    let on_it = Ray::from(whole(1, -4, 1), whole(0, 1, 0)).unwrap();
    assert_eq!(plane.intersect_with_ray(on_it), RayIntersectionResult::NoIntersection);
}

#[test]
fn distances_in_reach() {
    assert!(!in_reach(s(0)));
    assert!(!in_reach(s(-1)));
    assert!(in_reach(s(1)));
    assert!(in_reach(s(i64::MAX - 1)));
    assert!(!in_reach(s(i64::MAX)));
}

#[test]
fn what_lies_one_step_ahead_is_met() {
    let plane = InfinitePlane::from(whole(0, 0, 0), whole(0, 0, 1), matte(2)).unwrap();
    let down = whole(0, 0, -1);
    let at = |height: i64| Ray::from(Vector::from(s(0), s(0), s(height)), down).unwrap();
    assert_eq!(plane.intersect_with_ray(at(50_000)), hit(matte(2), whole(0, 0, 1), s(50_000)));
    assert_eq!(plane.intersect_with_ray(at(1)), hit(matte(2), whole(0, 0, 1), s(1)));
    assert_eq!(plane.intersect_with_ray(at(0)), RayIntersectionResult::NoIntersection);
    assert_eq!(plane.intersect_with_ray(at(-1)), RayIntersectionResult::NoIntersection);

    let sphere = Sphere::from(whole(0, 0, -10), Scalar::from_int(10), matte(1)).unwrap();
    assert_eq!(sphere.intersect_with_ray(at(1)), hit(matte(1), whole(0, 0, 1), s(1)));
    // at the surface the ray is met where it leaves
    assert_eq!(
        sphere.intersect_with_ray(at(0)),
        hit(matte(1), whole(0, 0, -1), Scalar::from_int(20))
    );
}

#[test]
fn sphere_is_met_where_the_ray_enters_however_near() {
    let center = Vector::from(s(0), s(0), s(5_000_050_000));
    let sphere = Sphere::from(center, Scalar::from_int(5), matte(1)).unwrap();
    let ray = Ray::from(whole(0, 0, 0), whole(0, 0, 1)).unwrap();
    assert_eq!(sphere.intersect_with_ray(ray), hit(matte(1), whole(0, 0, -1), s(50_000)));
}

#[test]
fn small_sphere_about_the_start_is_met_where_the_ray_leaves() {
    let sphere = Sphere::from(whole(0, 0, 0), s(50_000), matte(1)).unwrap();
    let ray = Ray::from(whole(0, 0, 0), whole(0, 0, 1)).unwrap();
    // the squared radius is two steps and a half, rounded to two, and its root 44 721 steps
    assert_eq!(sphere.intersect_with_ray(ray), hit(matte(1), whole(0, 0, 1), s(44_721)));
}

#[test]
fn plane_too_far_to_tell_is_not_met() {
    let plane = InfinitePlane::from(whole(0, 0, 10), whole(0, 0, 1), matte(1)).unwrap();
    let along = Vector::from(Scalar::one(), Scalar::zero(), s(1));
    let ray = Ray { starting_point: whole(0, 0, 0), direction: along };
    assert_eq!(plane.intersect_with_ray(ray), RayIntersectionResult::NoIntersection);
    // nine units up in a billion along is within the range
    let nearer = InfinitePlane::from(whole(0, 0, 9), whole(0, 0, 1), matte(1)).unwrap();
    assert_eq!(nearer.intersect_with_ray(ray), hit(matte(1), whole(0, 0, 1), s(9_000_000_000_000_000_000)));
}

#[test]
fn ray_along_the_plane_misses() {
    let plane = InfinitePlane::from(whole(0, -4, 0), whole(0, 1, 0), matte(2)).unwrap();
    let above = Ray::from(whole(0, 0, 0), whole(0, 0, 1)).unwrap();
    assert_eq!(plane.intersect_with_ray(above), RayIntersectionResult::NoIntersection);
    let below = Ray::from(whole(0, -9, 0), whole(1, 0, 1)).unwrap();
    assert_eq!(plane.intersect_with_ray(below), RayIntersectionResult::NoIntersection);
    let inside = Ray::from(whole(0, -4, 0), whole(1, 0, 0)).unwrap();
    assert_eq!(plane.intersect_with_ray(inside), RayIntersectionResult::NoIntersection);
}

#[test]
fn nearest_surface_wins() {
    let near = InfinitePlane::from(whole(0, 0, 5), whole(0, 0, -1), matte(1)).unwrap();
    let far = InfinitePlane::from(whole(0, 0, 10), whole(0, 0, 1), matte(2)).unwrap();
    let ray = Ray::from(whole(0, 0, 0), whole(0, 0, 1)).unwrap();
    let expected = hit(matte(1), whole(0, 0, -1), Scalar::from_int(5));
    assert_eq!(near.intersect_with_ray(ray), expected);
    assert_eq!(far.intersect_with_ray(ray), hit(matte(2), whole(0, 0, 1), Scalar::from_int(10)));
    let forth = MultiSurface::from(vec![&near as &dyn Surface, &far]);
    assert_eq!(forth.intersect_with_ray(ray), expected);
    let back = MultiSurface::from(vec![&far as &dyn Surface, &near]);
    assert_eq!(back.intersect_with_ray(ray), expected);
}

#[test]
fn first_of_two_equally_near_surfaces_wins() {
    let one = InfinitePlane::from(whole(0, 0, 5), whole(0, 0, -1), matte(1)).unwrap();
    let other = InfinitePlane::from(whole(0, 0, 5), whole(0, 0, 1), matte(2)).unwrap();
    let ray = Ray::from(whole(0, 0, 0), whole(0, 0, 1)).unwrap();
    let forth = MultiSurface::from(vec![&one as &dyn Surface, &other]);
    assert_eq!(
        forth.intersect_with_ray(ray),
        hit(matte(1), whole(0, 0, -1), Scalar::from_int(5))
    );
    let back = MultiSurface::from(vec![&other as &dyn Surface, &one]);
    assert_eq!(back.intersect_with_ray(ray), hit(matte(2), whole(0, 0, 1), Scalar::from_int(5)));
}

#[test]
fn list_of_no_surfaces_is_never_met() {
    let ray = Ray::from(whole(0, 0, 0), whole(0, 0, 1)).unwrap();
    assert_eq!(
        MultiSurface::from(vec![]).intersect_with_ray(ray),
        RayIntersectionResult::NoIntersection
    );
    let behind = Sphere::from(whole(0, 0, -30), Scalar::from_int(10), matte(1)).unwrap();
    let beside = InfinitePlane::from(whole(5, 0, 0), whole(1, 0, 0), matte(1)).unwrap();
    let list = MultiSurface::from(vec![&behind as &dyn Surface, &beside]);
    assert_eq!(list.intersect_with_ray(ray), RayIntersectionResult::NoIntersection);
}

#[test]
fn lists_can_hold_lists() {
    let sphere = Sphere::from(whole(0, 0, 30), Scalar::from_int(10), matte(1)).unwrap();
    let plane = InfinitePlane::from(whole(0, 0, 25), whole(0, 0, 1), matte(2)).unwrap();
    let inner = MultiSurface::from(vec![&plane as &dyn Surface]);
    let outer = MultiSurface::from(vec![&inner as &dyn Surface, &sphere]);
    let ray = Ray::from(whole(0, 0, 0), whole(0, 0, 1)).unwrap();
    assert_eq!(
        outer.intersect_with_ray(ray),
        hit(matte(1), whole(0, 0, -1), Scalar::from_int(20))
    );
}

#[test]
fn meeting_out_of_range_counts_as_none() {
    // the plane lies so far that the distance is clamped to the end of the range
    let plane = InfinitePlane::from(
        Vector::from(Scalar::zero(), Scalar::zero(), s(i64::MAX)),
        whole(0, 0, 1),
        matte(1),
    ).unwrap();
    let ray = Ray::from(Vector::from(Scalar::zero(), Scalar::zero(), s(-5)), whole(0, 0, 1)).unwrap();
    assert_eq!(plane.intersect_with_ray(ray), RayIntersectionResult::NoIntersection);
    let list = MultiSurface::from(vec![&plane as &dyn Surface]);
    assert_eq!(list.intersect_with_ray(ray), RayIntersectionResult::NoIntersection);
    // a ray whose direction is so short that it would reach the sphere out of range
    let sphere = Sphere::from(whole(0, 0, 1_000_000), Scalar::from_int(10), matte(1)).unwrap();
    let slow = Ray { starting_point: whole(0, 0, 0), direction: Vector::from(s(0), s(0), s(31_623)) };
    assert_eq!(sphere.intersect_with_ray(slow), RayIntersectionResult::NoIntersection);
}
