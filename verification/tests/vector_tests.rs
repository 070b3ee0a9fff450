use raytracer::basis::Basis;
use raytracer::ray::Ray;
use raytracer::scalar::Scalar;
use raytracer::vector::{Vector, MAGNIFIER, NEGLIGIBLE, SHORT};

fn s(raw: i64) -> Scalar {
    Scalar { raw }
}

fn whole(x: i64, y: i64, z: i64) -> Vector {
    Vector::from(Scalar::from_int(x), Scalar::from_int(y), Scalar::from_int(z))
}

fn raw(x: i64, y: i64, z: i64) -> Vector {
    Vector::from(s(x), s(y), s(z))
}

#[test]
fn dot_is_rounded_once() {
    assert_eq!(whole(1, 2, 3).dot(whole(4, -5, 6)), Scalar::from_int(12));
    // 0.5 steps three times over: the exact sum is 1.5 steps
    let half = s(500_000_000);
    assert_eq!(raw(1, 1, 1).dot(Vector::from(half, half, half)), s(1));
    assert_eq!(raw(-1, -1, -1).dot(Vector::from(half, half, half)), s(-1));
}

#[test]
fn dot_clamps_at_the_ends() {
    let big = raw(i64::MIN, i64::MIN, i64::MIN);
    assert_eq!(big.dot(big), s(i64::MAX));
    assert_eq!(big.dot(raw(i64::MAX, i64::MAX, i64::MAX)), s(i64::MIN));
}

#[test]
fn cross_follows_the_right_hand() {
    assert_eq!(whole(1, 0, 0).cross(whole(0, 1, 0)), whole(0, 0, 1));
    assert_eq!(whole(0, 1, 0).cross(whole(1, 0, 0)), whole(0, 0, -1));
    assert_eq!(whole(1, 2, 3).cross(whole(4, 5, 6)), whole(-3, 6, -3));
    assert_eq!(whole(2, 4, 6).cross(whole(1, 2, 3)), Vector::zero());
}

#[test]
fn reflection_about_an_axis_of_the_frame() {
    let v = whole(3, -4, 5);
    assert_eq!(v.reflected(whole(0, 1, 0)), whole(3, 4, 5));
    assert_eq!(v.reflected(whole(0, 1, 0)).reflected(whole(0, 1, 0)), v);
    assert_eq!(v.reflected(whole(0, 0, -1)), whole(3, -4, -5));
    assert_eq!(v.reflected(whole(0, 0, -1)).reflected(whole(0, 0, -1)), v);
}

#[test]
fn reflection_twice_about_a_slanted_axis_returns_nearly() {
    let axis = whole(1, 2, 2).normalized().unwrap();
    let v = whole(1, 0, 0);
    let back = v.reflected(axis).reflected(axis);
    assert!((back.x.raw - v.x.raw).abs() <= 116);
    assert!((back.y.raw - v.y.raw).abs() <= 116);
    assert!((back.z.raw - v.z.raw).abs() <= 116);
    // the mirror image itself: v - 2 (v . a) a with a = (1, 2, 2) / 3
    let once = v.reflected(axis);
    assert!((once.x.raw - 777_777_778).abs() <= 4);
    assert!((once.y.raw + 444_444_444).abs() <= 4);
    assert!((once.z.raw + 444_444_444).abs() <= 4);
}

#[test]
fn lengths() {
    assert_eq!(whole(3, 4, 0).length_squared(), Scalar::from_int(25));
    assert_eq!(whole(3, 4, 0).length(), Scalar::from_int(5));
    assert_eq!(whole(1, 1, 0).length(), s(1_414_213_562));
    assert_eq!(Vector::zero().length(), Scalar::zero());
    // the length is exact to the step even where the squared length is not
    assert_eq!(raw(3, 4, 0).length_squared(), s(0));
    assert_eq!(raw(3, 4, 0).length(), s(5));
    let big = raw(i64::MAX, i64::MAX, i64::MAX);
    assert_eq!(big.length(), s(i64::MAX));
    assert_eq!(big.length_squared(), s(i64::MAX));
}

#[test]
fn normalized_has_length_one() {
    assert_eq!(whole(0, 0, 30).normalized(), Some(whole(0, 0, 1)));
    assert_eq!(whole(3, 4, 0).normalized(), Some(raw(600_000_000, 800_000_000, 0)));
    assert_eq!(whole(-3, 0, -4).normalized(), Some(raw(-600_000_000, 0, -800_000_000)));
    let unit = whole(1, 1, 1).normalized().unwrap();
    assert_eq!(unit, raw(577_350_269, 577_350_269, 577_350_269));
    let length = unit.length().raw;
    assert!(1_000_000_000 - 4 <= length && length <= 1_000_000_000);
}

#[test]
fn normalized_times_length_is_the_vector() {
    let v = whole(1, -2, 3);
    let length = v.length();
    let back = v.normalized().unwrap() * length;
    for (was, is) in [(v.x, back.x), (v.y, back.y), (v.z, back.z)] {
        assert!(is.raw.abs() <= was.raw.abs());
        assert!(was.raw.abs() - is.raw.abs() <= length.raw / 1_000_000_000 + 1);
        assert!(was.raw.signum() == is.raw.signum());
    }
}

#[test]
fn only_the_zero_vector_has_no_direction() {
    assert_eq!(Vector::zero().normalized(), None);
    assert_eq!(Vector::zero().normalized_or_zero(), Vector::zero());
    assert_eq!(raw(0, 1, 0).normalized(), Some(whole(0, 1, 0)));
    assert_eq!(raw(0, -1, 0).normalized_or_zero(), whole(0, -1, 0));
}

#[test]
fn zero_approx_goes_by_the_exact_squared_length() {
    assert_eq!(NEGLIGIBLE, 222);
    assert!(Vector::zero().is_zero_approx());
    // a hundred millionth of a unit
    assert!(raw(10, 0, 0).is_zero_approx());
    // a ten millionth of a unit
    assert!(!raw(100, 0, 0).is_zero_approx());
    // squared lengths of 196, 222, 225 and 227 squared steps
    assert!(raw(14, 0, 0).is_zero_approx());
    assert!(raw(14, 5, -1).is_zero_approx());
    assert!(!raw(15, 0, 0).is_zero_approx());
    assert!(!raw(-9, 11, 5).is_zero_approx());
    assert!(!whole(0, 0, -1).is_zero_approx());
    assert!(!raw(i64::MIN, i64::MAX, i64::MIN).is_zero_approx());
}

#[test]
fn short_vectors_are_scaled_to_length_one_too() {
    assert_eq!(raw(1, 1, 1).normalized(), Some(raw(577_350_269, 577_350_269, 577_350_269)));
    assert_eq!(raw(40_000, 40_000, 0).normalized(), Some(raw(707_106_781, 707_106_781, 0)));
    assert_eq!(raw(-3, 0, 4).normalized(), Some(raw(-600_000_000, 0, 800_000_000)));
    assert_eq!(raw(SHORT, 0, 0).normalized(), Some(whole(1, 0, 0)));
    assert_eq!(raw(SHORT + 1, 0, 0).normalized(), Some(whole(1, 0, 0)));
    assert_eq!(MAGNIFIER, 1 << 32);
    for v in [raw(1, 1, 1), raw(1, 0, 0), raw(7, -300, 12), raw(SHORT, SHORT, -SHORT),
        raw(SHORT + 1, 5, 0), whole(3, -4, 12), raw(i64::MAX, i64::MIN, i64::MAX)]
    {
        let length = v.normalized().unwrap().length().raw;
        assert!(1_000_000_000 - 4 <= length && length <= 1_000_000_000, "{:?}", v);
    }
}

#[test]
fn longest_vectors_are_scaled_to_length_one_too() {
    let most = raw(i64::MAX, i64::MAX, i64::MAX);
    assert_eq!(most.length(), s(i64::MAX));
    assert_eq!(most.normalized(), Some(raw(577_350_269, 577_350_269, 577_350_269)));
    assert_eq!(raw(i64::MIN, 0, 0).normalized(), Some(whole(-1, 0, 0)));
}

#[test]
fn rotation_by_a_quarter_turn() {
    let (sin, cos) = (Scalar::one(), Scalar::zero());
    assert_eq!(whole(1, 0, 0).rotated(sin, cos, whole(0, 0, 5)), whole(0, 1, 0));
    assert_eq!(whole(0, 1, 0).rotated(sin, cos, whole(0, 0, 5)), whole(-1, 0, 0));
    assert_eq!(whole(0, 0, 7).rotated(sin, cos, whole(0, 0, 5)), whole(0, 0, 7));
    assert_eq!(whole(0, 0, 1).rotated(sin, cos, whole(2, 0, 0)), whole(0, -1, 0));
}

#[test]
fn rotation_about_no_axis_scales_by_the_cosine() {
    let half = s(500_000_000);
    assert_eq!(
        whole(2, 4, 6).rotated(s(866_025_403), half, Vector::zero()),
        whole(1, 2, 3)
    );
}

#[test]
fn vector_operators() {
    assert_eq!(whole(1, 2, 3) + whole(10, 20, 30), whole(11, 22, 33));
    assert_eq!(whole(1, 2, 3) - whole(10, 20, 30), whole(-9, -18, -27));
    assert_eq!(-whole(1, -2, 3), whole(-1, 2, -3));
    assert_eq!(whole(1, -2, 3) * s(500_000_000), raw(500_000_000, -1_000_000_000, 1_500_000_000));
    assert_eq!(whole(16, 9, 0) / Scalar::from_int(2), raw(8_000_000_000, 4_500_000_000, 0));
}

#[test]
fn basis_of_a_camera_that_looks_along_z() {
    let basis = Basis::from_wv(whole(0, 0, -1), whole(0, 1, 0)).unwrap();
    assert_eq!(basis.w, whole(0, 0, -1));
    assert_eq!(basis.u, whole(-1, 0, 0));
    assert_eq!(basis.v, whole(0, 1, 0));
}

#[test]
fn basis_scales_its_vectors() {
    let basis = Basis::from_wv(whole(0, 0, 8), whole(0, 3, 3)).unwrap();
    assert_eq!(basis.w, whole(0, 0, 1));
    assert_eq!(basis.u, whole(1, 0, 0));
    assert_eq!(basis.v, whole(0, 1, 0));
}

#[test]
fn slanted_basis_is_square_within_the_rounding() {
    let basis = Basis::from_wv(whole(1, 2, 2), whole(0, 1, 0)).unwrap();
    let one = 1_000_000_000i64;
    // w is (1, 2, 2) / 3, rounded toward zero
    assert_eq!(basis.w, raw(333_333_333, 666_666_666, 666_666_666));
    for direction in [basis.u, basis.v, basis.w] {
        let exact = |c: Scalar| (c.raw as i128) * (c.raw as i128);
        let squared = exact(direction.x) + exact(direction.y) + exact(direction.z);
        let off = squared - (one as i128) * (one as i128);
        assert!(off.abs() <= 3 * 8 * one as i128);
    }
    assert!(basis.u.dot(basis.w).raw.abs() <= 6);
    assert!(basis.v.dot(basis.w).raw.abs() <= 3);
    assert!(basis.v.dot(basis.u).raw.abs() <= 3);
    // u = (0, 1, 0) x w, scaled: (2, 0, -1) / sqrt(5)
    assert!((basis.u.x.raw - 894_427_190).abs() <= 4);
    assert_eq!(basis.u.y.raw, 0);
    assert!((basis.u.z.raw + 447_213_595).abs() <= 4);
}

#[test]
fn basis_needs_two_directions() {
    assert_eq!(Basis::from_wv(Vector::zero(), whole(0, 1, 0)), None);
    assert_eq!(Basis::from_wv(whole(0, 0, 1), Vector::zero()), None);
    assert_eq!(Basis::from_wv(raw(14, 0, 0), whole(0, 1, 0)), None);
    assert_eq!(Basis::from_wv(whole(0, 0, 1), raw(0, 10, 0)), None);
    assert!(Basis::from_wv(raw(15, 0, 0), whole(0, 1, 0)).is_some());
}

#[test]
fn basis_of_short_vectors_is_square_too() {
    let one = 1_000_000_000i128;
    for (w, v) in [(raw(40_000, 40_000, 0), raw(0, 0, 15)), (raw(3, -20, 7), raw(15, 2, 1)),
        (raw(10, 20, 20), raw(0, 100, 0)), (whole(1, 2, 2), raw(0, 15, 0))]
    {
        let basis = Basis::from_wv(w, v).unwrap();
        for direction in [basis.u, basis.v, basis.w] {
            let exact = |c: Scalar| (c.raw as i128) * (c.raw as i128);
            let squared = exact(direction.x) + exact(direction.y) + exact(direction.z);
            assert!((squared - one * one).abs() <= 3 * 8 * one + 49 * 49, "{:?} {:?}", w, v);
        }
        assert!(basis.u.dot(basis.w).raw.abs() <= 49, "{:?} {:?}", w, v);
        assert!(basis.v.dot(basis.w).raw.abs() <= 3);
        assert!(basis.v.dot(basis.u).raw.abs() <= 3);
    }
    let basis = Basis::from_wv(raw(40_000, 40_000, 0), raw(0, 0, 15)).unwrap();
    assert_eq!(basis.w, raw(707_106_781, 707_106_781, 0));
}

#[test]
fn ray_scales_its_direction() {
    let ray = Ray::from(whole(1, 2, 3), whole(0, 0, 30)).unwrap();
    assert_eq!(ray.starting_point, whole(1, 2, 3));
    assert_eq!(ray.direction, whole(0, 0, 1));
    assert_eq!(Ray::from(whole(1, 2, 3), Vector::zero()), None);
    let short = Ray::from(whole(1, 2, 3), raw(0, 0, 15)).unwrap();
    assert_eq!(short.direction, whole(0, 0, 1));
    let slanted = Ray::from(whole(1, 2, 3), raw(40_000, 40_000, 0)).unwrap();
    assert_eq!(slanted.direction, raw(707_106_781, 707_106_781, 0));
}

#[test]
fn ray_needs_a_direction() {
    let p = whole(1, 2, 3);
    assert_eq!(Ray::from(p, Vector::zero()), None);
    // a hundred millionth of a unit is too short
    assert_eq!(Ray::from(p, raw(10, 0, 0)), None);
    assert_eq!(Ray::from(p, raw(14, 5, 1)), None);
    assert!(Ray::from(p, raw(100, 0, 0)).is_some());
    assert_eq!(Ray::from_points(p, p + raw(0, -14, 0)), None);
    assert!(Ray::from_points(p, p + raw(0, -15, 0)).is_some());
    let ray = Ray::from(p, whole(0, 0, 2)).unwrap();
    assert_eq!((ray.starting_point, ray.direction), (p, whole(0, 0, 1)));
}

#[test]
fn ray_between_two_points() {
    let ray = Ray::from_points(whole(1, 1, 1), whole(1, 4, 5)).unwrap();
    assert_eq!(ray.starting_point, whole(1, 1, 1));
    assert_eq!(ray.direction, raw(0, 600_000_000, 800_000_000));
    assert_eq!(ray.point_at(Scalar::from_int(5)), whole(1, 4, 5));
    assert_eq!(ray.point_at(Scalar::zero()), whole(1, 1, 1));
    assert_eq!(Ray::from_points(whole(1, 1, 1), whole(1, 1, 1)), None);
}
