use raytracer::color::Color;
use raytracer::light_ray::LightRay;
use raytracer::material::Material;
use raytracer::ray::Ray;
use raytracer::scalar::Scalar;
use raytracer::text::{decimal_text, padded_text, signed_decimal_text};
use raytracer::vector::Vector;

fn s(raw: i64) -> Scalar {
    Scalar { raw }
}

fn milli(red: i64, green: i64, blue: i64, alpha: i64) -> Color {
    Color::from(s(red * 1_000_000), s(green * 1_000_000), s(blue * 1_000_000), s(alpha * 1_000_000))
}

#[test]
fn named_colors() {
    assert_eq!(Color::white(), milli(1000, 1000, 1000, 1000));
    assert_eq!(Color::black(), milli(0, 0, 0, 1000));
    assert_eq!(Color::zero(), milli(0, 0, 0, 0));
}

#[test]
fn medium_of_nothing_is_zero() {
    assert_eq!(Color::medium_of(vec![]), Color::zero());
}

#[test]
fn medium_is_the_average() {
    let colors = vec![milli(1000, 0, 500, 1000), milli(0, 0, 250, 1000), milli(500, 300, 0, 1000)];
    assert_eq!(Color::medium_of(colors), milli(500, 100, 250, 1000));
    assert_eq!(Color::medium_of(vec![milli(1, 2, 3, 4)]), milli(1, 2, 3, 4));
}

#[test]
fn medium_rounds_toward_zero_and_does_not_overflow() {
    let one_step = Color::from(s(1), s(-1), s(2), s(0));
    let none = Color::zero();
    assert_eq!(Color::medium_of(vec![one_step, none]), Color::from(s(0), s(0), s(1), s(0)));
    let most = Color::from(s(i64::MAX), s(i64::MIN), s(i64::MAX), s(i64::MIN));
    assert_eq!(Color::medium_of(vec![most, most, most]), most);
}

#[test]
fn mix_of_nothing_is_white() {
    assert_eq!(Color::mix_of(vec![]), Color::white());
}

#[test]
fn mix_multiplies_the_channels() {
    let colors = vec![milli(500, 1000, 250, 1000), milli(500, 300, 2000, 1000)];
    assert_eq!(Color::mix_of(colors), milli(250, 300, 500, 1000));
    assert_eq!(Color::mix_of(vec![milli(1, 2, 3, 4)]), milli(1, 2, 3, 4));
}

#[test]
fn inverse_keeps_the_opacity() {
    assert_eq!(milli(250, 1000, 0, 700).inverse(), milli(750, 0, 1000, 700));
    assert_eq!(milli(1500, 0, 0, 0).inverse(), milli(-500, 1000, 1000, 0));
}

#[test]
fn pixel_text_is_truncated_and_capped() {
    assert_eq!(milli(1000, 500, 0, 1000).as_pbm_color(), "255 127 0");
    assert_eq!(milli(2000, 999, 4, 1000).as_pbm_color(), "255 254 1");
    assert_eq!(milli(-500, 3, 1000, 0).as_pbm_color(), "0 0 255");
    assert_eq!(Color::from(s(i64::MAX), s(i64::MIN), s(3_921_569), s(0)).as_pbm_color(), "255 0 1");
    assert_eq!(Color::from(s(0), s(0), s(3_921_568), s(0)).as_pbm_color(), "0 0 0");
}

#[test]
fn decimal_text_of_numbers() {
    assert_eq!(decimal_text(0), "0");
    assert_eq!(decimal_text(7), "7");
    assert_eq!(decimal_text(10), "10");
    assert_eq!(decimal_text(1920), "1920");
    assert_eq!(decimal_text(u64::MAX), "18446744073709551615");
}

#[test]
fn text_of_numbers_with_sign_and_with_zeros_in_front() {
    assert_eq!(signed_decimal_text(0), "0");
    assert_eq!(signed_decimal_text(-1), "-1");
    assert_eq!(signed_decimal_text(255), "255");
    assert_eq!(signed_decimal_text(-18446744073709551615), "-18446744073709551615");
    assert_eq!(padded_text(7, 3), "007");
    assert_eq!(padded_text(1234, 3), "234");
    assert_eq!(padded_text(5, 0), "");
}

#[test]
fn text_of_scalars_vectors_and_colors() {
    assert_eq!(Scalar::zero().to_text(), "0.000000000");
    assert_eq!(s(1_500_000_000).to_text(), "1.500000000");
    assert_eq!(s(-1).to_text(), "-0.000000001");
    assert_eq!(s(i64::MAX).to_text(), "9223372036.854775807");
    assert_eq!(s(i64::MIN).to_text(), "-9223372036.854775808");
    let v = Vector::from(s(1_000_000_000), s(-2_250_000_000), s(0));
    assert_eq!(v.to_text(), "(1.000000000, -2.250000000, 0.000000000)");
    assert_eq!(milli(1000, 500, 0, 1000).to_text(), "255 127 0");
    assert_eq!(milli(2000, -500, 4, 1000).to_text(), "510 -127 1");
}

#[test]
fn color_sum_has_no_floor() {
    assert_eq!(milli(100, 200, 300, 400) + milli(1, 2, 3, 4), milli(101, 202, 303, 404));
    assert_eq!(milli(100, 0, 0, 0) + milli(-300, 0, 0, 0), milli(-200, 0, 0, 0));
}

#[test]
fn color_difference_stops_at_zero() {
    assert_eq!(milli(100, 200, 300, 400) - milli(50, 200, 400, 0), milli(50, 0, 0, 400));
}

#[test]
fn color_scaling_stops_at_zero() {
    assert_eq!(milli(100, 200, 300, 400) * s(500_000_000), milli(50, 100, 150, 200));
    assert_eq!(milli(100, 200, 300, 400) * s(-500_000_000), Color::zero());
    assert_eq!(milli(100, -200, 300, 400) * Scalar::zero(), Color::zero());
    assert_eq!(milli(100, 200, 300, 400) / Scalar::from_int(4), milli(25, 50, 75, 100));
    assert_eq!(milli(100, -200, 300, 400) / Scalar::from_int(-4), milli(0, 50, 0, 0));
}

#[test]
fn material_keeps_its_properties() {
    let material = Material::from(milli(1, 2, 3, 4), s(5), s(6), 7, s(8));
    assert_eq!(material.color, milli(1, 2, 3, 4));
    assert_eq!(material.diffuse_coefficient, s(5));
    assert_eq!(material.specular_coefficient, s(6));
    assert_eq!(material.shininess_coefficient, 7);
    assert_eq!(material.mirror_reflection_coefficient, s(8));
}

#[test]
fn light_ray_needs_a_direction() {
    let start = Vector::from(s(1), s(2), s(3));
    let along = Vector::from(Scalar::zero(), Scalar::from_int(-2), Scalar::zero());
    let light = LightRay::from(start, along, Color::white()).unwrap();
    assert_eq!(light.ray, Ray::from(start, along).unwrap());
    assert_eq!(light.ray.direction, Vector::from(s(0), s(-1_000_000_000), s(0)));
    assert_eq!(light.color, Color::white());
    assert_eq!(LightRay::from(start, Vector::zero(), Color::white()), None);
    assert_eq!(LightRay::from(start, Vector::from(s(10), s(0), s(0)), Color::white()), None);
    assert!(LightRay::from(start, Vector::from(s(15), s(0), s(0)), Color::white()).is_some());
    let ray = Ray::from(start, along).unwrap();
    assert_eq!(LightRay::from_ray(ray, Color::black()), LightRay { ray, color: Color::black() });
}
