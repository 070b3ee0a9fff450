use raytracer::scalar::{isqrt, Scalar, SCALE};

fn s(raw: i64) -> Scalar {
    Scalar { raw }
}

#[test]
fn one_counts_a_billion_steps() {
    assert_eq!(SCALE, 1_000_000_000);
    assert_eq!(Scalar::one(), s(1_000_000_000));
    assert_eq!(Scalar::zero(), s(0));
    assert_eq!(Scalar::epsilon(), s(1));
    assert_eq!(Scalar::from_int(30), s(30_000_000_000));
    assert_eq!(Scalar::from_int(-5), s(-5_000_000_000));
}

#[test]
fn from_int_clamps() {
    assert_eq!(Scalar::from_int(i64::MAX), s(i64::MAX));
    assert_eq!(Scalar::from_int(i64::MIN), s(i64::MIN));
    assert_eq!(Scalar::from_wide(1 << 70), s(i64::MAX));
    assert_eq!(Scalar::from_wide(-3), s(-3_000_000_000));
}

#[test]
fn sum_and_difference_clamp() {
    assert_eq!(s(1_500_000_000) + s(2_250_000_000), s(3_750_000_000));
    assert_eq!(s(1_500_000_000) - s(2_250_000_000), s(-750_000_000));
    assert_eq!(s(i64::MAX) + s(1), s(i64::MAX));
    assert_eq!(s(i64::MIN) - s(1), s(i64::MIN));
    assert_eq!(-s(i64::MIN), s(i64::MAX));
    assert_eq!(-s(7), s(-7));
}

#[test]
fn product_rounds_toward_zero() {
    // 1.5 * 2.5 = 3.75
    assert_eq!(s(1_500_000_000) * s(2_500_000_000), s(3_750_000_000));
    // 3 steps * 0.5 = 1.5 steps, rounded toward zero on both sides
    assert_eq!(s(3) * s(500_000_000), s(1));
    assert_eq!(s(-3) * s(500_000_000), s(-1));
    assert_eq!(s(3) * s(-500_000_000), s(-1));
    assert_eq!(s(-3) * s(-500_000_000), s(1));
    assert_eq!(s(i64::MAX) * s(i64::MAX), s(i64::MAX));
    assert_eq!(s(i64::MAX) * s(i64::MIN), s(i64::MIN));
}

#[test]
fn quotient_rounds_toward_zero() {
    // 1 / 3
    assert_eq!(Scalar::one() / Scalar::from_int(3), s(333_333_333));
    assert_eq!(-Scalar::one() / Scalar::from_int(3), s(-333_333_333));
    assert_eq!(Scalar::one() / Scalar::from_int(-3), s(-333_333_333));
    assert_eq!(Scalar::from_int(-1) / Scalar::from_int(-3), s(333_333_333));
    // 8 / 1920
    assert_eq!(Scalar::from_int(8) / Scalar::from_int(1920), s(4_166_666));
    // dividing by one step overflows and clamps
    assert_eq!(s(i64::MAX) / s(1), s(i64::MAX));
    assert_eq!(s(i64::MIN) / s(1), s(i64::MIN));
}

#[test]
fn square_root_rounds_down() {
    assert_eq!(Scalar::from_int(100).sqrt(), Scalar::from_int(10));
    assert_eq!(Scalar::from_int(2).sqrt(), s(1_414_213_562));
    assert_eq!(Scalar::zero().sqrt(), Scalar::zero());
    assert_eq!(s(1).sqrt(), s(31_622));
    assert_eq!(isqrt(0), 0);
    assert_eq!(isqrt(15), 3);
    assert_eq!(isqrt(16), 4);
    assert_eq!(isqrt(u128::MAX), u64::MAX);
}

#[test]
fn powers_multiply_step_by_step() {
    assert_eq!(s(500_000_000).powi(0), Scalar::one());
    assert_eq!(s(500_000_000).powi(1), s(500_000_000));
    assert_eq!(s(500_000_000).powi(3), s(125_000_000));
    assert_eq!(Scalar::from_int(2).powi(10), Scalar::from_int(1024));
    assert_eq!(Scalar::zero().powi(5), Scalar::zero());
    // a power that has reached zero stays there
    assert_eq!(s(1_000).powi(4_000_000_000), Scalar::zero());
    assert_eq!(Scalar::one().powi(100), Scalar::one());
}

#[test]
fn max_picks_the_larger() {
    assert_eq!(s(-4).max(Scalar::zero()), Scalar::zero());
    assert_eq!(s(4).max(Scalar::zero()), s(4));
}
