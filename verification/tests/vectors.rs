use rtlib::error::Error;
use rtlib::point3::Point3;
use rtlib::ray::Ray;
use rtlib::scalar::{Fixed, SCALE};
use rtlib::vec3::Vec3;

fn fx(x: f64) -> Fixed {
    Fixed::from_raw((x * 1e9).round() as i64)
}

fn v(x: f64, y: f64, z: f64) -> Vec3 {
    Vec3::new(fx(x), fx(y), fx(z))
}

fn p(x: f64, y: f64, z: f64) -> Point3 {
    Point3::new(fx(x), fx(y), fx(z))
}

#[test]
fn vector_algebra() {
    assert_eq!(v(1.0, 2.0, 3.0) + v(0.5, -2.0, 1.0), v(1.5, 0.0, 4.0));
    assert_eq!(v(1.0, 2.0, 3.0) - v(0.5, -2.0, 1.0), v(0.5, 4.0, 2.0));
    assert_eq!(-v(1.0, -2.0, 0.0), v(-1.0, 2.0, 0.0));
    assert_eq!(v(1.0, -2.0, 3.0) * fx(2.0), v(2.0, -4.0, 6.0));
    assert_eq!(fx(2.0) * v(1.0, -2.0, 3.0), v(2.0, -4.0, 6.0));
    assert_eq!(v(1.0, -2.0, 3.0) / fx(2.0), v(0.5, -1.0, 1.5));
    assert_eq!(Vec3::zero(), v(0.0, 0.0, 0.0));
    assert_eq!(Vec3::default(), Vec3::zero());
}

#[test]
fn points_and_vectors() {
    assert_eq!(p(1.0, 2.0, 3.0) - p(0.0, 1.0, 5.0), v(1.0, 1.0, -2.0));
    assert_eq!(p(1.0, 2.0, 3.0) + v(1.0, 1.0, 1.0), p(2.0, 3.0, 4.0));
    assert_eq!(p(1.0, 2.0, 3.0) - v(1.0, 1.0, 1.0), p(0.0, 1.0, 2.0));
    assert_eq!(v(1.0, 1.0, 1.0) + p(1.0, 2.0, 3.0), p(2.0, 3.0, 4.0));
    assert_eq!(v(1.0, 1.0, 1.0) - p(1.0, 2.0, 3.0), p(0.0, -1.0, -2.0));
    assert_eq!(p(1.0, 2.0, 3.0) / fx(2.0), p(0.5, 1.0, 1.5));
    assert_eq!(Point3::zero(), p(0.0, 0.0, 0.0));
    assert_eq!(Point3::default(), Point3::zero());
}

#[test]
fn dot_and_cross_products() {
    assert_eq!(v(1.0, 2.0, 3.0).dot(v(4.0, -5.0, 6.0)).raw, 12 * SCALE);
    assert_eq!(v(1.0, 0.0, 0.0).cross(v(0.0, 1.0, 0.0)), v(0.0, 0.0, 1.0));
    assert_eq!(v(0.0, 1.0, 0.0).cross(v(1.0, 0.0, 0.0)), v(0.0, 0.0, -1.0));
    assert_eq!(v(1.0, 2.0, 3.0).cross(v(4.0, 5.0, 6.0)), v(-3.0, 6.0, -3.0));
    assert_eq!(v(1.0, 2.0, 3.0).cross(v(2.0, 4.0, 6.0)), Vec3::zero());
}

#[test]
fn lengths() {
    assert_eq!(v(3.0, 4.0, 0.0).mag().raw, 5 * SCALE);
    assert_eq!(v(3.0, 4.0, 0.0).mag_squared().raw, 25 * SCALE);
    assert_eq!(v(1.0, 1.0, 1.0).mag().raw, 1_732_050_807);
    assert_eq!(Vec3::zero().mag().raw, 0);
    // A vector too short for its square to be told from zero still has a length.
    assert_eq!(v(0.00001, 0.0, 0.0).mag_squared().raw, 0);
    assert_eq!(v(0.00001, 0.0, 0.0).mag().raw, 10_000);
}

#[test]
fn unit_vectors() {
    assert_eq!(v(0.0, 0.0, -2.0).unit(), Ok(v(0.0, 0.0, -1.0)));
    assert_eq!(v(3.0, 4.0, 0.0).unit(), Ok(v(0.6, 0.8, 0.0)));
    assert_eq!(
        v(1.0, -1.0, 0.0).unit(),
        Ok(Vec3::new(
            Fixed::from_raw(707_106_781),
            Fixed::from_raw(-707_106_781),
            Fixed::zero()
        ))
    );
    assert_eq!(Vec3::zero().unit(), Err(Error::DegenerateVector));
    assert_eq!(Vec3::zero().unit_or(v(1.0, 0.0, 0.0)), v(1.0, 0.0, 0.0));
    assert_eq!(v(0.0, 5.0, 0.0).unit_or(v(1.0, 0.0, 0.0)), v(0.0, 1.0, 0.0));
}

#[test]
fn unit_vectors_have_length_one() {
    let samples = [
        v(1.0, 2.0, 3.0),
        v(-0.3, 0.001, 12.5),
        v(1000.0, -1000.0, 0.5),
        v(0.001, 0.002, -0.003),
        v(-7.0, 0.0, 0.0),
        v(0.001, 0.001, 0.0),
        v(0.00004, -0.00003, 0.0),
        Vec3::new(Fixed::from_raw(1), Fixed::from_raw(1), Fixed::from_raw(0)),
        Vec3::new(Fixed::from_raw(-1), Fixed::from_raw(2), Fixed::from_raw(3)),
        Vec3::new(Fixed::from_raw(i64::MAX), Fixed::from_raw(i64::MAX), Fixed::from_raw(-i64::MAX)),
        Vec3::new(Fixed::from_raw(i64::MAX), Fixed::from_raw(1), Fixed::from_raw(0)),
    ];
    for s in samples.iter() {
        let u = s.unit().unwrap();
        let length = u.mag().raw;
        assert!(SCALE - 3 <= length && length <= SCALE, "length {}", length);
        assert!(u.x.raw.signum() * s.x.raw.signum() >= 0);
        assert!(u.y.raw.signum() * s.y.raw.signum() >= 0);
        assert!(u.z.raw.signum() * s.z.raw.signum() >= 0);
    }
}

#[test]
fn short_vectors_are_normalised_as_well_as_long_ones() {
    let diagonal = Vec3::new(Fixed::from_raw(707_106_781), Fixed::from_raw(707_106_781), fx(0.0));
    assert_eq!(v(0.001, 0.001, 0.0).unit(), Ok(diagonal));
    assert_eq!(
        Vec3::new(Fixed::from_raw(1), Fixed::from_raw(1), Fixed::from_raw(0)).unit(),
        Ok(diagonal)
    );
    assert_eq!(v(1000.0, 1000.0, 0.0).unit(), Ok(diagonal));
    assert_eq!(v(0.0, 0.0, -0.00004).unit(), Ok(v(0.0, 0.0, -1.0)));
    assert_eq!(v(0.000003, 0.000004, 0.0).unit(), Ok(v(0.6, 0.8, 0.0)));
}

#[test]
fn near_zero() {
    assert!(Vec3::zero().is_near_zero());
    assert!(Vec3::new(Fixed::from_raw(9), Fixed::from_raw(-9), Fixed::from_raw(0)).is_near_zero());
    assert!(!Vec3::new(Fixed::from_raw(10), Fixed::from_raw(0), Fixed::from_raw(0)).is_near_zero());
    assert!(!Vec3::new(Fixed::from_raw(0), Fixed::from_raw(0), Fixed::from_raw(-10)).is_near_zero());
}

#[test]
fn reflection() {
    assert_eq!(v(1.0, -1.0, 0.0).reflect(&v(0.0, 1.0, 0.0)), v(1.0, 1.0, 0.0));
    assert_eq!(v(0.0, 0.0, 1.0).reflect(&v(0.0, 0.0, 1.0)), v(0.0, 0.0, -1.0));
    assert_eq!(v(1.0, 0.0, 0.0).reflect(&v(0.0, 1.0, 0.0)), v(1.0, 0.0, 0.0));
}

#[test]
fn refraction() {
    // Along the normal the direction is kept, whatever the ratio.
    assert_eq!(
        v(0.0, 0.0, -1.0).refract(&v(0.0, 0.0, 1.0), fx(0.75)),
        v(0.0, 0.0, -1.0)
    );
    // With equal indices the direction is kept, up to rounding.
    let incoming = v(0.6, -0.8, 0.0);
    let out = incoming.refract(&v(0.0, 1.0, 0.0), fx(1.0));
    assert!((out.x.raw - incoming.x.raw).abs() <= 2);
    assert!((out.y.raw - incoming.y.raw).abs() <= 2);
    assert_eq!(out.z.raw, 0);
    // Into a denser medium the ray bends toward the normal:
    // sin(out) = 0.6 / 1.5 = 0.4, cos(out) = sqrt(0.84).
    let bent = incoming.refract(&v(0.0, 1.0, 0.0), Fixed::from_ratio(2, 3));
    assert!((bent.x.raw - 400_000_000).abs() <= 2);
    assert!((bent.y.raw + 916_515_139).abs() <= 2);
}

#[test]
fn random_vectors_lie_in_their_shapes() {
    let mut different = false;
    let first = Vec3::rand_in_unit_sphere();
    for _ in 0..200 {
        let s = Vec3::rand_in_unit_sphere();
        assert!(s.is_in_unit_ball());
        assert!(s.mag_squared().raw < SCALE);
        if s != first {
            different = true;
        }
        let d = Vec3::rand_in_unit_disk();
        assert!(d.is_in_unit_ball());
        assert_eq!(d.z.raw, 0);
        let n = v(0.0, 1.0, 0.0);
        let h = Vec3::rand_in_unit_hemisphere(&n);
        assert!(h.is_in_unit_ball());
        assert!(h.dot(n).raw >= 0);
        let u = Vec3::rand_unit();
        assert!((u.mag().raw - SCALE).abs() <= 1_000_000);
    }
    assert!(different);
}

#[test]
fn candidates_are_accepted_inside_the_ball_only() {
    assert_eq!(Vec3::accepted(v(0.5, 0.5, 0.5)), Some(v(0.5, 0.5, 0.5)));
    assert_eq!(Vec3::accepted(Vec3::zero()), Some(Vec3::zero()));
    assert_eq!(Vec3::accepted(v(-0.9, 0.0, 0.4)), Some(v(-0.9, 0.0, 0.4)));
    assert_eq!(Vec3::accepted(v(1.0, 0.0, 0.0)), None);
    assert_eq!(Vec3::accepted(v(0.6, 0.8, 0.0)), None);
    assert_eq!(Vec3::accepted(v(0.6, 0.6, 0.6)), None);
    assert_eq!(Vec3::accepted(v(-1.0, -1.0, -1.0)), None);
    assert_eq!(
        Vec3::accepted(v(0.6, 0.799999999, 0.0)),
        Some(v(0.6, 0.799999999, 0.0))
    );
}

#[test]
fn turning_toward_a_normal() {
    let n = v(0.0, 1.0, 0.0);
    assert_eq!(v(0.5, 0.5, 0.0).toward(&n), v(0.5, 0.5, 0.0));
    assert_eq!(v(0.5, -0.5, 0.0).toward(&n), v(-0.5, 0.5, 0.0));
    assert_eq!(v(0.5, 0.0, 0.0).toward(&n), v(-0.5, 0.0, 0.0));
}

#[test]
fn points_along_a_ray() {
    let ray = Ray { origin: p(1.0, 2.0, 3.0), direction: v(0.0, -1.0, 2.0) };
    assert_eq!(ray.at(fx(0.0)), p(1.0, 2.0, 3.0));
    assert_eq!(ray.at(fx(2.5)), p(1.0, -0.5, 8.0));
    assert_eq!(ray.at(fx(-1.0)), p(1.0, 3.0, 1.0));
    let fresh = Ray::new();
    assert_eq!(fresh.origin, Point3::zero());
    assert_eq!(fresh.direction, Vec3::zero());
    assert_eq!(Ray::default(), fresh);
}
