use rtlib::color::Color;
use rtlib::hit::Record;
use rtlib::material::{Blank, Dielectric, Lambertian, Material, Metal, Surface};
use rtlib::point3::Point3;
use rtlib::ray::Ray;
use rtlib::scalar::Fixed;
use rtlib::vec3::Vec3;
use std::rc::Rc;

fn fx(x: f64) -> Fixed {
    Fixed::from_raw((x * 1e9).round() as i64)
}

fn v(x: f64, y: f64, z: f64) -> Vec3 {
    Vec3::new(fx(x), fx(y), fx(z))
}

fn p(x: f64, y: f64, z: f64) -> Point3 {
    Point3::new(fx(x), fx(y), fx(z))
}

fn hit_at(point: Point3, normal: Vec3, front_face: bool) -> Record {
    Record { p: point, normal, mat: Rc::new(Surface::Blank(Blank::new())), t: fx(1.0), front_face }
}

fn ray(direction: Vec3) -> Ray {
    Ray { origin: p(0.0, 0.0, 0.0), direction }
}

fn white() -> Color {
    Color::new(fx(1.0), fx(1.0), fx(1.0))
}

#[test]
fn blank_absorbs() {
    let rec = hit_at(p(0.0, 0.0, -1.0), v(0.0, 0.0, 1.0), true);
    let incoming = ray(v(0.0, 0.0, -1.0));
    assert_eq!(Blank::new().scatter(&incoming, &rec), None);
    assert_eq!(Blank::default().scatter_with(&incoming, &rec, &v(0.1, 0.2, 0.3)), None);
    assert_eq!(Surface::Blank(Blank::new()).scatter(&incoming, &rec), None);
}

#[test]
fn lambertian_always_scatters_with_its_albedo() {
    let albedo = Color::new(fx(0.1), fx(0.2), fx(0.3));
    let m = Lambertian::new(&albedo);
    let rec = hit_at(p(1.0, 2.0, 3.0), v(0.0, 1.0, 0.0), true);
    let incoming = ray(v(0.0, -1.0, 0.0));
    for _ in 0..200 {
        let s = m.scatter(&incoming, &rec).unwrap();
        assert_eq!(s.attenuation, albedo);
        assert_eq!(s.scattered.origin, p(1.0, 2.0, 3.0));
        assert!(!s.scattered.direction.is_near_zero());
        // Normal plus a unit vector: never below the surface by more than rounding.
        assert!(s.scattered.direction.dot(rec.normal).raw >= -10);
        let t = Surface::Lambertian(m).scatter(&incoming, &rec).unwrap();
        assert_eq!(t.attenuation, albedo);
    }
    // Also for a ray without direction: the incoming ray plays no part.
    assert!(m.scatter(&Ray::new(), &rec).is_some());
}

#[test]
fn lambertian_adds_the_unit_sample_to_the_normal() {
    let m = Lambertian::new(&white());
    let rec = hit_at(p(0.0, 0.0, -1.0), v(0.0, 0.0, 1.0), true);
    let incoming = ray(v(0.0, 0.0, -1.0));
    let s = m.scatter_with(&incoming, &rec, &v(0.0, 0.0, 0.5)).unwrap();
    assert_eq!(s.scattered.direction, v(0.0, 0.0, 2.0));
    let s = m.scatter_with(&incoming, &rec, &v(0.3, 0.0, 0.0)).unwrap();
    assert_eq!(s.scattered.direction, v(1.0, 0.0, 1.0));
    // A sample opposite to the normal would cancel it: the normal is used.
    let s = m.scatter_with(&incoming, &rec, &v(0.0, 0.0, -0.25)).unwrap();
    assert_eq!(s.scattered.direction, v(0.0, 0.0, 1.0));
    // The centre of the ball has no direction: the first axis stands in.
    let s = m.scatter_with(&incoming, &rec, &Vec3::zero()).unwrap();
    assert_eq!(s.scattered.direction, v(1.0, 0.0, 1.0));
    let d = Surface::Lambertian(m).scatter_with(&incoming, &rec, &v(0.0, 0.0, 0.5)).unwrap();
    assert_eq!(d.scattered.direction, v(0.0, 0.0, 2.0));
    assert_eq!(Lambertian::default().albedo, Color::default());
}

#[test]
fn a_clean_mirror_reflects() {
    let albedo = Color::new(fx(0.8), fx(0.6), fx(0.2));
    let m = Metal::new(&albedo, fx(0.0));
    let rec = hit_at(p(0.0, 0.0, 0.0), v(0.0, 1.0, 0.0), true);
    let incoming = ray(v(2.0, -2.0, 0.0));
    let expected = Vec3::new(Fixed::from_raw(707_106_781), Fixed::from_raw(707_106_781), fx(0.0));
    for _ in 0..20 {
        let s = m.scatter(&incoming, &rec).unwrap();
        assert_eq!(s.attenuation, albedo);
        assert_eq!(s.scattered.origin, p(0.0, 0.0, 0.0));
        assert_eq!(s.scattered.direction, expected);
    }
    let s = Surface::Metal(m).scatter(&incoming, &rec).unwrap();
    assert_eq!(s.scattered.direction, expected);
}

#[test]
fn a_mirror_absorbs_what_reflects_into_the_surface() {
    let m = Metal::new(&white(), fx(0.0));
    let rec = hit_at(p(0.0, 0.0, 0.0), v(0.0, 0.0, 1.0), true);
    // Along the normal from behind: the reflection points into the surface.
    let incoming = ray(v(0.0, 0.0, 1.0));
    assert_eq!(incoming.direction.reflect(&rec.normal), v(0.0, 0.0, -1.0));
    for _ in 0..20 {
        assert_eq!(m.scatter(&incoming, &rec), None);
    }
    assert_eq!(m.scatter_with(&incoming, &rec, &v(0.5, 0.5, 0.5)), None);
    // Along the surface: the reflection has no part along the normal.
    let grazing = ray(v(1.0, 0.0, 0.0));
    assert_eq!(m.scatter(&grazing, &rec), None);
    assert_eq!(Surface::Metal(m).scatter(&incoming, &rec), None);
}

#[test]
fn a_blurred_mirror_adds_the_scaled_sample() {
    let m = Metal::new(&white(), fx(0.5));
    let rec = hit_at(p(0.0, 0.0, 0.0), v(0.0, 1.0, 0.0), true);
    let incoming = ray(v(0.6, -0.8, 0.0));
    let s = m.scatter_with(&incoming, &rec, &v(0.2, 0.4, -0.6)).unwrap();
    assert_eq!(s.scattered.direction, v(0.7, 1.0, -0.3));
    // A blur that pushes the ray below the surface absorbs it.
    let strong = Metal::new(&white(), fx(1.0));
    assert_eq!(strong.scatter_with(&incoming, &rec, &v(0.0, -0.9, 0.0)), None);
    assert_eq!(Metal::default().fuzz.raw, 0);
}

#[test]
fn materials_that_need_a_direction_absorb_a_ray_without_one() {
    let rec = hit_at(p(0.0, 0.0, 0.0), v(0.0, 1.0, 0.0), true);
    let still = Ray::new();
    assert_eq!(Metal::new(&white(), fx(0.0)).scatter(&still, &rec), None);
    assert_eq!(Dielectric::new(fx(1.5)).scatter(&still, &rec), None);
}

#[test]
fn glass_passes_a_ray_along_the_normal_straight() {
    let m = Dielectric::new(fx(1.5));
    let rec = hit_at(p(0.0, 0.0, -1.0), v(0.0, 0.0, 1.0), true);
    let incoming = ray(v(0.0, 0.0, -3.0));
    let s = m.scatter(&incoming, &rec).unwrap();
    assert_eq!(s.attenuation, white());
    assert_eq!(s.scattered.origin, p(0.0, 0.0, -1.0));
    assert_eq!(s.scattered.direction, v(0.0, 0.0, -1.0));
    // Leaving the glass along the normal as well.
    let inside = hit_at(p(0.0, 0.0, -1.0), v(0.0, 0.0, 1.0), false);
    let s = m.scatter(&incoming, &inside).unwrap();
    assert_eq!(s.scattered.direction, v(0.0, 0.0, -1.0));
    let s = Surface::Dielectric(m).scatter(&incoming, &rec).unwrap();
    assert_eq!(s.scattered.direction, v(0.0, 0.0, -1.0));
}

#[test]
fn glass_passes_any_ray_along_the_normal_nearly_straight() {
    let directions = [
        v(1.0, 2.0, -2.0),
        v(-0.3, 0.001, 12.5),
        v(0.00004, -0.00003, 0.00001),
        v(-700.0, 0.5, 0.25),
    ];
    for d in directions.iter() {
        let unit = d.unit().unwrap();
        for front_face in [true, false] {
            for ir in [1.5, 1.0, 0.5, 2.4, 100.0, 0.001] {
                let rec = hit_at(p(1.0, 1.0, 1.0), -unit, front_face);
                let m = Dielectric::new(fx(ir));
                let ratio = if front_face { Fixed::one() / m.ir } else { m.ir };
                let s = m.scatter(&ray(*d), &rec).unwrap();
                assert_eq!(s.attenuation, white());
                assert_eq!(s.scattered.origin, p(1.0, 1.0, 1.0));
                let out = s.scattered.direction;
                let bound = 10 * ratio.raw / 1_000_000_000 + 1;
                assert!((out.x.raw - unit.x.raw).abs() <= bound);
                assert!((out.y.raw - unit.y.raw).abs() <= bound);
                assert!((out.z.raw - unit.z.raw).abs() <= bound);
            }
        }
    }
}

#[test]
fn scattered_directions_of_glass_and_mirrors_are_of_length_one() {
    let directions = [
        v(0.001, 0.001, 0.0),
        v(0.3, -0.2, -0.9),
        v(-5.0, 1.0, -0.5),
        v(0.00001, 0.00002, -0.00002),
        v(0.0, 0.0, -3.0),
        v(1.0, 0.0, -0.0001),
    ];
    let normals = [v(0.0, 0.0, 1.0), v(0.6, 0.0, 0.8), v(1.0, 1.0, 1.0), v(-0.2, 0.3, 0.9)];
    for d in directions.iter() {
        for n in normals.iter() {
            let normal = n.unit().unwrap();
            for front_face in [true, false] {
                let rec = hit_at(p(0.0, 0.0, 0.0), normal, front_face);
                let s = Dielectric::new(fx(1.5)).scatter(&ray(*d), &rec).unwrap();
                let length = s.scattered.direction.mag().raw;
                assert!((length - 1_000_000_000).abs() <= 30, "glass {}", length);
                if let Some(m) = Metal::new(&white(), fx(0.0)).scatter(&ray(*d), &rec) {
                    let length = m.scattered.direction.mag().raw;
                    assert!((length - 1_000_000_000).abs() <= 30, "mirror {}", length);
                }
            }
        }
    }
}

#[test]
fn glass_reflects_where_it_cannot_refract() {
    let m = Dielectric::new(fx(1.5));
    // From inside, at a flat angle: 1.5 * sin = 1.5 * 0.8 > 1.
    let inside = hit_at(p(0.0, 0.0, 0.0), v(0.0, 1.0, 0.0), false);
    let incoming = ray(v(0.8, -0.6, 0.0));
    let s = m.scatter(&incoming, &inside).unwrap();
    assert_eq!(s.attenuation, white());
    assert_eq!(s.scattered.direction, v(0.8, 0.6, 0.0));
    // From outside the same ray is refracted toward the normal.
    let outside = hit_at(p(0.0, 0.0, 0.0), v(0.0, 1.0, 0.0), true);
    let s = m.scatter(&incoming, &outside).unwrap();
    let ratio = Fixed::one() / fx(1.5);
    assert_eq!(s.scattered.direction, incoming.direction.refract(&outside.normal, ratio));
    assert!(s.scattered.direction.y.raw < 0);
    assert!(s.scattered.direction.x.raw > 0);
    assert!(s.scattered.direction.x.raw < 800_000_000);
    assert_eq!(m.scatter_with(&incoming, &outside, &v(0.1, 0.1, 0.1)), Some(s));
    assert_eq!(Dielectric::default().ir.raw, 0);
}
