use rtlib::color::Color;
use rtlib::error::Error;
use rtlib::hit::{Hittable, HittableObjects, Record};
use rtlib::material::{Blank, Lambertian, Metal, Surface};
use rtlib::point3::Point3;
use rtlib::ray::Ray;
use rtlib::scalar::{Fixed, SCALE};
use rtlib::scene::{random_scene, SMALL_RADIUS};
use rtlib::sphere::Sphere;
use rtlib::vec3::Vec3;
use std::rc::Rc;

fn fx(x: f64) -> Fixed {
    Fixed::from_raw((x * 1e9).round() as i64)
}

fn v(x: f64, y: f64, z: f64) -> Vec3 {
    Vec3::new(fx(x), fx(y), fx(z))
}

fn p(x: f64, y: f64, z: f64) -> Point3 {
    Point3::new(fx(x), fx(y), fx(z))
}

fn red() -> Surface {
    Surface::Lambertian(Lambertian::new(&Color::new(fx(1.0), fx(0.0), fx(0.0))))
}

fn mirror() -> Surface {
    Surface::Metal(Metal::new(&Color::new(fx(0.8), fx(0.8), fx(0.8)), fx(0.0)))
}

fn sphere(center: Point3, radius: f64, mat: Surface) -> Sphere {
    Sphere::new(&center, fx(radius), Rc::new(mat)).unwrap()
}

fn toward_minus_z() -> Ray {
    Ray { origin: p(0.0, 0.0, 0.0), direction: v(0.0, 0.0, -1.0) }
}

#[test]
fn a_ray_at_a_sphere_hits_its_near_side() {
    let s = sphere(p(0.0, 0.0, -1.0), 0.5, red());
    let rec = s.hit(&toward_minus_z(), Fixed::zero(), Fixed::max_value()).unwrap();
    assert_eq!(rec.t, fx(0.5));
    assert_eq!(rec.p, p(0.0, 0.0, -0.5));
    assert_eq!(rec.normal, v(0.0, 0.0, 1.0));
    assert!(rec.front_face);
    assert_eq!(*rec.mat, red());
}

#[test]
fn a_ray_aimed_away_hits_nothing() {
    let s = sphere(p(0.0, 0.0, -1.0), 0.5, red());
    let away = Ray { origin: p(0.0, 0.0, 0.0), direction: v(0.0, 0.0, 1.0) };
    assert!(s.hit(&away, Fixed::zero(), Fixed::max_value()).is_none());
    let beside = Ray { origin: p(0.0, 2.0, 0.0), direction: v(0.0, 0.0, -1.0) };
    assert!(s.hit(&beside, Fixed::zero(), Fixed::max_value()).is_none());
}

#[test]
fn a_ray_from_inside_hits_the_far_side_from_behind() {
    let s = sphere(p(0.0, 0.0, -1.0), 0.5, red());
    let inside = Ray { origin: p(0.0, 0.0, -1.0), direction: v(0.0, 0.0, -1.0) };
    let rec = s.hit(&inside, fx(0.001), Fixed::max_value()).unwrap();
    assert_eq!(rec.t, fx(0.5));
    assert_eq!(rec.p, p(0.0, 0.0, -1.5));
    assert_eq!(rec.normal, v(0.0, 0.0, 1.0));
    assert!(!rec.front_face);
}

#[test]
fn the_interval_is_open_at_both_ends() {
    let s = sphere(p(0.0, 0.0, -1.0), 0.5, red());
    let ray = toward_minus_z();
    assert!(s.hit(&ray, Fixed::zero(), fx(0.5)).is_none());
    let far = s.hit(&ray, fx(0.5), fx(2.0)).unwrap();
    assert_eq!(far.t, fx(1.5));
    assert_eq!(far.p, p(0.0, 0.0, -1.5));
    assert_eq!(far.normal, v(0.0, 0.0, 1.0));
    assert!(!far.front_face);
    assert!(s.hit(&ray, fx(0.5), fx(1.5)).is_none());
    assert!(s.hit(&ray, fx(1.5), Fixed::max_value()).is_none());
    let near = s.hit(&ray, fx(0.499999999), fx(0.500000001)).unwrap();
    assert_eq!(near.t, fx(0.5));
}

#[test]
fn a_ray_without_direction_hits_nothing() {
    let s = sphere(p(0.0, 0.0, -1.0), 0.5, red());
    let still = Ray { origin: p(0.0, 0.0, -1.0), direction: Vec3::zero() };
    assert!(s.hit(&still, Fixed::zero(), Fixed::max_value()).is_none());
    assert!(s.intersect(&Ray::new(), Fixed::zero(), Fixed::max_value()).is_none());
}

#[test]
fn a_longer_direction_shortens_the_parameter() {
    let s = sphere(p(0.0, 0.0, -1.0), 0.5, red());
    let fast = Ray { origin: p(0.0, 0.0, 0.0), direction: v(0.0, 0.0, -2.0) };
    let rec = s.hit(&fast, Fixed::zero(), Fixed::max_value()).unwrap();
    assert_eq!(rec.t, fx(0.25));
    assert_eq!(rec.p, p(0.0, 0.0, -0.5));
    assert_eq!(rec.normal, v(0.0, 0.0, 1.0));
}

#[test]
fn a_short_direction_hits_where_a_long_one_does() {
    let s = sphere(p(0.0, 0.0, -1.0), 0.5, red());
    let slow = Ray { origin: p(0.0, 0.0, 0.0), direction: v(0.0, 0.0, -0.00004) };
    let rec = s.hit(&slow, Fixed::zero(), Fixed::max_value()).unwrap();
    assert_eq!(rec.t, fx(12500.0));
    assert_eq!(rec.p, p(0.0, 0.0, -0.5));
    assert_eq!(rec.normal, v(0.0, 0.0, 1.0));
    assert!(rec.front_face);
    let slower = Ray { origin: p(0.0, 0.0, 0.0), direction: v(0.0, 0.0, -0.00003) };
    let rec = s.hit(&slower, Fixed::zero(), Fixed::max_value()).unwrap();
    assert_eq!(rec.t.raw, 16_666_666_666_666);
    assert_eq!(rec.p, p(0.0, 0.0, -0.499999999));
    assert_eq!(rec.normal, v(0.0, 0.0, 1.0));
    let slowest = Ray {
        origin: p(0.0, 0.0, 0.0),
        direction: Vec3::new(Fixed::zero(), Fixed::zero(), Fixed::from_raw(-1)),
    };
    let rec = s.hit(&slowest, Fixed::zero(), Fixed::max_value()).unwrap();
    assert_eq!(rec.t, fx(500_000_000.0));
    assert_eq!(rec.p, p(0.0, 0.0, -0.5));
}

#[test]
fn a_sphere_behind_the_ray_is_not_hit() {
    let tiny = sphere(p(-0.00003, -0.00003, -0.00003), 0.00004, red());
    let ray = Ray { origin: p(0.0, 0.0, 0.0), direction: v(1.0, 0.0, 0.0) };
    assert!(tiny.hit(&ray, Fixed::zero(), Fixed::max_value()).is_none());
    // Turned round, the same sphere is hit, and its normal is of length one.
    let back = Ray { origin: p(0.0, 0.0, 0.0), direction: v(-1.0, -1.0, -1.0) };
    let rec = tiny.hit(&back, Fixed::zero(), Fixed::max_value()).unwrap();
    assert!((rec.normal.mag().raw - SCALE).abs() <= 3);
    assert!(rec.front_face);
    assert!(((rec.p - tiny.center).mag().raw - 40_000).abs() <= 3);
}

#[test]
fn hit_points_lie_on_the_sphere_and_normals_are_of_length_one() {
    let cases = [
        (p(0.0, 0.0, -1.0), 0.5, p(0.0, 0.0, 0.0), v(0.1, 0.2, -1.0)),
        (p(0.0, -1000.0, 0.0), 1000.0, p(13.0, 2.0, 3.0), v(-1.0, -0.3, -0.2)),
        (p(4.0, 1.0, 0.0), 1.0, p(13.0, 2.0, 3.0), v(-9.0, -1.0, -3.1)),
        (p(0.3, 0.2, -0.7), 0.2, p(0.0, 0.0, 0.0), v(0.3, 0.25, -0.7)),
        (p(100.0, 100.0, 100.0), 3.0, p(0.0, 0.0, 0.0), v(0.01, 0.0101, 0.0099)),
    ];
    for (centre, radius, origin, direction) in cases.iter() {
        let s = sphere(*centre, *radius, red());
        let ray = Ray { origin: *origin, direction: *direction };
        let rec = s.hit(&ray, fx(0.001), Fixed::max_value()).unwrap();
        assert_eq!(rec.p, ray.at(rec.t));
        let distance = (rec.p - *centre).mag().raw;
        assert!((distance - s.radius.raw).abs() <= 20, "distance {}", distance);
        let length = rec.normal.mag().raw;
        assert!(SCALE - 3 <= length && length <= SCALE);
        assert!(ray.direction.dot(rec.normal).raw <= 0);
    }
}

#[test]
fn a_sphere_far_away_is_hit_as_well() {
    let far = sphere(p(0.0, 0.0, -3.0e9), 1.0, red());
    let rec = far.hit(&toward_minus_z(), fx(0.001), Fixed::max_value()).unwrap();
    assert_eq!(rec.t, fx(2_999_999_999.0));
    assert_eq!(rec.p, p(0.0, 0.0, -2_999_999_999.0));
    assert_eq!(rec.normal, v(0.0, 0.0, 1.0));
    assert!(rec.front_face);
    let huge = sphere(p(0.0, 0.0, -6.0e9), 3.0e9, mirror());
    let rec = huge.hit(&toward_minus_z(), fx(0.001), Fixed::max_value()).unwrap();
    assert_eq!(rec.t, fx(3.0e9));
    assert_eq!(rec.normal, v(0.0, 0.0, 1.0));
    let beside = Ray { origin: p(0.0, 5.0, 0.0), direction: v(0.0, 0.0, -1.0) };
    assert!(far.hit(&beside, fx(0.001), Fixed::max_value()).is_none());
    let away = Ray { origin: p(0.0, 0.0, 0.0), direction: v(0.0, 0.0, 1.0) };
    assert!(far.hit(&away, fx(0.001), Fixed::max_value()).is_none());
}

#[test]
fn a_sphere_without_radius_is_not_hit() {
    let flat = Sphere { center: p(0.0, 0.0, -1.0), radius: fx(0.0), mat: Rc::new(red()) };
    assert!(flat.hit(&toward_minus_z(), Fixed::zero(), Fixed::max_value()).is_none());
    let inverted = Sphere { center: p(0.0, 0.0, -1.0), radius: fx(-0.5), mat: Rc::new(red()) };
    assert!(inverted.hit(&toward_minus_z(), Fixed::zero(), Fixed::max_value()).is_none());
}

#[test]
fn a_radius_must_be_positive() {
    let centre = p(0.0, 0.0, 0.0);
    assert_eq!(
        Sphere::new(&centre, fx(0.0), Rc::new(red())).err(),
        Some(Error::InvalidRadius)
    );
    assert_eq!(
        Sphere::new(&centre, fx(-1.0), Rc::new(red())).err(),
        Some(Error::InvalidRadius)
    );
    let small = Sphere::new(&centre, Fixed::from_raw(1), Rc::new(red())).unwrap();
    assert_eq!(small.radius.raw, 1);
    assert_eq!(small.center, centre);
}

#[test]
fn a_fresh_record_is_blank() {
    let rec = Record::new();
    assert_eq!(rec.p, Point3::zero());
    assert_eq!(rec.normal, Vec3::zero());
    assert_eq!(rec.t.raw, 0);
    assert!(!rec.front_face);
    assert_eq!(*rec.mat, Surface::Blank(Blank::new()));
    let other = Record::default();
    assert_eq!(other.t.raw, 0);
    assert_eq!(*other.mat, Surface::Blank(Blank::new()));
}

#[test]
fn the_normal_is_turned_against_the_ray() {
    let mut rec = Record::new();
    rec.set_face_normal(&toward_minus_z(), &v(0.0, 0.0, 1.0));
    assert!(rec.front_face);
    assert_eq!(rec.normal, v(0.0, 0.0, 1.0));
    rec.set_face_normal(&toward_minus_z(), &v(0.0, 0.0, -1.0));
    assert!(!rec.front_face);
    assert_eq!(rec.normal, v(0.0, 0.0, 1.0));
    // A ray along the surface counts as coming from behind.
    rec.set_face_normal(&toward_minus_z(), &v(0.0, 1.0, 0.0));
    assert!(!rec.front_face);
    assert_eq!(rec.normal, v(0.0, -1.0, 0.0));
}

#[test]
fn of_two_overlapping_spheres_the_nearer_is_hit() {
    let near = sphere(p(0.0, 0.0, -1.0), 0.5, red());
    let far = sphere(p(0.0, 0.0, -1.2), 0.5, mirror());
    let alone = far.hit(&toward_minus_z(), Fixed::zero(), Fixed::max_value()).unwrap();
    assert_eq!(alone.t, fx(0.7));

    let mut world = HittableObjects::new();
    world.add(far);
    world.add(near);
    let rec = world.hit(&toward_minus_z(), Fixed::zero(), Fixed::max_value()).unwrap();
    assert_eq!(rec.t, fx(0.5));
    assert_eq!(*rec.mat, red());

    let near = sphere(p(0.0, 0.0, -1.0), 0.5, red());
    let far = sphere(p(0.0, 0.0, -1.2), 0.5, mirror());
    let mut world = HittableObjects::new();
    world.add(near);
    world.add(far);
    let rec = world.hit(&toward_minus_z(), Fixed::zero(), Fixed::max_value()).unwrap();
    assert_eq!(rec.t, fx(0.5));
    assert_eq!(*rec.mat, red());
}

#[test]
fn of_two_equal_hits_the_first_object_wins() {
    let mut world = HittableObjects::new();
    world.add(sphere(p(0.0, 0.0, -1.0), 0.5, mirror()));
    world.add(sphere(p(0.0, 0.0, -1.0), 0.5, red()));
    let rec = world.hit(&toward_minus_z(), Fixed::zero(), Fixed::max_value()).unwrap();
    assert_eq!(*rec.mat, mirror());
}

#[test]
fn a_scene_respects_the_interval() {
    let mut world = HittableObjects::new();
    world.add(sphere(p(0.0, 0.0, -1.0), 0.5, red()));
    world.add(sphere(p(0.0, 0.0, -3.0), 0.5, mirror()));
    let ray = toward_minus_z();
    assert!(world.hit(&ray, Fixed::zero(), fx(0.5)).is_none());
    let second = world.hit(&ray, fx(1.5), Fixed::max_value()).unwrap();
    assert_eq!(second.t, fx(2.5));
    assert_eq!(*second.mat, mirror());
    let behind = world.hit(&ray, fx(0.5), fx(2.0)).unwrap();
    assert_eq!(behind.t, fx(1.5));
    assert!(world.hit(&ray, fx(3.5), Fixed::max_value()).is_none());
}

#[test]
fn an_empty_scene_is_never_hit() {
    let mut world: HittableObjects<Sphere> = HittableObjects::new();
    assert_eq!(world.objects.len(), 0);
    assert!(world.hit(&toward_minus_z(), Fixed::zero(), Fixed::max_value()).is_none());
    world.add(sphere(p(0.0, 0.0, -1.0), 0.5, red()));
    assert_eq!(world.objects.len(), 1);
    assert!(world.hit(&toward_minus_z(), Fixed::zero(), Fixed::max_value()).is_some());
    world.clear();
    assert_eq!(world.objects.len(), 0);
    assert!(world.hit(&toward_minus_z(), Fixed::zero(), Fixed::max_value()).is_none());
}

#[test]
fn a_scene_of_scenes_is_swept_as_one() {
    let mut front = HittableObjects::new();
    front.add(sphere(p(0.0, 0.0, -1.0), 0.5, red()));
    let mut back = HittableObjects::new();
    back.add(sphere(p(0.0, 0.0, -3.0), 0.5, mirror()));
    let mut world = HittableObjects::new();
    world.add(back);
    world.add(front);
    let rec = world.hit(&toward_minus_z(), Fixed::zero(), Fixed::max_value()).unwrap();
    assert_eq!(rec.t, fx(0.5));
    assert_eq!(*rec.mat, red());
}

#[test]
fn the_demonstration_scene_has_its_fixed_spheres() {
    let world = random_scene();
    let n = world.objects.len();
    assert!(n >= 4 && n <= 4 + 22 * 22);
    // Every cell but the four around the reserved place holds a sphere.
    assert!(n >= 4 + 22 * 22 - 4);
    let ground = &world.objects[0];
    assert_eq!(ground.center, p(0.0, -1000.0, 0.0));
    assert_eq!(ground.radius, fx(1000.0));
    assert_eq!(
        *ground.mat,
        Surface::Lambertian(Lambertian::new(&Color::new(fx(0.5), fx(0.5), fx(0.5))))
    );
    assert_eq!(world.objects[n - 3].center, p(0.0, 1.0, 0.0));
    assert_eq!(world.objects[n - 2].center, p(-4.0, 1.0, 0.0));
    assert_eq!(world.objects[n - 1].center, p(4.0, 1.0, 0.0));
    assert_eq!(*world.objects[n - 1].mat, mirror_of_the_scene());
    for s in world.objects[n - 3..].iter() {
        assert_eq!(s.radius, fx(1.0));
    }
    let mut kinds = [0usize; 3];
    for s in world.objects[1..n - 3].iter() {
        assert_eq!(s.radius.raw, SMALL_RADIUS);
        assert_eq!(s.center.y.raw, SMALL_RADIUS);
        assert!(-11 * SCALE <= s.center.x.raw && s.center.x.raw < 11 * SCALE);
        assert!(-11 * SCALE <= s.center.z.raw && s.center.z.raw < 11 * SCALE);
        assert!((s.center - p(4.0, 0.2, 0.0)).mag().raw > 900_000_000);
        match &*s.mat {
            Surface::Lambertian(m) => {
                kinds[0] += 1;
                assert!(0 <= m.albedo.r.raw && m.albedo.r.raw < SCALE);
            }
            Surface::Metal(m) => {
                kinds[1] += 1;
                assert!(500_000_000 <= m.albedo.g.raw && m.albedo.g.raw < SCALE);
                assert!(0 <= m.fuzz.raw && m.fuzz.raw < 500_000_000);
            }
            Surface::Dielectric(m) => {
                kinds[2] += 1;
                assert_eq!(m.ir, fx(1.5));
            }
            Surface::Blank(_) => panic!("a small sphere without material"),
        }
    }
    assert!(kinds[0] > kinds[1] && kinds[1] > 0);
}

fn mirror_of_the_scene() -> Surface {
    Surface::Metal(Metal::new(&Color::new(fx(0.7), fx(0.6), fx(0.5)), fx(0.0)))
}
