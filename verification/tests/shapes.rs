use rtlib::color::Color;
use rtlib::hit::{Hittable, HittableObjects};
use rtlib::material::{Lambertian, Metal, Surface};
use rtlib::point3::Point3;
use rtlib::ray::Ray;
use rtlib::scalar::Fixed;
use rtlib::sphere::{Shape, Sphere};
use rtlib::vec3::Vec3;
use std::rc::Rc;

fn fx(x: f64) -> Fixed {
    Fixed::from_raw((x * 1e9).round() as i64)
}

fn ball(z: f64, mat: Surface) -> Sphere {
    Sphere::new(&Point3::new(fx(0.0), fx(0.0), fx(z)), fx(0.5), Rc::new(mat)).unwrap()
}

fn red() -> Surface {
    Surface::Lambertian(Lambertian::new(&Color::new(fx(1.0), fx(0.0), fx(0.0))))
}

fn mirror() -> Surface {
    Surface::Metal(Metal::new(&Color::new(fx(0.8), fx(0.8), fx(0.8)), fx(0.0)))
}

#[test]
fn a_scene_mixes_spheres_and_groups() {
    let ray = Ray {
        origin: Point3::new(fx(0.0), fx(0.0), fx(0.0)),
        direction: Vec3::new(fx(0.0), fx(0.0), fx(-1.0)),
    };
    let mut world: HittableObjects<Shape> = HittableObjects::new();
    world.add(Shape::Group(vec![ball(-5.0, mirror()), ball(-3.0, mirror())]));
    world.add(Shape::Sphere(ball(-1.0, red())));
    world.add(Shape::Group(vec![]));
    let rec = world.hit(&ray, Fixed::zero(), Fixed::max_value()).unwrap();
    assert_eq!(rec.t, fx(0.5));
    assert_eq!(*rec.mat, red());
    let behind = world.hit(&ray, fx(1.5), Fixed::max_value()).unwrap();
    assert_eq!(behind.t, fx(2.5));
    assert_eq!(*behind.mat, mirror());
    let group = Shape::Group(vec![ball(-5.0, mirror()), ball(-3.0, red())]);
    let rec = group.hit(&ray, Fixed::zero(), Fixed::max_value()).unwrap();
    assert_eq!(rec.t, fx(2.5));
    assert_eq!(*rec.mat, red());
    assert!(group.intersect(&ray, fx(5.5), Fixed::max_value()).is_none());
    assert!(Shape::Group(vec![]).hit(&ray, Fixed::zero(), Fixed::max_value()).is_none());
}
